use readymade::postinstall::{KernelStep, ReinstallKernel};
use readymade::postinstall::Drivers;

#[test]
fn test_get_nvidia_driver() {
    assert_eq!(Drivers::get_nvidia_driver("NV34"), "unsupported");
    assert_eq!(Drivers::get_nvidia_driver("GK104"), "470xx");
    assert_eq!(Drivers::get_nvidia_driver("GP108"), "latest");
    assert_eq!(Drivers::get_nvidia_driver("GK208"), "470xx");
    assert_eq!(Drivers::get_nvidia_driver("GT218"), "340xx");
}

#[test]
fn nvidia_driver_other_prefixes() {
    assert_eq!(Drivers::get_nvidia_driver("MCP61"), "unsupported");
    assert_eq!(Drivers::get_nvidia_driver("G73"), "unsupported");
    assert_eq!(Drivers::get_nvidia_driver("G84"), "340xx");
    assert_eq!(Drivers::get_nvidia_driver("G92"), "340xx");
    assert_eq!(Drivers::get_nvidia_driver("GF108"), "390xx");
    assert_eq!(Drivers::get_nvidia_driver("AD102"), "latest");
    assert_eq!(Drivers::get_nvidia_driver(""), "latest");
}

#[test]
fn nvidia_packages_latest_legacy_and_unsupported() {
    assert_eq!(
        Drivers::list_nvidia_packages("AD102"),
        vec![
            "nvidia-gpu-firmware",
            "libva-nvidia-driver",
            "akmod-nvidia",
            "xorg-x11-drv-nvidia",
            "xorg-x11-drv-nvidia-cuda"
        ]
    );
    assert_eq!(
        Drivers::list_nvidia_packages("GK104"),
        vec![
            "nvidia-gpu-firmware",
            "libva-nvidia-driver",
            "akmod-nvidia-470xx",
            "xorg-x11-drv-nvidia-470xx",
            "xorg-x11-drv-nvidia-470xx-cuda"
        ]
    );
    assert_eq!(
        Drivers::list_nvidia_packages("NV34"),
        vec!["nvidia-gpu-firmware", "libva-nvidia-driver"]
    );
}

#[test]
fn chipset_is_last_field_of_output() {
    assert_eq!(Drivers::chipset_from_output(b"NVIDIA Corporation GK104"), b"GK104".to_vec());
    assert_eq!(Drivers::chipset_from_output(b"GK104"), b"GK104".to_vec());
    assert_eq!(Drivers::chipset_from_output(b"a b "), b"".to_vec());
}

#[test]
fn reinstall_kernel_plan() {
    let err = ReinstallKernel::plan("6.9.0", false, false).unwrap_err();
    assert_eq!(err, "Kernel version 6.9.0 does not have a vmlinuz file at /lib/modules/6.9.0/vmlinuz");
    let steps = ReinstallKernel::plan("6.9.0", true, false).unwrap();
    assert_eq!(steps.len(), 3);
    assert_eq!(
        steps[0],
        KernelStep::KernelInstall(vec![
            "add".to_owned(),
            "6.9.0".to_owned(),
            "/lib/modules/6.9.0/vmlinuz".to_owned(),
            "--verbose".to_owned()
        ])
    );
    assert_eq!(
        steps[1],
        KernelStep::Copy("/lib/modules/6.9.0/vmlinuz".to_owned(), "/boot/vmlinuz-recovery".to_owned())
    );
    assert!(matches!(&steps[2], KernelStep::Dracut(a) if a[6] == "6.9.0"));
    let steps = ReinstallKernel::plan("6.9.0", true, true).unwrap();
    assert_eq!(steps.len(), 2);
    assert!(matches!(&steps[1], KernelStep::Dracut(_)));
}
