use readymade::cfg::{Bento, CopyMode, Distro, Install, ReadymadeConfig};
use readymade::custom::{MountTarget, MountTargets};
use readymade::disks::DiskInit;
use readymade::install::{
    is_device_busy, DetailedCopyMode, DetailedInstallationType, FinalInstallationState, InstallStep,
    InstallationState, InstallationType, SubprocessNext, SubprocessOutcome,
};
use readymade::repart_output::CryptData;

fn bento() -> Bento {
    Bento { title: "t".into(), desc: "d".into(), link: "l".into(), icon: "i".into() }
}

fn config(copy_mode: CopyMode, imgref: Option<&str>) -> ReadymadeConfig {
    ReadymadeConfig {
        no_langpage: false,
        distro: Distro { name: "Ultramarine Linux".into(), icon: "fedora-logo-icon".into() },
        install: Install {
            allowed_installtypes: vec![InstallationType::WholeDisk],
            copy_mode,
            bootc_imgref: imgref.map(str::to_owned),
            bootc_target_imgref: None,
            bootc_enforce_sigpolicy: true,
            bootc_kargs: Some(vec!["nomodeset".into()]),
            bootc_args: None,
        },
        postinstall: vec![],
        bentos: [bento(), bento(), bento()],
    }
}

fn disk() -> DiskInit {
    DiskInit { disk_name: "Disk (sda)".into(), os_name: "unknown".into(), devpath: "/dev/sda".into(), size: 1024 }
}

#[test]
fn detailed_type_conversions() {
    let d = DetailedInstallationType::DualBoot(42);
    assert_eq!(d.simple(), InstallationType::DualBoot(42));
    assert_eq!(InstallationType::from(&d), InstallationType::DualBoot(42));
    assert_eq!(d.as_dual_boot(), Some(&42));
    assert!(d.is_dual_boot() && !d.is_whole_disk() && !d.is_custom() && !d.is_chromebook_install());
    let c = DetailedInstallationType::Custom { mounttags: MountTargets(vec![]) };
    assert!(c.is_custom());
    assert!(c.mounttags().is_some());
    assert_eq!(c.simple(), InstallationType::Custom);
    assert!(DetailedInstallationType::WholeDisk.mounttags().is_none());
    assert!(DetailedCopyMode::default().is_repart());
}

#[test]
fn state_from_config_and_final() {
    let cfg = config(CopyMode::Bootc, Some("quay.io/um/os:latest"));
    let mut st = InstallationState::from_config(&cfg, Some("env-src".into()), Some("env-target".into()));
    assert_eq!(st.bootc_imgref.as_deref(), Some("quay.io/um/os:latest"));
    assert_eq!(st.bootc_target_imgref.as_deref(), Some("env-target"));
    assert_eq!(st.distro_name, "Ultramarine Linux");
    st.destination_disk = Some(disk());
    st.installation_type = Some(InstallationType::WholeDisk);
    st.encrypt = true;
    st.tpm = true;
    st.encryption_key = Some("hunter2".into());
    let fin = FinalInstallationState::from_state(&st, cfg);
    assert_eq!(fin.langlocale, "C.UTF-8");
    assert_eq!(fin.destination_disk.devpath, "/dev/sda");
    assert!(fin.installation_type.is_whole_disk());
    let e = fin.encrypts.as_ref().unwrap();
    assert!(e.tpm);
    assert_eq!(e.encryption_key, "hunter2");
    match &fin.copy_mode {
        DetailedCopyMode::Bootc { bootc_imgref, bootc_kargs, bootc_args, bootc_enforce_sigpolicy, .. } => {
            assert_eq!(bootc_imgref, "quay.io/um/os:latest");
            assert_eq!(bootc_kargs, &vec!["nomodeset".to_owned()]);
            assert!(bootc_args.is_empty());
            assert!(*bootc_enforce_sigpolicy);
        }
        DetailedCopyMode::Repart => panic!("expected bootc"),
    }
    let plan = fin.install_plan();
    assert_eq!(
        plan,
        vec![
            InstallStep::LayerConfigdir,
            InstallStep::WriteKeyfile,
            InstallStep::EnableEncryption,
            InstallStep::Repart,
            InstallStep::ExportConfigs,
            InstallStep::BootcCopy,
            InstallStep::SetupSystem,
            InstallStep::BootcCleanup,
            InstallStep::RemoveKeyfile,
            InstallStep::CloseMappers,
        ]
    );
}

#[test]
fn repart_mode_uses_env_source_and_custom_keeps_targets() {
    let cfg = config(CopyMode::Repart, Some("ignored"));
    let mut st = InstallationState::from_config(&cfg, Some("env-src".into()), None);
    assert_eq!(st.bootc_imgref.as_deref(), Some("env-src"));
    st.bootc_imgref = None;
    st.destination_disk = Some(disk());
    st.installation_type = Some(InstallationType::Custom);
    st.langlocale = Some("de_DE.UTF-8".into());
    st.mounttags = Some(MountTargets(vec![MountTarget {
        index: 0,
        partition: "/dev/sda2".into(),
        mountpoint: "/".into(),
        options: String::new(),
    }]));
    let fin = FinalInstallationState::from_state(&st, cfg);
    assert_eq!(fin.langlocale, "de_DE.UTF-8");
    assert!(fin.copy_mode.is_repart());
    assert!(fin.encrypts.is_none());
    assert_eq!(fin.installation_type.mounttags().unwrap().0[0].partition, "/dev/sda2");
    assert_eq!(fin.install_plan(), vec![InstallStep::InstallCustom]);
}

#[test]
fn chromebook_plan_flashes_submarine() {
    let cfg = config(CopyMode::Repart, None);
    let mut st = InstallationState::from_config(&cfg, None, None);
    st.destination_disk = Some(disk());
    st.installation_type = Some(InstallationType::ChromebookInstall);
    let fin = FinalInstallationState::from_state(&st, cfg);
    assert_eq!(
        fin.install_plan(),
        vec![
            InstallStep::LayerConfigdir,
            InstallStep::Repart,
            InstallStep::ExportConfigs,
            InstallStep::SetupSystem,
            InstallStep::FlashSubmarine,
            InstallStep::SetCgptFlags,
        ]
    );
}

#[test]
fn device_busy_in_last_kilobyte() {
    let msg = "Failed to reread partition table: Device or resource busy\n";
    assert!(is_device_busy(format!("log\n{msg}").as_bytes()));
    assert!(!is_device_busy(b"all good\n"));
    let mut early = msg.to_owned();
    early.push_str(&"x".repeat(2000));
    assert!(!is_device_busy(early.as_bytes()));
    let mut late = "x".repeat(2000);
    late.push_str(msg);
    assert!(is_device_busy(late.as_bytes()));
    assert!(!is_device_busy(b""));
}

#[test]
fn subprocess_retries_three_times_at_most() {
    let busy = SubprocessOutcome::Failed { device_busy: true };
    assert_eq!(FinalInstallationState::after_subprocess(0, busy), SubprocessNext::Retry(1));
    assert_eq!(FinalInstallationState::after_subprocess(1, busy), SubprocessNext::Retry(2));
    assert_eq!(FinalInstallationState::after_subprocess(2, busy), SubprocessNext::GiveUp);
    assert_eq!(FinalInstallationState::after_subprocess(0, SubprocessOutcome::Succeeded), SubprocessNext::Done);
    assert_eq!(
        FinalInstallationState::after_subprocess(1, SubprocessOutcome::Failed { device_busy: false }),
        SubprocessNext::Fail
    );
    assert_eq!(FinalInstallationState::after_subprocess(0, SubprocessOutcome::NotRun), SubprocessNext::NotRun);
}

#[test]
fn repart_arguments() {
    let a = FinalInstallationState::repart_args(false, "/run/cfg", true, "/mnt/src", Some("/tmp/key"), "/dev/sda");
    assert_eq!(
        a,
        vec![
            "--dry-run", "no", "--definitions", "/run/cfg", "--empty", "force", "--offline", "false", "--json",
            "pretty", "--copy-source", "/mnt/src", "--key-file", "/tmp/key", "/dev/sda"
        ]
    );
    let b = FinalInstallationState::repart_args(true, "/run/cfg", false, "/mnt/src", None, "/dev/vda");
    assert_eq!(
        b,
        vec!["--dry-run", "yes", "--definitions", "/run/cfg", "--empty", "force", "--offline", "false", "--json", "pretty", "/dev/vda"]
    );
    assert!(FinalInstallationState::dry_run(Some("1"), false));
    assert!(!FinalInstallationState::dry_run(Some("0"), true));
    assert!(FinalInstallationState::dry_run(None, true));
    assert!(!FinalInstallationState::dry_run(None, false));
}

#[test]
fn bootc_arguments() {
    let cfg = config(CopyMode::Bootc, Some("img"));
    let mut st = InstallationState::from_config(&cfg, None, Some("target".into()));
    st.destination_disk = Some(disk());
    st.installation_type = Some(InstallationType::WholeDisk);
    st.bootc_args = Some(vec!["--skip-fetch-check".into()]);
    let fin = FinalInstallationState::from_state(&st, cfg);
    let crypt = Some(CryptData { crypttab: String::new(), cmdline_opts: vec!["rd.luks.name=1=root".into()], tpm: false });
    assert_eq!(
        fin.bootc_install_args("/tmp/root", &crypt),
        vec![
            "install", "to-filesystem", "--source-imgref", "img", "--karg", "rd.luks.name=1=root", "--karg=rhgb",
            "--karg=quiet", "--karg=splash", "/tmp/root", "--target-imgref", "target", "--karg", "nomodeset",
            "--enforce-container-sigpolicy", "--skip-fetch-check"
        ]
    );
}

#[test]
fn small_helpers() {
    assert_eq!(InstallationType::WholeDisk.cfgdir(false, "/usr/share/readymade/repart-cfgs/"), "/usr/share/readymade/repart-cfgs/wholedisk");
    assert_eq!(InstallationType::WholeDisk.cfgdir(true, "/cfgs"), "/cfgs/bootcwholedisk");
    assert_eq!(InstallationType::ChromebookInstall.cfgdir(false, "/cfgs"), "/cfgs/chromebook");
    assert_eq!(
        InstallationType::cgpt_args("/dev/mmcblk0"),
        vec!["add", "-i", "2", "-t", "kernel", "-P", "15", "-T", "1", "-S", "1", "/dev/mmcblk0"]
    );
    assert_eq!(FinalInstallationState::encrypt_value(false), "key-file");
    assert_eq!(FinalInstallationState::encrypt_value(true), "key-file+tpm2");
    assert!(FinalInstallationState::bootc_keeps(b"ostree"));
    assert!(FinalInstallationState::bootc_keeps(b".bootc-aleph.json"));
    assert!(!FinalInstallationState::bootc_keeps(b"home"));
    assert_eq!(FinalInstallationState::determine_copy_source(Some("/x".into()), true).as_deref(), Some("/x"));
    assert_eq!(FinalInstallationState::determine_copy_source(None, true).as_deref(), Some("/run/rootfsbase"));
    assert_eq!(FinalInstallationState::determine_copy_source(None, false), None);
    assert_eq!(FinalInstallationState::live_base_source(None), "/mnt/live-base");
    assert_eq!(FinalInstallationState::live_base_source(Some("/m".into())), "/m");
}

#[test]
fn test_set_encrypt_to_file() {
    let enc = FinalInstallationState::set_encrypt_to_file("[Partition]\nType=root", false);
    assert!(enc.contains("Encrypt=key-file"),);
}

#[test]
fn encrypt_replaces_old_value_and_adds_tpm() {
    let enc = FinalInstallationState::set_encrypt_to_file("[Partition]\nType=root\nEncrypt=off\nFormat=btrfs\n", true);
    assert_eq!(enc, "[Partition]\nEncrypt=key-file+tpm2\nFormat=btrfs\nType=root\n");
}

#[test]
fn default_type_only_when_single() {
    assert_eq!(InstallationState::default_type(&vec![InstallationType::ChromebookInstall]), Some(InstallationType::ChromebookInstall));
    assert_eq!(InstallationState::default_type(&vec![]), None);
    assert_eq!(InstallationState::default_type(&vec![InstallationType::WholeDisk, InstallationType::Custom]), None);
}

#[test]
fn subprocess_arguments_forward_installer_variables() {
    let env = vec![
        ("HOME".to_owned(), "/root".to_owned()),
        ("REPART_COPY_SOURCE".to_owned(), "/mnt".to_owned()),
        ("READYMADE_DRY_RUN".to_owned(), "1".to_owned()),
    ];
    let args = FinalInstallationState::subprocess_args("/usr/bin/readymade", "chan", &env, None);
    assert_eq!(
        args,
        vec![
            "systemd-inhibit",
            "--who=Readymade",
            "--why=Installing OS",
            "/usr/bin/readymade",
            "--non-interactive",
            "chan",
            "REPART_COPY_SOURCE=/mnt",
            "READYMADE_DRY_RUN=1",
            "NO_COLOR=1",
            "READYMADE_LOG=info",
        ]
    );
    let args = FinalInstallationState::subprocess_args("x", "c", &vec![], Some("trace"));
    assert_eq!(args.last().unwrap(), "READYMADE_LOG=trace");
}
