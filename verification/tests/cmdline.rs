use readymade::util::exist_then;
use readymade::util::{get_whole_disk, partition_number, sys_class_block_path, InstallMessage, KernelCmdline};

const READ_TEST: &str = "root=UUID=1234 ro";

#[test]
fn test_read_cmdline() {
    let cmdline = KernelCmdline::new(READ_TEST);
    assert_eq!(cmdline.get(), vec!["root=UUID=1234", "ro"]);
}

#[test]
fn test_append_or_replace() {
    let mut cmdline = KernelCmdline::new(READ_TEST);
    cmdline.append_or_replace("root=UUID=5678");
    cmdline.append_or_replace("rhgb");
    cmdline.append_or_replace("quiet");
    assert_eq!(cmdline.get(), vec!["root=UUID=5678", "ro", "rhgb", "quiet"]);

    cmdline.append_or_replace("quiet");
    assert_eq!(cmdline.get(), vec!["root=UUID=5678", "ro", "rhgb", "quiet"]);

    cmdline.append_or_replace("root=LABEL=nyaa");
    assert_eq!(cmdline.get(), vec!["root=LABEL=nyaa", "ro", "rhgb", "quiet"]);
}

#[test]
fn test_set_cmdline() {
    let mut cmdline = KernelCmdline::new(READ_TEST);
    cmdline.set(&["test".to_owned()]);
    assert_eq!(cmdline.get(), vec!["test"]);
}

#[test]
fn test_append_cmdline() {
    let mut cmdline = KernelCmdline::new(READ_TEST);
    cmdline.append("quiet".to_owned());
    println!("{:?}", cmdline.get());
    assert_eq!(cmdline.get(), vec!["root=UUID=1234", "ro"]);
}

#[test]
fn appended_arguments_are_written_then_committed() {
    let mut cmdline = KernelCmdline::new(READ_TEST);
    cmdline.append("quiet".to_owned());
    cmdline.append("rhgb".to_owned());
    assert_eq!(cmdline.to_contents(), "root=UUID=1234 ro quiet rhgb");
    cmdline.commit();
    assert_eq!(cmdline.get(), vec!["root=UUID=1234", "ro", "quiet", "rhgb"]);
    assert_eq!(cmdline.to_contents(), "root=UUID=1234 ro quiet rhgb");
}

#[test]
fn contents_round_trip() {
    let cmdline = KernelCmdline::new("  root=UUID=1234\tro \n quiet ");
    assert_eq!(cmdline.to_contents(), "root=UUID=1234 ro quiet");
    let again = KernelCmdline::new(&cmdline.to_contents());
    assert_eq!(again.get(), cmdline.get());
    assert_eq!(KernelCmdline::new("").to_contents(), "");
}

#[test]
fn append_or_replace_twice_is_once() {
    let mut a = KernelCmdline::new("root=UUID=1 quiet");
    a.append_or_replace("root=LABEL=x");
    let once = a.get();
    a.append_or_replace("root=LABEL=x");
    assert_eq!(a.get(), once);
    assert_eq!(once, vec!["root=LABEL=x", "quiet"]);
    a.append_or_replace("rd.luks.uuid=abc");
    assert_eq!(a.get(), vec!["root=LABEL=x", "quiet", "rd.luks.uuid=abc"]);
}

#[test]
fn install_message_status() {
    let InstallMessage::Status(s) = InstallMessage::new("mkpart");
    assert_eq!(s, "mkpart");
}

#[test]
fn sys_paths() {
    assert_eq!(sys_class_block_path("/dev/sda1"), "/sys/class/block/sda1");
    assert_eq!(sys_class_block_path("nvme0n1p2"), "/sys/class/block/nvme0n1p2");
    assert_eq!(partition_number("2\n"), Some(2));
    assert_eq!(partition_number(" 15 "), Some(15));
    assert_eq!(partition_number("x"), None);
    assert_eq!(get_whole_disk("/sys/devices/pci0000:00/0000:00:1f.2/ata1/host0/target0:0:0/0:0:0:0/block/sda"), "/dev/sda");
    assert_eq!(get_whole_disk("sda"), "sda");
}

#[test]
fn exist_then_ignores_only_missing_files() {
    let missing: Result<u32, std::io::Error> = Err(std::io::Error::from(std::io::ErrorKind::NotFound));
    assert_eq!(exist_then(missing).unwrap(), 0);
    let denied: Result<u32, std::io::Error> = Err(std::io::Error::from(std::io::ErrorKind::PermissionDenied));
    assert_eq!(exist_then(denied).unwrap_err().kind(), std::io::ErrorKind::PermissionDenied);
    assert_eq!(exist_then(Ok::<u32, std::io::Error>(7)).unwrap(), 7);
}
