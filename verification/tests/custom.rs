use readymade::custom::{MountTarget, MountTargets};

fn t(mp: &str, part: &str) -> MountTarget {
    MountTarget { index: 0, partition: part.into(), mountpoint: mp.into(), options: String::new() }
}

#[test]
fn sort_mounts_root_first_then_depth() {
    let mut m = MountTargets(vec![t("/home/user", "a"), t("/boot/efi", "b"), t("/", "c"), t("/boot", "d"), t("/var", "e")]);
    m.sort_mounts();
    let order: Vec<&str> = m.0.iter().map(|x| x.mountpoint.as_str()).collect();
    assert_eq!(order, vec!["/", "/boot", "/var", "/boot/efi", "/home/user"]);
}

#[test]
fn partitions_by_mount_point() {
    let m = MountTargets(vec![t("/boot/efi/", "/dev/sda1"), t("/boot", "/dev/sda2"), t("/", "/dev/sda3")]);
    assert_eq!(m.efi_partition().as_deref(), Some("/dev/sda1"));
    assert_eq!(m.xbootldr_partition(), Ok("/dev/sda2".to_owned()));
    let none = MountTargets(vec![t("/", "/dev/sda3")]);
    assert_eq!(none.xbootldr_partition(), Err("cannot find xbootldr partition".to_owned()));
    assert_eq!(none.partition_for("/boot/efi"), None);
}

#[test]
fn row_labels() {
    let mut x = t("/home", "/dev/sdb1");
    assert_eq!(x.label(), "/home ← /dev/sdb1");
    x.options = "noatime".into();
    assert_eq!(x.label(), "/home ← /dev/sdb1 [noatime]");
}

#[test]
fn sort_mounts_keeps_order_of_same_mount_point() {
    let mut m = MountTargets(vec![t("/var", "x"), t("/", "c"), t("/var", "y"), t("/var", "z")]);
    m.sort_mounts();
    let parts: Vec<&str> = m.0.iter().map(|x| x.partition.as_str()).collect();
    assert_eq!(parts, vec!["c", "x", "y", "z"]);
}
