use readymade::albius::{DiskOperationType, Param};
use readymade::disks::{
    _get_disk_partns_disksize, chromebook_clean_install, clean_install, dual_boot, dual_boot_target, is_valid_disk, make_disk_init, BlockFacts,
    LsblkOutput, OSProbe,
};

const LSBLK: &str = "PARTN PATH SIZE\n      /dev/sda 256060514304\n    1 /dev/sda1 629145600\n    2 /dev/sda2 1073741824\n    3 /dev/sda3 254356226048\n      /dev/sdb 1000\n";

fn facts() -> BlockFacts {
    BlockFacts {
        name: "sda".into(),
        fullname: "/dev/sda".into(),
        is_disk: true,
        is_physical: true,
        capacity: Some(Some(1000)),
        model: None,
        label: None,
        id: None,
    }
}

#[test]
fn os_prober_entries() {
    let p = OSProbe::from_entry("/dev/sda1:Windows 10:Windows:chain");
    assert_eq!(p.part, "/dev/sda1");
    assert_eq!(p.os_name_pretty, "Windows 10");
    assert!(OSProbe::scan(None).is_none());
    assert!(OSProbe::scan(Some("  \n ".into())).is_none());
    let v = OSProbe::scan(Some("/dev/sda1:Windows:Windows:chain\n\n  /dev/sdb2:Fedora:Fedora:linux  \n".into())).unwrap();
    assert_eq!(v.len(), 2);
    assert_eq!(v[1].part, "/dev/sdb2");
    assert_eq!(v[1].os_name_pretty, "Fedora");
}

#[test]
fn lsblk_match() {
    let o = LsblkOutput { path: "/dev/nvme0n1p2".into(), uuid: "u".into(), parttype: "t".into(), parttypename: "n".into() };
    assert!(o.match_device("nvme0n1"));
    assert!(!o.match_device("sda"));
}

#[test]
fn valid_disks() {
    let f = facts();
    assert!(is_valid_disk(None, &f, false));
    assert!(!is_valid_disk(Some("sda"), &f, false));
    let mut virt = facts();
    virt.is_physical = false;
    assert!(!is_valid_disk(None, &virt, false));
    assert!(is_valid_disk(None, &virt, true));
    let mut empty = facts();
    empty.capacity = Some(Some(0));
    assert!(!is_valid_disk(None, &empty, true));
    empty.capacity = None;
    assert!(!is_valid_disk(None, &empty, true));
}

#[test]
fn disk_init_names_and_size() {
    let mut f = facts();
    f.model = Some("  Samsung SSD \n".into());
    let probes = vec![("/dev/sdb1".to_owned(), "Other".to_owned()), ("/dev/sda2".to_owned(), "Windows".to_owned())];
    let d = make_disk_init(&probes, &f, "Unknown OS");
    assert_eq!(d.disk_name, "Samsung SSD (sda)");
    assert_eq!(d.os_name, "Windows");
    assert_eq!(d.devpath, "/dev/sda");
    assert_eq!(d.size, 500 * 1024);
    let mut g = facts();
    g.id = Some("ata-XYZ".into());
    assert_eq!(make_disk_init(&vec![], &g, "Unknown OS").disk_name, "ata-XYZ (sda)");
    assert_eq!(make_disk_init(&vec![], &facts(), "Unknown OS").disk_name, "sda");
    assert_eq!(make_disk_init(&vec![], &facts(), "Unknown OS").os_name, "Unknown OS");
}

#[test]
fn lsblk_partitions_and_size() {
    let (partns, size) = _get_disk_partns_disksize(LSBLK, "/dev/sda").unwrap();
    assert_eq!(partns, vec![1, 2, 3]);
    assert_eq!(size, 256060514304 / (1024 * 1024));
    let bad = "PARTN PATH SIZE\n /dev/sda big\n 1 /dev/sda1 5\n";
    assert_eq!(_get_disk_partns_disksize(bad, "/dev/sda"), Err("Cannot parse size".to_owned()));
    let missing = "PARTN PATH SIZE\n 1 /dev/sda1 1048576\n /dev/sdb 1048576\n";
    assert_eq!(
        _get_disk_partns_disksize(missing, "/dev/sda"),
        Err("Cannot find disk in lsblk output".to_owned())
    );
    let blank = "PARTN PATH SIZE\n /dev/sda 2097152\n";
    assert_eq!(_get_disk_partns_disksize(blank, "/dev/sda"), Ok((vec![], 2)));
    let badn = "PARTN PATH SIZE\n /dev/sda 1048576\n 1 /dev/sda1 1048576\n 300 /dev/sda2 5\n";
    assert_eq!(
        _get_disk_partns_disksize(badn, "/dev/sda"),
        Err("Cannot parse some partn values from lsblk".to_owned())
    );
}

fn num(p: &Param) -> u64 {
    match p {
        Param::Num(n) => *n,
        _ => panic!("not a number"),
    }
}

fn text(p: &Param) -> String {
    match p {
        Param::Str(s) => s.clone(),
        _ => panic!("not a string"),
    }
}

#[test]
fn clean_install_operations() {
    let ops = clean_install("/dev/sda", LSBLK).unwrap();
    assert_eq!(ops.len(), 7);
    assert_eq!(ops[0].operation, DiskOperationType::Rm);
    assert_eq!(text(&ops[0].params[0]), "1");
    assert_eq!(ops[3].operation, DiskOperationType::Label);
    assert_eq!(text(&ops[3].params[0]), "gpt");
    assert_eq!(text(&ops[4].params[0]), "EFI");
    assert_eq!((num(&ops[4].params[2]), num(&ops[4].params[3])), (1, 513));
    assert_eq!(text(&ops[5].params[1]), "xfs");
    assert_eq!((num(&ops[5].params[2]), num(&ops[5].params[3])), (513, 1537));
    assert_eq!(text(&ops[6].params[0]), "Ultramarine Linux");
    assert_eq!((num(&ops[6].params[2]), num(&ops[6].params[3])), (1537, 244197));
    assert!(ops.iter().all(|o| o.disk == "/dev/sda"));
}

#[test]
fn chromebook_install_operations() {
    let ops = chromebook_clean_install("/dev/sda", LSBLK).unwrap();
    assert_eq!(ops.len(), 7);
    assert_eq!(num(&ops[2].params[0]), 3);
    assert_eq!(text(&ops[4].params[0]), "Submarine");
    assert_eq!((num(&ops[4].params[2]), num(&ops[4].params[3])), (1, 17));
    assert_eq!(text(&ops[5].params[1]), "ext4");
    assert_eq!((num(&ops[6].params[2]), num(&ops[6].params[3])), (1041, 244197));
}

#[test]
fn dual_boot_shrinks_last_partition() {
    let out = "PARTN PATH SIZE\n      /dev/sda 256060514304\n    1 /dev/sda1 629145600\n    2 /dev/sda2 10737418240\n    1 /dev/sdb1 5\n";
    let t = dual_boot_target(out, "/dev/sda").unwrap();
    assert_eq!(t.partn, "2");
    assert_eq!(t.partpath, "/dev/sda2");
    assert_eq!(t.size_mib, 10240);
    assert_eq!(t.start_path, "/sys/block/sda/sda2/start");
    assert_eq!(t.disk_size_path, "/sys/block/sda/size");
    let ops = dual_boot("/dev/sda", &t, 5000, "1230848\n", "500118192\n").unwrap();
    assert_eq!(ops.len(), 3);
    assert_eq!(ops[0].operation, DiskOperationType::Resizepart);
    assert_eq!((text(&ops[0].params[0]), num(&ops[0].params[1])), ("2".to_owned(), 5000));
    assert_eq!(text(&ops[1].params[0]), "Boot");
    assert_eq!((num(&ops[1].params[1]), num(&ops[1].params[2])), (601 + 5000 + 1, 601 + 5000 + 1025));
    assert_eq!(text(&ops[2].params[0]), "Ultramarine Linux");
    assert_eq!(num(&ops[2].params[2]), 244198 - 1);
    let same = dual_boot("/dev/sda", &t, 10240, "2048", "4096").unwrap();
    assert_eq!(same.len(), 2);
    assert_eq!(dual_boot("/dev/sda", &t, 1, "x", "4096").unwrap_err(), "Cannot parse part start");
    assert_eq!(dual_boot("/dev/sda", &t, 1, "2048", "").unwrap_err(), "Cannot parse disk size");
    assert_eq!(dual_boot_target("PARTN PATH SIZE\n", "/dev/sda").unwrap_err(), "lsblk has no output");
}
