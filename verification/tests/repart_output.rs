use readymade::repart_output::{
    config_uses_tpm,
    generate_unique_mapper_label, FstabItem, LuksPartition, MapperCache, RepartOutput, RepartPartition,
};
use readymade::repartcfg::FileSystem;

fn partition_fixture() -> RepartPartition {
    RepartPartition {
        part_type: "root-x86-64".to_owned(),
        label: "root-x86-64".to_owned(),
        uuid: "00000000-0000-0000-0000-000000000000".to_owned(),
        partno: 1,
        file: "templates/wholedisk/50-root.conf".to_owned(),
        ..Default::default()
    }
}

fn part(part_type: &str, node: &str) -> RepartPartition {
    RepartPartition { part_type: part_type.to_owned(), node: node.to_owned(), ..Default::default() }
}

#[test]
fn test_ddi_mountpoint() {
    let part = partition_fixture();
    assert_eq!(part.ddi_mountpoint(), Some("/"));
}

#[test]
fn ddi_mountpoints_of_types() {
    assert_eq!(part("esp", "/dev/sda1").ddi_mountpoint(), Some("/boot/efi"));
    assert_eq!(part("xbootldr", "/dev/sda2").ddi_mountpoint(), Some("/boot"));
    assert_eq!(part("home", "/dev/sda4").ddi_mountpoint(), None);
}

#[test]
fn mountpoints_esp_xbootldr() {
    let out = RepartOutput {
        partitions: vec![part("esp", "/dev/sda1"), part("xbootldr", "/dev/sda2"), part("root-x86-64", "/dev/sda3"), part("swap", "/dev/sda4")],
    };
    assert_eq!(
        out.mountpoints(),
        vec![("/boot/efi", "/dev/sda1".to_owned()), ("/boot", "/dev/sda2".to_owned()), ("/", "/dev/sda3".to_owned())]
    );
    assert_eq!(out.get_esp_partition(), Some("/dev/sda1".to_owned()));
    assert_eq!(out.get_xbootldr_partition(), Some("/dev/sda2".to_owned()));
    let none = RepartOutput { partitions: vec![part("root-x86-64", "/dev/sda3")] };
    assert_eq!(none.get_esp_partition(), None);
    assert_eq!(none.get_xbootldr_partition(), None);
}

#[test]
fn root_fstab_entry() {
    let p = partition_fixture();
    let line = p.fstab_entry(("/".to_owned(), None), Some(FileSystem::Btrfs), None);
    assert!(line.contains('/'));
    assert_eq!(line, "PARTUUID=00000000-0000-0000-0000-000000000000\t/\tbtrfs\tdefaults\t0\t0");
    let enc = p.fstab_entry(("/home".to_owned(), Some("noatime".to_owned())), Some(FileSystem::Ext4), Some("abcd".to_owned()));
    assert_eq!(enc, "UUID=abcd\t/home\text4\tnoatime\t0\t2");
    let root_ext4 = p.fstab_entry(("/".to_owned(), Some(String::new())), Some(FileSystem::Ext4), None);
    assert!(root_ext4.ends_with("\tdefaults\t0\t1"));
}

#[test]
fn fstab_sorted_root_first() {
    let items = vec![
        FstabItem { mntpoint: "/boot/efi".into(), options: None, source: "UUID=C".into(), fs: Some(FileSystem::Vfat) },
        FstabItem { mntpoint: "/boot".into(), options: None, source: "UUID=B".into(), fs: Some(FileSystem::Xfs) },
        FstabItem { mntpoint: "/".into(), options: None, source: "UUID=A".into(), fs: None },
    ];
    let fstab = RepartOutput::generate_fstab(items);
    assert_eq!(
        fstab,
        "UUID=A\t/\tnull\tdefaults\t0\t1\nUUID=B\t/boot\txfs\tdefaults\t0\t0\nUUID=C\t/boot/efi\tvfat\tdefaults\t0\t2\n"
    );
}

#[test]
fn cryptdata_for_luks_partitions() {
    assert!(RepartOutput::generate_cryptdata(&vec![]).is_none());
    let luks = vec![
        LuksPartition { label: "root".into(), uuid: "1111".into(), tpm: false },
        LuksPartition { label: "home".into(), uuid: "2222".into(), tpm: true },
    ];
    let d = RepartOutput::generate_cryptdata(&luks).unwrap();
    assert_eq!(
        d.crypttab,
        "root\tUUID=1111\tnone\tluks,discard\nhome\tUUID=2222\tnone\ttpm2-device=auto,luks,discard\n"
    );
    assert_eq!(
        d.cmdline_opts,
        vec!["rd.luks.name=1111=root", "rd.luks.name=2222=home", "rd.luks.options=tpm2-device=auto"]
    );
    assert!(d.tpm);
}

#[test]
fn mapper_labels() {
    assert_eq!(generate_unique_mapper_label("/", &vec![]), "root");
    assert_eq!(generate_unique_mapper_label("/var/log", &vec![]), "var-log");
    let taken = vec!["home".to_owned(), "home-1".to_owned()];
    assert_eq!(generate_unique_mapper_label("/home", &taken), "home-2");
}

#[test]
fn mapper_cache_insert_get_clear() {
    let mut c = MapperCache::new();
    assert_eq!(c.get("/dev/sda3"), None);
    c.insert("/dev/sda3".to_owned(), "/dev/mapper/root".to_owned());
    c.insert("/dev/sda4".to_owned(), "/dev/mapper/home".to_owned());
    c.insert("/dev/sda3".to_owned(), "/dev/mapper/root-1".to_owned());
    assert_eq!(c.get("/dev/sda3").map(String::as_str), Some("/dev/mapper/root-1"));
    let mut drained = c.clear();
    drained.sort();
    assert_eq!(drained.len(), 2);
    assert_eq!(c.get("/dev/sda4"), None);
}

#[test]
fn test_mountpoints() {
    let output = RepartOutput {
        partitions: vec![part("esp", "/dev/sda1"), part("xbootldr", "/dev/sda3"), part("root-x86-64", "/dev/sda4")],
    };
    let mountpoints = output.mountpoints().into_iter().collect::<std::collections::BTreeMap<_, _>>();
    assert_eq!(mountpoints.len(), 3);
    assert!(mountpoints.contains_key("/"));
}

#[test]
fn fstab_keeps_order_of_same_mount_point() {
    let items = vec![
        FstabItem { mntpoint: "/data".into(), options: None, source: "UUID=2".into(), fs: None },
        FstabItem { mntpoint: "/".into(), options: None, source: "UUID=0".into(), fs: None },
        FstabItem { mntpoint: "/data".into(), options: None, source: "UUID=1".into(), fs: None },
    ];
    let fstab = RepartOutput::generate_fstab(items);
    let sources: Vec<&str> = fstab.lines().map(|l| l.split('\t').next().unwrap()).collect();
    assert_eq!(sources, vec!["UUID=0", "UUID=2", "UUID=1"]);
}

#[test]
fn partition_definition_tpm() {
    assert_eq!(config_uses_tpm("[Partition]\nType=root\nEncrypt=key-file+tpm2\n"), Ok(true));
    assert_eq!(config_uses_tpm("[Partition]\nEncrypt=tpm2\n"), Ok(true));
    assert_eq!(config_uses_tpm("[Partition]\nEncrypt=key-file\n"), Ok(false));
    assert_eq!(config_uses_tpm("[Partition]\nType=root\n"), Ok(false));
    assert_eq!(config_uses_tpm("[Partition]\nEncrypt=maybe\n"), Err("unknown Encrypt= value".to_owned()));
    assert_eq!(config_uses_tpm("Encrypt=tpm2\n"), Err("cannot parse the partition definition".to_owned()));
}
