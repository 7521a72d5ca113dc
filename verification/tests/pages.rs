use readymade::confirmation::{
    ConfirmationAction, ConfirmationEvent, ConfirmationFlow, Problem, Warning,
};
use readymade::custom::{MountTarget, MountTargets};
use readymade::install::InstallationType;
use readymade::installcustom::{AddDialog, AddDialogMsg, ChooseMountMsg, ChooseMountOutput, PartitionType};
use readymade::l10n::{city_label, list_langs, list_regions, RegionChoice, TimezoneGroups};

fn target(index: usize, part: &str, mp: &str) -> MountTarget {
    MountTarget { index, partition: part.into(), mountpoint: mp.into(), options: String::new() }
}

#[test]
fn timezones_grouped_by_region() {
    let tzs: Vec<String> =
        ["Europe/Berlin", "UTC", "America/New_York", "Europe/Paris", "America/Argentina/Buenos_Aires"]
            .iter()
            .map(|s| s.to_string())
            .collect();
    let g = TimezoneGroups::group_checked(&tzs);
    assert_eq!(g.regions, vec!["Europe", "UTC", "America"]);
    assert_eq!(g.timezones.len(), 2);
    assert_eq!(g.timezones[0].1, vec!["Europe/Berlin", "Europe/Paris"]);
    match g.select_region("America") {
        RegionChoice::Cities(c) => assert_eq!(c, vec!["New York", "Argentina/Buenos Aires"]),
        RegionChoice::Timezone(_) => panic!("America has cities"),
    }
    match g.select_region("UTC") {
        RegionChoice::Timezone(t) => assert_eq!(t, "UTC"),
        RegionChoice::Cities(_) => panic!("UTC is a zone"),
    }
    assert_eq!(g.city_timezone("Europe", 1).as_deref(), Some("Europe/Paris"));
    assert_eq!(g.city_timezone("Europe", 2), None);
    assert_eq!(city_label("America/Port_of_Spain"), "Port of Spain");
}

#[test]
fn locales_without_names_dropped() {
    let named = vec![
        ("en_US.UTF-8".to_owned(), Some("United States".to_owned())),
        ("xx_XX".to_owned(), None),
        ("de_DE.UTF-8".to_owned(), Some("Germany".to_owned())),
    ];
    let r = list_regions(named.clone());
    assert_eq!(r, vec![("en_US.UTF-8".to_owned(), "United States".to_owned()), ("de_DE.UTF-8".to_owned(), "Germany".to_owned())]);
    assert_eq!(list_langs(named).len(), 2);
}

#[test]
fn rows_of_the_custom_page() {
    let mut t = target(3, "/dev/sda2", "/");
    assert_eq!(t.on_message(ChooseMountMsg::Edit), Some(ChooseMountOutput::Edit(3)));
    assert_eq!(t.on_message(ChooseMountMsg::Remove), Some(ChooseMountOutput::Remove(3)));
    assert_eq!(t.on_message(ChooseMountMsg::Removed(1)), None);
    assert_eq!(t.index, 2);
    assert_eq!(t.on_message(ChooseMountMsg::Removed(5)), None);
    assert_eq!(t.index, 2);

    let mut rows = MountTargets(vec![target(0, "/dev/sda1", "/boot/efi"), target(1, "/dev/sda2", "/"), target(2, "/dev/sda3", "/home")]);
    rows.update_row(target(1, "/dev/sda4", "/"));
    assert_eq!(rows.0[1].partition, "/dev/sda4");
    rows.update_row(target(7, "/dev/sda5", "/var"));
    assert_eq!(rows.0.len(), 4);
    rows.remove_row(0);
    assert_eq!(rows.0.len(), 3);
    assert_eq!(rows.0[0].partition, "/dev/sda4");
    assert_eq!(rows.0[0].index, 0);
    assert_eq!(rows.0[1].index, 1);
    assert_eq!(rows.0[2].index, 6);
}

#[test]
fn add_dialog() {
    let mut d = AddDialog::new_row(2);
    assert_eq!(d.mountpoint, "/");
    assert!(!d.can_confirm());
    d.update(AddDialogMsg::ChangedPart("/dev/sdb1".into()));
    d.update(AddDialogMsg::SelectMnptType(PartitionType::Esp));
    d.update(AddDialogMsg::ChangedOpts("umask=0077".into()));
    assert!(d.can_confirm());
    let t = d.to_target();
    assert_eq!((t.index, t.partition.as_str(), t.mountpoint.as_str(), t.options.as_str()), (2, "/dev/sdb1", "/boot/efi", "umask=0077"));
    let back = AddDialog::from_target(&t);
    assert_eq!(back.mountopts, "umask=0077");
    let all = PartitionType::all();
    let paths: Vec<&str> = all.iter().map(|p| p.as_str()).collect();
    assert_eq!(paths, vec!["/", "/boot", "/boot/efi", "/home", "/var", ""]);
    assert!(all[5].is_other());
    assert!(PartitionType::default_type().as_str() == "/");
}

#[test]
fn disk_in_use_problems() {
    let mounts = vec![("/dev/sdb1".to_owned(), "/mnt".to_owned()), ("/dev/sda2".to_owned(), "/run/media/x".to_owned())];
    match Problem::detect(Some("/dev/sda"), &mounts, None) {
        Some(Problem::DeviceMounted(d, m)) => assert_eq!((d.as_str(), m.as_str()), ("/dev/sda2", "/run/media/x")),
        _ => panic!("expected a mounted device"),
    }
    assert!(Problem::detect(None, &mounts, Some(vec![1])).is_none());
    let fds = vec![
        ("123".to_owned(), "/dev/sdc".to_owned(), true),
        ("45".to_owned(), "/dev/sdc1".to_owned(), true),
        ("self".to_owned(), "/dev/sdc".to_owned(), true),
        ("77".to_owned(), "/dev/sdc".to_owned(), false),
    ];
    let pids = Problem::open_block_devices("/dev/sdc", &fds);
    assert_eq!(pids, vec![123, 45]);
    match Problem::detect(Some("/dev/sdc"), &mounts, Some(pids)) {
        Some(p @ Problem::DevBlkOpen(..)) => {
            let (key, args) = p.msg_args();
            assert_eq!(key, "page-confirmation-problem-devblkopen");
            assert_eq!(args[1], ("pids".to_owned(), "123, 45".to_owned()));
        }
        _ => panic!("expected open block devices"),
    }
    assert!(Problem::detect(Some("/dev/sdc"), &mounts, Some(vec![])).is_none());
}

#[test]
fn warnings_before_installing() {
    assert_eq!(Warning::list(true, InstallationType::WholeDisk), vec![Warning::EfiPartFound]);
    assert!(Warning::list(true, InstallationType::Custom).is_empty());
    assert!(Warning::efi_part_found(false, InstallationType::WholeDisk).is_none());
    let mut flow = ConfirmationFlow::new();
    let w = Warning::list(true, InstallationType::WholeDisk);
    assert_eq!(flow.on_event(ConfirmationEvent::StartInstallation(w.clone()), true), ConfirmationAction::ShowWarning(Warning::EfiPartFound));
    assert_eq!(flow.on_event(ConfirmationEvent::WarnConfirm, true), ConfirmationAction::Start);
    assert_eq!(flow.on_event(ConfirmationEvent::StartInstallation(w.clone()), true), ConfirmationAction::ShowWarning(Warning::EfiPartFound));
    assert_eq!(flow.on_event(ConfirmationEvent::WarnCancel, true), ConfirmationAction::Stay);
    assert_eq!(flow.on_event(ConfirmationEvent::StartInstallation(w), false), ConfirmationAction::Start);
    assert_eq!(flow.on_event(ConfirmationEvent::StartInstallation(vec![]), true), ConfirmationAction::Start);
}

#[test]
fn known_timezones_grouped() {
    let (tzs, g) = TimezoneGroups::of_known_timezones();
    assert_eq!(tzs.len(), 597);
    let distinct: std::collections::BTreeSet<&String> = tzs.iter().collect();
    assert_eq!(distinct.len(), 597);
    assert!(tzs.iter().any(|t| t == "UTC"));
    assert!(tzs.iter().any(|t| t == "Europe/Berlin"));
    assert!(g.regions.iter().any(|r| r == "Europe"));
    assert!(g.regions.iter().any(|r| r == "UTC"));
    match g.select_region("Europe") {
        RegionChoice::Cities(c) => assert!(c.iter().any(|x| x == "Berlin")),
        RegionChoice::Timezone(_) => panic!("Europe has cities"),
    }
}

#[test]
fn locale_given_twice_keeps_last_name() {
    let named = vec![
        ("en_US.UTF-8".to_owned(), Some("America".to_owned())),
        ("de_DE.UTF-8".to_owned(), Some("Germany".to_owned())),
        ("en_US.UTF-8".to_owned(), Some("United States".to_owned())),
        ("de_DE.UTF-8".to_owned(), None),
    ];
    let r = list_regions(named);
    assert_eq!(r, vec![("en_US.UTF-8".to_owned(), "United States".to_owned()), ("de_DE.UTF-8".to_owned(), "Germany".to_owned())]);
}
