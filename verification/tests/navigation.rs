use readymade::install::InstallationType;
use readymade::l10n::{locale_language_part, pick_languages};
use readymade::navigation::{
    after_installation, env_args_valid, env_assignments, is_non_interactive, log_file_name, AppAction, AppModel,
    AppMsg, NavigationAction, Page,
};
use readymade::postinstall::{Drivers, NvidiaPlan, Script};
use readymade::repart_output::{luks_open_args, mapper_path};

fn strings(v: &[&str]) -> Vec<String> {
    v.iter().map(|s| s.to_string()).collect()
}

#[test]
fn window_navigation() {
    let mut m = AppModel { page: Page::Welcome };
    match m.update(AppMsg::Navigate(NavigationAction::GoTo(Page::Destination)), None) {
        AppAction::Show(p) => assert_eq!(p, Page::Destination),
        _ => panic!("expected to show a page"),
    }
    assert_eq!(m.page, Page::Destination);
    match m.update(AppMsg::StartInstallation, Some(InstallationType::Custom)) {
        AppAction::StartInstallation { use_custom_mounts } => assert!(use_custom_mounts),
        _ => panic!("expected to start"),
    }
    match m.update(AppMsg::StartInstallation, Some(InstallationType::WholeDisk)) {
        AppAction::StartInstallation { use_custom_mounts } => assert!(!use_custom_mounts),
        _ => panic!("expected to start"),
    }
    assert!(matches!(m.update(AppMsg::Navigate(NavigationAction::Quit), None), AppAction::Exit));
    match m.update(AppMsg::SendErr("boom".into()), None) {
        AppAction::ReportError(e) => assert_eq!(e, "boom"),
        _ => panic!("expected an error"),
    }
    assert_eq!(after_installation(Ok(())), (None, Page::Completed));
    assert_eq!(after_installation(Err("x".into())), (Some("x".to_owned()), Page::Failure));
}

#[test]
fn command_line() {
    let args = strings(&["readymade", "READYMADE_LOG=debug", "--non-interactive", "REPART_COPY_SOURCE=/src", "OTHER=1"]);
    assert!(env_args_valid(&args));
    assert_eq!(
        env_assignments(&args),
        vec![("READYMADE_LOG".to_owned(), "debug".to_owned()), ("REPART_COPY_SOURCE".to_owned(), "/src".to_owned())]
    );
    assert!(is_non_interactive(&args));
    assert!(!is_non_interactive(&strings(&["readymade"])));
    assert!(!env_args_valid(&strings(&["NO_COLOR"])));
    assert_eq!(log_file_name(true), "readymade-non-interactive.log");
    assert_eq!(log_file_name(false), "readymade.log");
}

#[test]
fn post_install_plans() {
    let etc = Some(vec![
        ("/etc/readymade/postinstall.d/a.sh".to_owned(), true, 0o755u32),
        ("/etc/readymade/postinstall.d/readme".to_owned(), true, 0o644u32),
        ("/etc/readymade/postinstall.d/dir".to_owned(), false, 0o755u32),
    ]);
    assert_eq!(
        Script::plan(true, false, &etc, &None),
        vec!["/etc/readymade/postinstall.sh", "/etc/readymade/postinstall.d/a.sh"]
    );
    assert!(Script::plan(false, false, &None, &None).is_empty());
    assert!(Drivers::is_primary_gpu(Some("1")));
    assert!(!Drivers::is_primary_gpu(Some("0")));
    assert!(!Drivers::is_primary_gpu(None));
    assert_eq!(Drivers::nvidia_plan(false, true, true), NvidiaPlan::Skip);
    assert_eq!(Drivers::nvidia_plan(true, true, true), NvidiaPlan::Ostree);
    assert_eq!(Drivers::nvidia_plan(true, false, true), NvidiaPlan::Dnf { set_primary: true });
    assert_eq!(
        Drivers::dnf_install_args(&strings(&["akmod-nvidia"])),
        vec!["in", "-y", "--allowerasing", "--best", "akmod-nvidia"]
    );
    assert_eq!(Drivers::ostree_kargs_args(&vec![]).len(), 5);
    assert_eq!(
        Drivers::broadcom_installs(true, true),
        vec![strings(&["in", "-y", "broadcom-wl", "akmod-wl"]), strings(&["in", "-y", "broadcom-bt-firmware"])]
    );
    assert!(Drivers::broadcom_installs(false, false).is_empty());
}

#[test]
fn languages_and_luks() {
    assert_eq!(locale_language_part("en_US.UTF-8"), "en_US");
    assert_eq!(locale_language_part("C"), "C");
    let avail = strings(&["en-US", "de"]);
    assert_eq!(pick_languages(&strings(&["fr", "de", "en-US"]), &avail, "en-US"), vec!["de", "en-US"]);
    assert_eq!(pick_languages(&strings(&["fr"]), &avail, "en-US"), vec!["en-US"]);
    assert_eq!(
        luks_open_args("/dev/sda3", "root", "/tmp/k"),
        vec!["open", "/dev/sda3", "root", "--batch-mode", "--key-file", "/tmp/k"]
    );
    assert_eq!(mapper_path("root"), "/dev/mapper/root");
}
