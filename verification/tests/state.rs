use readymade::albius::{Param, PostInstallationOperation};
use readymade::cfg::{Bento, CopyMode, Distro, Install, ReadymadeConfig};
use readymade::custom::{MountTarget, MountTargets};
use readymade::disks::DiskInit;
use readymade::install::InstallationType;
use readymade::setup::User;
use readymade::state::{
    ApplicationState, DiskProvisioner, FileSystemProvisioner, PlaybookEnv, PlaybookError,
};

fn bento() -> Bento {
    Bento { title: "t".into(), desc: "d".into(), link: "l".into(), icon: "i".into() }
}

fn config(copy_mode: CopyMode, imgref: Option<&str>) -> ReadymadeConfig {
    ReadymadeConfig {
        no_langpage: false,
        distro: Distro { name: "Ultramarine Linux".into(), icon: "fedora-logo-icon".into() },
        install: Install {
            allowed_installtypes: vec![],
            copy_mode,
            bootc_imgref: imgref.map(str::to_owned),
            bootc_target_imgref: None,
            bootc_enforce_sigpolicy: false,
            bootc_kargs: None,
            bootc_args: Some(vec!["--x".into()]),
        },
        postinstall: vec![],
        bentos: [bento(), bento(), bento()],
    }
}

fn env() -> PlaybookEnv {
    PlaybookEnv { env_copy_source: None, env_target_copy_source: None, repart_dir: "/cfgs/".into() }
}

fn app(t: Option<InstallationType>) -> ApplicationState {
    ApplicationState {
        destination_disk: Some(DiskInit { disk_name: "d".into(), os_name: "o".into(), devpath: "/dev/vda".into(), size: 1 }),
        encrypt: false,
        encryption_key: None,
        tpm: false,
        lang: None,
        installation_type: t,
    }
}

#[test]
fn playbook_errors_in_order() {
    let cfg = config(CopyMode::Repart, None);
    let mut s = app(None);
    assert_eq!(s.to_playbook(&cfg, None, &env(), None).err(), Some(PlaybookError::NoInstallationType));
    s.destination_disk = None;
    assert_eq!(s.to_playbook(&cfg, None, &env(), None).err(), Some(PlaybookError::NoDestinationDisk));
    let s = app(Some(InstallationType::DualBoot(10)));
    assert_eq!(s.to_playbook(&cfg, None, &env(), None).err(), Some(PlaybookError::DualBootUnsupported));
    let mut s = app(Some(InstallationType::WholeDisk));
    s.encrypt = true;
    assert_eq!(s.to_playbook(&cfg, None, &env(), None).err(), Some(PlaybookError::NoPassphrase));
    let s = app(Some(InstallationType::Custom));
    assert_eq!(s.to_playbook(&cfg, Some(MountTargets(vec![])), &env(), None).err(), Some(PlaybookError::NoMountTargets));
    let s = app(Some(InstallationType::WholeDisk));
    let bootc = config(CopyMode::Bootc, None);
    assert_eq!(s.to_playbook(&bootc, None, &env(), None).err(), Some(PlaybookError::NoBootcImage));
    assert_eq!(PlaybookError::NoBootcImage.message(), "Bootc copy mode selected but no source image reference is configured");
}

#[test]
fn playbook_whole_disk_repart() {
    let cfg = config(CopyMode::Repart, None);
    let s = app(Some(InstallationType::WholeDisk));
    assert!(s.needs_copy_source(&cfg, &None, &env()));
    let p = match s.to_playbook(&cfg, None, &env(), Some("/run/rootfsbase".into())) {
        Ok(p) => p,
        Err(e) => panic!("{}", e.message()),
    };
    assert_eq!(p.destination_disk, "/dev/vda");
    match p.disk_provisioner {
        DiskProvisioner::Repart { directory, copy_source } => {
            assert_eq!(directory, "/cfgs/wholedisk");
            assert_eq!(copy_source.as_deref(), Some("/run/rootfsbase"));
        }
        DiskProvisioner::Manual { .. } => panic!("expected repart"),
    }
    assert!(p.filesystem_provisioner.is_none());
}

#[test]
fn playbook_custom_bootc() {
    let cfg = config(CopyMode::Bootc, Some("quay.io/x:1"));
    let mut s = app(Some(InstallationType::Custom));
    s.encrypt = true;
    s.encryption_key = Some("k".into());
    let mounts = MountTargets(vec![MountTarget { index: 0, partition: "/dev/vda2".into(), mountpoint: "/".into(), options: String::new() }]);
    assert!(!s.needs_copy_source(&cfg, &Some(MountTargets(vec![])), &env()));
    let p = match s.to_playbook(&cfg, Some(mounts), &env(), None) {
        Ok(p) => p,
        Err(e) => panic!("{}", e.message()),
    };
    assert_eq!(p.encryption.as_ref().unwrap().encryption_key, "k");
    match p.disk_provisioner {
        DiskProvisioner::Manual { mounts } => assert_eq!(mounts.0.len(), 1),
        DiskProvisioner::Repart { .. } => panic!("expected manual"),
    }
    match p.filesystem_provisioner {
        Some(FileSystemProvisioner::Bootc { imgref, args, kargs, .. }) => {
            assert_eq!(imgref, "quay.io/x:1");
            assert_eq!(args, vec!["--x"]);
            assert!(kargs.is_empty());
        }
        _ => panic!("expected bootc"),
    }
}

#[test]
fn user_becomes_adduser() {
    let u = User { username: "ada".into(), display_name: "Ada".into(), groups: vec!["wheel".into()], password: Some("pw".into()) };
    let p = u.into_post_installation();
    assert!(p.chroot);
    assert_eq!(p.operation, PostInstallationOperation::Adduser);
    assert_eq!(p.params.len(), 4);
    match &p.params[2] {
        Param::Strs(g) => assert_eq!(g, &vec!["wheel".to_owned()]),
        _ => panic!("groups are a list"),
    }
    let u2 = User { username: "b".into(), display_name: "B".into(), groups: vec![], password: None };
    assert_eq!(u2.into_post_installation().params.len(), 3);
}
