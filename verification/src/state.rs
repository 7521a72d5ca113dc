//! What the user chose, and the playbook an installation runs from it.
use crate::cfg::{copy_source_choice, CopyMode, ReadymadeConfig};
use crate::custom::{targets_view, MountTargets};
use crate::disks::DiskInit;
use crate::install::{cfgdir_spec, or_empty, EncryptState, InstallationType};
use crate::postinstall::Module;
use crate::text::{clone_strings, copy_vec, ostr, ostrs, owned, strs};
use vstd::prelude::*;

verus! {

/// What the user has chosen so far.
pub struct ApplicationState {
    pub destination_disk: Option<DiskInit>,
    pub encrypt: bool,
    pub encryption_key: Option<String>,
    pub tpm: bool,
    pub lang: Option<String>,
    pub installation_type: Option<InstallationType>,
}

/// How the disk is partitioned.
pub enum DiskProvisioner {
    /// The user's own partitions, mounted as given.
    Manual { mounts: MountTargets },
    /// `systemd-repart` with the definitions in `directory`.
    Repart { directory: String, copy_source: Option<String> },
}

/// How the file systems are filled.
pub enum FileSystemProvisioner {
    Bootc {
        imgref: String,
        target_imgref: Option<String>,
        enforce_sigpolicy: bool,
        kargs: Vec<String>,
        args: Vec<String>,
    },
    Copy { copy_source: String },
}

/// Everything an installation runs from.
pub struct Playbook {
    pub destination_disk: String,
    pub encryption: Option<EncryptState>,
    pub disk_provisioner: DiskProvisioner,
    pub filesystem_provisioner: Option<FileSystemProvisioner>,
    pub postinstall: Vec<Module>,
}

/// Why no playbook can be made.
#[derive(Debug, Clone, Copy, PartialEq, Eq, Structural)]
pub enum PlaybookError {
    NoDestinationDisk,
    NoInstallationType,
    DualBootUnsupported,
    NoPassphrase,
    NoMountTargets,
    NoBootcImage,
}

impl PlaybookError {
    /// The message of the error.
    pub fn message(&self) -> (r: &'static str)
        ensures
            r@ == playbook_error_text(*self),
    {
        match self {
            PlaybookError::NoDestinationDisk => "No destination disk selected",
            PlaybookError::NoInstallationType => "No installation type selected",
            PlaybookError::DualBootUnsupported => "Dual boot installation is not wired into the new playbook flow yet",
            PlaybookError::NoPassphrase => "Encryption was enabled but no passphrase was provided",
            PlaybookError::NoMountTargets => "Custom installation selected but no mount targets were configured",
            PlaybookError::NoBootcImage => "Bootc copy mode selected but no source image reference is configured",
        }
    }
}

/// The message of each error.
pub open spec fn playbook_error_text(e: PlaybookError) -> Seq<char> {
    match e {
        PlaybookError::NoDestinationDisk => "No destination disk selected"@,
        PlaybookError::NoInstallationType => "No installation type selected"@,
        PlaybookError::DualBootUnsupported => "Dual boot installation is not wired into the new playbook flow yet"@,
        PlaybookError::NoPassphrase => "Encryption was enabled but no passphrase was provided"@,
        PlaybookError::NoMountTargets => "Custom installation selected but no mount targets were configured"@,
        PlaybookError::NoBootcImage => "Bootc copy mode selected but no source image reference is configured"@,
    }
}

/// What the environment gives a playbook: the `COPY_SOURCE` and
/// `TARGET_COPY_SOURCE` variables, and the directory of the partition
/// definitions.
pub struct PlaybookEnv {
    pub env_copy_source: Option<String>,
    pub env_target_copy_source: Option<String>,
    pub repart_dir: String,
}

/// The image bootc installs from, as the configuration and environment give it.
pub open spec fn bootc_source(config: ReadymadeConfig, env: PlaybookEnv) -> Option<Seq<char>> {
    copy_source_choice(config.install.copy_mode, ostr(config.install.bootc_imgref), ostr(env.env_copy_source))
}

/// The error of the first check that fails, in the order the playbook
/// makes them, if any.
pub open spec fn playbook_error(
    s: ApplicationState,
    config: ReadymadeConfig,
    custom_mounts: Option<MountTargets>,
    env: PlaybookEnv,
) -> Option<PlaybookError> {
    if s.destination_disk is None {
        Some(PlaybookError::NoDestinationDisk)
    } else if s.installation_type is None {
        Some(PlaybookError::NoInstallationType)
    } else if s.installation_type.unwrap() is DualBoot {
        Some(PlaybookError::DualBootUnsupported)
    } else if s.encrypt && s.encryption_key is None {
        Some(PlaybookError::NoPassphrase)
    } else if s.installation_type == Some(InstallationType::Custom) && !(custom_mounts matches Some(m)
        && m.0@.len() > 0) {
        Some(PlaybookError::NoMountTargets)
    } else if config.install.copy_mode == CopyMode::Bootc && bootc_source(config, env) is None {
        Some(PlaybookError::NoBootcImage)
    } else {
        None
    }
}

impl ApplicationState {
    /// Whether making the playbook asks where the system is copied from:
    /// every check passes and the copy mode is repart.
    pub open spec fn needs_copy_source_spec(
        self,
        config: ReadymadeConfig,
        custom_mounts: Option<MountTargets>,
        env: PlaybookEnv,
    ) -> bool {
        playbook_error(self, config, custom_mounts, env) is None && config.install.copy_mode == CopyMode::Repart
    }

    /// Whether the copy source has to be found (and perhaps the live base
    /// mounted) before `to_playbook`.
    pub fn needs_copy_source(&self, config: &ReadymadeConfig, custom_mounts: &Option<MountTargets>, env: &PlaybookEnv) -> (r: bool)
        ensures
            r == self.needs_copy_source_spec(*config, *custom_mounts, *env),
    {
        self.check(config, custom_mounts, env).is_none() && config.install.copy_mode == CopyMode::Repart
    }

    fn check(&self, config: &ReadymadeConfig, custom_mounts: &Option<MountTargets>, env: &PlaybookEnv) -> (r: Option<PlaybookError>)
        ensures
            r == playbook_error(*self, *config, *custom_mounts, *env),
    {
        if self.destination_disk.is_none() {
            return Some(PlaybookError::NoDestinationDisk);
        }
        let t = match self.installation_type {
            None => {
                return Some(PlaybookError::NoInstallationType);
            },
            Some(t) => t,
        };
        if let InstallationType::DualBoot(_) = t {
            return Some(PlaybookError::DualBootUnsupported);
        }
        if self.encrypt && self.encryption_key.is_none() {
            return Some(PlaybookError::NoPassphrase);
        }
        if t == InstallationType::Custom {
            let has_mounts = match custom_mounts {
                Some(m) => m.0.len() > 0,
                None => false,
            };
            if !has_mounts {
                return Some(PlaybookError::NoMountTargets);
            }
        }
        if config.install.copy_mode == CopyMode::Bootc {
            let src = config.to_bootc_copy_source(crate::text::clone_opt_string(&env.env_copy_source));
            if src.is_none() {
                return Some(PlaybookError::NoBootcImage);
            }
        }
        None
    }

    /// The playbook of the installation the user chose. `copy_source` is where
    /// the system is copied from, found beforehand when `needs_copy_source`.
    pub fn to_playbook(
        &self,
        config: &ReadymadeConfig,
        custom_mounts: Option<MountTargets>,
        env: &PlaybookEnv,
        copy_source: Option<String>,
    ) -> (r: Result<Playbook, PlaybookError>)
        requires
            self.needs_copy_source_spec(*config, custom_mounts, *env) ==> copy_source is Some,
        ensures
            match playbook_error(*self, *config, custom_mounts, *env) {
                Some(e) => r == Err::<Playbook, PlaybookError>(e),
                None => r matches Ok(p) && playbook_ok(*self, *config, custom_mounts, *env, ostr(copy_source), p),
            },
    {
        if let Some(e) = self.check(config, &custom_mounts, env) {
            return Err(e);
        }
        let disk = self.destination_disk.as_ref().unwrap().devpath.clone();
        let t = self.installation_type.unwrap();
        let encryption = if self.encrypt {
            Some(EncryptState { tpm: self.tpm, encryption_key: self.encryption_key.as_ref().unwrap().clone() })
        } else {
            None
        };
        let bootc = config.install.copy_mode == CopyMode::Bootc;
        let fs_bootc = if bootc {
            let imgref = config.to_bootc_copy_source(crate::text::clone_opt_string(&env.env_copy_source)).unwrap();
            Some(
                FileSystemProvisioner::Bootc {
                    imgref,
                    target_imgref: config.to_bootc_target_copy_source(
                        crate::text::clone_opt_string(&env.env_target_copy_source),
                    ),
                    enforce_sigpolicy: config.install.bootc_enforce_sigpolicy,
                    kargs: strings_or_empty(&config.install.bootc_kargs),
                    args: strings_or_empty(&config.install.bootc_args),
                },
            )
        } else {
            None
        };
        let (dp, fsp) = if t == InstallationType::Custom {
            let mounts = custom_mounts.unwrap();
            let fsp = if bootc {
                fs_bootc
            } else {
                Some(FileSystemProvisioner::Copy { copy_source: copy_source.unwrap() })
            };
            (DiskProvisioner::Manual { mounts }, fsp)
        } else if bootc {
            (DiskProvisioner::Repart { directory: t.cfgdir(true, env.repart_dir.as_str()), copy_source: None }, fs_bootc)
        } else {
            (
                DiskProvisioner::Repart {
                    directory: t.cfgdir(false, env.repart_dir.as_str()),
                    copy_source: Some(copy_source.unwrap()),
                },
                None,
            )
        };
        Ok(
            Playbook {
                destination_disk: disk,
                encryption,
                disk_provisioner: dp,
                filesystem_provisioner: fsp,
                postinstall: copy_vec(&config.postinstall),
            },
        )
    }
}

fn strings_or_empty(o: &Option<Vec<String>>) -> (r: Vec<String>)
    ensures
        strs(r@) == or_empty(ostrs(*o)),
{
    match o {
        Some(v) => clone_strings(v),
        None => {
            let r: Vec<String> = Vec::new();
            proof {
                assert(strs(r@) =~= Seq::<Seq<char>>::empty());
            }
            r
        },
    }
}

/// The bootc provisioner the configuration asks for.
pub open spec fn bootc_fs_ok(config: ReadymadeConfig, env: PlaybookEnv, f: FileSystemProvisioner) -> bool {
    f matches FileSystemProvisioner::Bootc { imgref, target_imgref, enforce_sigpolicy, kargs, args }
        && Some(imgref@) == bootc_source(config, env) && ostr(target_imgref) == copy_source_choice(
        config.install.copy_mode,
        ostr(config.install.bootc_target_imgref),
        ostr(env.env_target_copy_source),
    ) && enforce_sigpolicy == config.install.bootc_enforce_sigpolicy && strs(kargs@) == or_empty(
        ostrs(config.install.bootc_kargs),
    ) && strs(args@) == or_empty(ostrs(config.install.bootc_args))
}

/// A playbook made from the choices when every check passes: the disk, the
/// encryption asked for, the provisioners of the installation type and copy
/// mode, and the configured modules.
pub open spec fn playbook_ok(
    s: ApplicationState,
    config: ReadymadeConfig,
    custom_mounts: Option<MountTargets>,
    env: PlaybookEnv,
    copy_source: Option<Seq<char>>,
    p: Playbook,
) -> bool {
    let t = s.installation_type.unwrap();
    let bootc = config.install.copy_mode == CopyMode::Bootc;
    &&& p.destination_disk@ == s.destination_disk.unwrap().devpath@
    &&& (p.encryption is Some <==> s.encrypt)
    &&& p.encryption is Some ==> p.encryption->0.tpm == s.tpm && Some(p.encryption->0.encryption_key@)
        == ostr(s.encryption_key)
    &&& p.postinstall@ == config.postinstall@
    &&& if t == InstallationType::Custom {
        &&& p.disk_provisioner matches DiskProvisioner::Manual { mounts } && targets_view(mounts.0@)
            == targets_view(custom_mounts.unwrap().0@)
        &&& if bootc {
            p.filesystem_provisioner matches Some(f) && bootc_fs_ok(config, env, f)
        } else {
            p.filesystem_provisioner matches Some(FileSystemProvisioner::Copy { copy_source: c }) && Some(c@)
                == copy_source
        }
    } else if bootc {
        &&& p.disk_provisioner matches DiskProvisioner::Repart { directory, copy_source: c } && directory@
            == cfgdir_spec(t, true, env.repart_dir@) && c is None
        &&& p.filesystem_provisioner matches Some(f) && bootc_fs_ok(config, env, f)
    } else {
        &&& p.disk_provisioner matches DiskProvisioner::Repart { directory, copy_source: c } && directory@
            == cfgdir_spec(t, false, env.repart_dir@) && ostr(c) == copy_source
        &&& p.filesystem_provisioner is None
    }
}

} // verus!
