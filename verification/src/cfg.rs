//! The installer's configuration (what `/etc/readymade.toml` holds).
use crate::install::InstallationType;
use crate::postinstall::Module;
use crate::text::{clone_opt_string, clone_opt_strings, ostr, ostrs, owned};
use vstd::prelude::*;

verus! {

/// How the system is copied to the disk.
#[derive(Debug, Clone, Copy, PartialEq, Eq, Structural)]
pub enum CopyMode {
    Repart,
    Bootc,
}

impl Default for CopyMode {
    fn default() -> (r: Self)
        ensures
            r == CopyMode::Repart,
    {
        CopyMode::Repart
    }
}

/// The `[install]` table.
#[derive(Debug, Clone, PartialEq, Eq)]
pub struct Install {
    pub allowed_installtypes: Vec<InstallationType>,
    pub copy_mode: CopyMode,
    pub bootc_imgref: Option<String>,
    pub bootc_target_imgref: Option<String>,
    pub bootc_enforce_sigpolicy: bool,
    pub bootc_kargs: Option<Vec<String>>,
    pub bootc_args: Option<Vec<String>>,
}

/// The `[distro]` table.
#[derive(Debug, Clone, PartialEq, Eq)]
pub struct Distro {
    pub name: String,
    pub icon: String,
}

/// The icon of the distribution when the configuration names none.
pub fn _default_icon() -> (r: String)
    ensures
        r@ == "fedora-logo-icon"@,
{
    owned("fedora-logo-icon")
}

/// One card of the installation page.
#[derive(Debug, Clone, PartialEq, Eq)]
pub struct Bento {
    pub title: String,
    pub desc: String,
    pub link: String,
    pub icon: String,
}

/// The whole configuration.
#[derive(Debug, Clone, PartialEq, Eq)]
pub struct ReadymadeConfig {
    pub no_langpage: bool,
    pub distro: Distro,
    pub install: Install,
    pub postinstall: Vec<Module>,
    pub bentos: [Bento; 3],
}

/// The configured image when the copy mode is bootc, else what the environment
/// gives.
pub open spec fn copy_source_choice(
    mode: CopyMode,
    configured: Option<Seq<char>>,
    env: Option<Seq<char>>,
) -> Option<Seq<char>> {
    if mode == CopyMode::Bootc && configured is Some {
        configured
    } else {
        env
    }
}

impl ReadymadeConfig {
    /// The image bootc installs from: `install.bootc_imgref` in bootc mode,
    /// else the `COPY_SOURCE` environment variable (`env_copy_source`).
    pub fn to_bootc_copy_source(&self, env_copy_source: Option<String>) -> (r: Option<String>)
        ensures
            ostr(r) == copy_source_choice(
                self.install.copy_mode,
                ostr(self.install.bootc_imgref),
                ostr(env_copy_source),
            ),
    {
        let s = clone_opt_string(&self.install.bootc_imgref);
        if self.install.copy_mode == CopyMode::Bootc && s.is_some() {
            s
        } else {
            env_copy_source
        }
    }

    /// The image reference bootc records for updates: `install.bootc_target_imgref`
    /// in bootc mode, else the `TARGET_COPY_SOURCE` environment variable.
    pub fn to_bootc_target_copy_source(&self, env_target_copy_source: Option<String>) -> (r: Option<
        String,
    >)
        ensures
            ostr(r) == copy_source_choice(
                self.install.copy_mode,
                ostr(self.install.bootc_target_imgref),
                ostr(env_target_copy_source),
            ),
    {
        let s = clone_opt_string(&self.install.bootc_target_imgref);
        if self.install.copy_mode == CopyMode::Bootc && s.is_some() {
            s
        } else {
            env_target_copy_source
        }
    }

    /// A copy of the bootc kernel arguments.
    pub fn bootc_kargs(&self) -> (r: Option<Vec<String>>)
        ensures
            ostrs(r) == ostrs(self.install.bootc_kargs),
    {
        clone_opt_strings(&self.install.bootc_kargs)
    }

    /// A copy of the extra bootc arguments.
    pub fn bootc_args(&self) -> (r: Option<Vec<String>>)
        ensures
            ostrs(r) == ostrs(self.install.bootc_args),
    {
        clone_opt_strings(&self.install.bootc_args)
    }
}

} // verus!
