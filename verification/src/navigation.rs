//! The pages of the installer, how the window moves between them, and what
//! the command line hands the installing process.
use crate::install::InstallationType;
use crate::text::{chars_of, has_prefix, owned, split_once, split_once_exec, starts_with, string_of, strs};
use vstd::prelude::*;

verus! {

/// A page of the installer.
#[derive(Debug, Clone, Copy, PartialEq, Eq, Structural)]
pub enum Page {
    Language,
    Welcome,
    Destination,
    InstallationType,
    Confirmation,
    Installation,
    InstallDual,
    InstallCustom,
    Completed,
    Failure,
}

/// Where a page asks the window to go.
#[derive(Debug, Clone, Copy, PartialEq, Eq, Structural)]
pub enum NavigationAction {
    GoTo(Page),
    Quit,
}

/// What the window is told.
pub enum AppMsg {
    StartInstallation,
    Navigate(NavigationAction),
    SendErr(String),
}

/// What the window does for a message.
pub enum AppAction {
    /// Start the installation; the mount targets of the custom page are
    /// handed to it first when `use_custom_mounts`.
    StartInstallation { use_custom_mounts: bool },
    /// Show the page.
    Show(Page),
    /// End the program.
    Exit,
    /// Give the error to the failure page.
    ReportError(String),
}

/// The window: the page it shows.
pub struct AppModel {
    pub page: Page,
}

impl AppModel {
    /// The window handles a message; `installation_type` is the type chosen.
    pub fn update(&mut self, message: AppMsg, installation_type: Option<InstallationType>) -> (r: AppAction)
        ensures
            match message {
                AppMsg::StartInstallation => final(self).page == old(self).page && (r matches AppAction::StartInstallation {
                    use_custom_mounts,
                } && use_custom_mounts == (installation_type == Some(InstallationType::Custom))),
                AppMsg::Navigate(NavigationAction::GoTo(p)) => final(self).page == p && (r matches AppAction::Show(q)
                    && q == p),
                AppMsg::Navigate(NavigationAction::Quit) => final(self).page == old(self).page && r is Exit,
                AppMsg::SendErr(s) => final(self).page == old(self).page && (r matches AppAction::ReportError(e)
                    && e@ == s@),
            },
    {
        match message {
            AppMsg::StartInstallation => {
                let custom = match installation_type {
                    Some(InstallationType::Custom) => true,
                    _ => false,
                };
                AppAction::StartInstallation { use_custom_mounts: custom }
            },
            AppMsg::Navigate(NavigationAction::GoTo(p)) => {
                self.page = p;
                AppAction::Show(p)
            },
            AppMsg::Navigate(NavigationAction::Quit) => AppAction::Exit,
            AppMsg::SendErr(s) => AppAction::ReportError(s),
        }
    }
}

/// Where the installation page goes when the installation ends: the
/// failure page, with the error, or the completed page.
pub fn after_installation(result: Result<(), String>) -> (r: (Option<String>, Page))
    ensures
        match result {
            Ok(()) => r.0 is None && r.1 == Page::Completed,
            Err(e) => r.0 matches Some(x) && x@ == e@ && r.1 == Page::Failure,
        },
{
    match result {
        Ok(()) => (None, Page::Completed),
        Err(e) => (Some(e), Page::Failure),
    }
}

// ───────────────────────── the command line ─────────────────────────

/// An argument that sets an environment variable of the installer.
pub open spec fn is_env_arg(arg: Seq<char>) -> bool {
    has_prefix(arg, "READYMADE_"@) || has_prefix(arg, "REPART_COPY_SOURCE"@) || has_prefix(arg, "NO_COLOR"@)
}

/// The variables set from the arguments: each `KEY=value` argument of the
/// installer's variables, in order.
pub open spec fn env_assignments_spec(args: Seq<Seq<char>>) -> Seq<(Seq<char>, Seq<char>)>
    decreases args.len(),
{
    if args.len() == 0 {
        Seq::empty()
    } else {
        let rest = env_assignments_spec(args.drop_last());
        let a = args.last();
        if is_env_arg(a) {
            match split_once(a, '=') {
                Some((k, v)) => rest.push((k, v)),
                None => rest,
            }
        } else {
            rest
        }
    }
}

/// Every argument of the installer's variables has a `=`.
pub open spec fn env_args_ok(args: Seq<Seq<char>>) -> bool {
    forall|i: int| 0 <= i < args.len() && is_env_arg(#[trigger] args[i]) ==> split_once(args[i], '=') is Some
}

/// Whether every argument of the installer's variables has a `=`.
pub fn env_args_valid(args: &Vec<String>) -> (r: bool)
    ensures
        r == env_args_ok(strs(args@)),
{
    let ghost av = strs(args@);
    let mut i: usize = 0;
    while i < args.len()
        invariant
            i <= args@.len(),
            av == strs(args@),
            forall|j: int| 0 <= j < i && is_env_arg(#[trigger] av[j]) ==> split_once(av[j], '=') is Some,
        decreases args@.len() - i,
    {
        let a = chars_of(args[i].as_str());
        proof {
            assert(av[i as int] == a@);
        }
        let is_env = starts_with(&a, &chars_of("READYMADE_")) || starts_with(&a, &chars_of("REPART_COPY_SOURCE"))
            || starts_with(&a, &chars_of("NO_COLOR"));
        if is_env && split_once_exec(&a, '=').is_none() {
            return false;
        }
        i = i + 1;
    }
    true
}

/// The environment variables the arguments set, as `(key, value)`.
pub fn env_assignments(args: &Vec<String>) -> (r: Vec<(String, String)>)
    requires
        env_args_ok(strs(args@)),
    ensures
        r@.map_values(|p: (String, String)| (p.0@, p.1@)) == env_assignments_spec(strs(args@)),
{
    let mut r: Vec<(String, String)> = Vec::new();
    let mut i: usize = 0;
    let ghost av = strs(args@);
    proof {
        assert(av.take(0) =~= Seq::<Seq<char>>::empty());
        assert(r@.map_values(|p: (String, String)| (p.0@, p.1@)) =~= Seq::<(Seq<char>, Seq<char>)>::empty());
    }
    while i < args.len()
        invariant
            i <= args@.len(),
            av == strs(args@),
            env_args_ok(av),
            r@.map_values(|p: (String, String)| (p.0@, p.1@)) == env_assignments_spec(av.take(i as int)),
        decreases args@.len() - i,
    {
        let a = chars_of(args[i].as_str());
        let ghost r0 = r@.map_values(|p: (String, String)| (p.0@, p.1@));
        proof {
            let t = av.take(i + 1);
            assert(t.drop_last() =~= av.take(i as int));
            assert(t.last() == av[i as int]);
            assert(av[i as int] == a@);
        }
        let is_env = starts_with(&a, &chars_of("READYMADE_")) || starts_with(&a, &chars_of("REPART_COPY_SOURCE"))
            || starts_with(&a, &chars_of("NO_COLOR"));
        if is_env {
            match split_once_exec(&a, '=') {
                Some((k, v)) => {
                    r.push((string_of(&k), string_of(&v)));
                    proof {
                        assert(r@.map_values(|p: (String, String)| (p.0@, p.1@)) =~= r0.push((k@, v@)));
                    }
                },
                None => {
                    proof {
                        assert(is_env_arg(av[i as int]));
                    }
                },
            }
        }
        i = i + 1;
    }
    proof {
        assert(av.take(i as int) =~= av);
    }
    r
}

/// Whether the installer runs as the installing process: the argument
/// `--non-interactive` is given.
pub fn is_non_interactive(args: &Vec<String>) -> (r: bool)
    ensures
        r == strs(args@).contains("--non-interactive"@),
{
    let flag = chars_of("--non-interactive");
    let mut i: usize = 0;
    while i < args.len()
        invariant
            i <= args@.len(),
            flag@ == "--non-interactive"@,
            forall|j: int| 0 <= j < i ==> args@[j]@ != "--non-interactive"@,
        decreases args@.len() - i,
    {
        if crate::text::chars_eq(&chars_of(args[i].as_str()), &flag) {
            proof {
                assert(strs(args@)[i as int] == "--non-interactive"@);
            }
            return true;
        }
        i = i + 1;
    }
    proof {
        if strs(args@).contains("--non-interactive"@) {
            let j = choose|j: int| 0 <= j < strs(args@).len() && strs(args@)[j] == "--non-interactive"@;
            assert(args@[j]@ == "--non-interactive"@);
        }
    }
    false
}

/// The name of the log file: one for the installing process, one for the
/// window.
pub fn log_file_name(non_interactive: bool) -> (r: &'static str)
    ensures
        r@ == if non_interactive {
            "readymade-non-interactive.log"@
        } else {
            "readymade.log"@
        },
{
    if non_interactive {
        "readymade-non-interactive.log"
    } else {
        "readymade.log"
    }
}

} // verus!
