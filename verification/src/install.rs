//! The state of an installation, from what the pages collect to the final,
//! checked form the installer runs on.
use crate::cfg::ReadymadeConfig;
use crate::custom::{targets_view, MountTargets};
use crate::disks::{disk_view, DiskInit};
use crate::postinstall::Module;
use crate::text::{clone_opt_string, clone_opt_strings, clone_strings, copy_vec, ostr, ostrs, owned, strs};
use vstd::prelude::*;

verus! {

/// How the system is laid out on the disk.
#[derive(Debug, Clone, Copy, PartialEq, Eq, Structural)]
pub enum InstallationType {
    WholeDisk,
    DualBoot(u64),
    ChromebookInstall,
    Custom,
}

/// Whether and how the root partition is encrypted.
#[derive(Clone)]
pub struct EncryptState {
    pub tpm: bool,
    pub encryption_key: String,
}

/// The installation type with what it needs to run.
pub enum DetailedInstallationType {
    WholeDisk,
    DualBoot(u64),
    ChromebookInstall,
    Custom { mounttags: MountTargets },
}

/// The installation type a detailed one stands for.
pub open spec fn simple_of(d: DetailedInstallationType) -> InstallationType {
    match d {
        DetailedInstallationType::WholeDisk => InstallationType::WholeDisk,
        DetailedInstallationType::DualBoot(i) => InstallationType::DualBoot(i),
        DetailedInstallationType::ChromebookInstall => InstallationType::ChromebookInstall,
        DetailedInstallationType::Custom { .. } => InstallationType::Custom,
    }
}

impl<'a> From<&'a DetailedInstallationType> for InstallationType {
    fn from(value: &'a DetailedInstallationType) -> (r: Self) {
        match value {
            DetailedInstallationType::WholeDisk => InstallationType::WholeDisk,
            DetailedInstallationType::DualBoot(i) => InstallationType::DualBoot(*i),
            DetailedInstallationType::ChromebookInstall => InstallationType::ChromebookInstall,
            DetailedInstallationType::Custom { .. } => InstallationType::Custom,
        }
    }
}

impl<'a> vstd::std_specs::convert::FromSpecImpl<&'a DetailedInstallationType> for InstallationType {
    open spec fn obeys_from_spec() -> bool {
        true
    }

    open spec fn from_spec(v: &'a DetailedInstallationType) -> Self {
        simple_of(*v)
    }
}

impl DetailedInstallationType {
    /// The installation type this one details.
    pub fn simple(&self) -> (r: InstallationType)
        ensures
            r == simple_of(*self),
    {
        InstallationType::from(self)
    }

    /// Returns `true` if the detailed installation type is `WholeDisk`.
    pub fn is_whole_disk(&self) -> (r: bool)
        ensures
            r == (*self is WholeDisk),
    {
        matches!(self, DetailedInstallationType::WholeDisk)
    }

    /// Returns `true` if the detailed installation type is `DualBoot`.
    pub fn is_dual_boot(&self) -> (r: bool)
        ensures
            r == (*self is DualBoot),
    {
        matches!(self, DetailedInstallationType::DualBoot(..))
    }

    /// Returns `true` if the detailed installation type is `ChromebookInstall`.
    pub fn is_chromebook_install(&self) -> (r: bool)
        ensures
            r == (*self is ChromebookInstall),
    {
        matches!(self, DetailedInstallationType::ChromebookInstall)
    }

    /// The size given to the other system, for a dual boot.
    pub fn as_dual_boot(&self) -> (r: Option<&u64>)
        ensures
            match *self {
                DetailedInstallationType::DualBoot(v) => r == Some(&v),
                _ => r is None,
            },
    {
        if let DetailedInstallationType::DualBoot(v) = self {
            Some(v)
        } else {
            None
        }
    }

    /// The mount targets, for a custom installation.
    pub fn mounttags(&self) -> (r: Option<&MountTargets>)
        ensures
            match *self {
                DetailedInstallationType::Custom { mounttags } => r == Some(&mounttags),
                _ => r is None,
            },
    {
        if let DetailedInstallationType::Custom { mounttags } = self {
            Some(mounttags)
        } else {
            None
        }
    }

    /// Returns `true` if the detailed installation type is `Custom`.
    pub fn is_custom(&self) -> (r: bool)
        ensures
            r == (*self is Custom),
    {
        matches!(self, DetailedInstallationType::Custom { .. })
    }
}

/// How the system is copied, with what bootc needs.
pub enum DetailedCopyMode {
    Repart,
    Bootc {
        bootc_imgref: String,
        bootc_target_imgref: Option<String>,
        bootc_enforce_sigpolicy: bool,
        bootc_kargs: Vec<String>,
        bootc_args: Vec<String>,
    },
}

impl Default for DetailedCopyMode {
    fn default() -> (r: Self)
        ensures
            r is Repart,
    {
        DetailedCopyMode::Repart
    }
}

impl DetailedCopyMode {
    /// Returns `true` if the detailed copy mode is `Repart`.
    pub fn is_repart(&self) -> (r: bool)
        ensures
            r == (*self is Repart),
    {
        matches!(self, DetailedCopyMode::Repart)
    }

    /// Returns `true` if the detailed copy mode is `Bootc`.
    pub fn is_bootc(&self) -> (r: bool)
        ensures
            r == (*self is Bootc),
    {
        matches!(self, DetailedCopyMode::Bootc { .. })
    }
}

/// A message the installing process sends to the window.
pub enum InstallationMessage {
    Status(String),
}


/// What the pages have collected so far.
pub struct InstallationState {
    pub langlocale: Option<String>,
    pub destination_disk: Option<DiskInit>,
    pub installation_type: Option<InstallationType>,
    pub mounttags: Option<MountTargets>,
    pub postinstall: Vec<Module>,
    pub encrypt: bool,
    pub tpm: bool,
    pub encryption_key: Option<String>,
    pub distro_name: String,
    pub bootc_imgref: Option<String>,
    pub bootc_target_imgref: Option<String>,
    pub bootc_enforce_sigpolicy: bool,
    pub bootc_kargs: Option<Vec<String>>,
    pub bootc_args: Option<Vec<String>>,
}

/// The mount targets, if any, as plain values.
pub open spec fn otargets(o: Option<MountTargets>) -> Option<Seq<(usize, Seq<char>, Seq<char>, Seq<char>)>> {
    match o {
        Some(t) => Some(targets_view(t.0@)),
        None => None,
    }
}

impl InstallationState {
    /// The state at the start, from the configuration; `env_copy_source` and
    /// `env_target_copy_source` are the `COPY_SOURCE` and `TARGET_COPY_SOURCE`
    /// environment variables.
    pub fn from_config(
        value: &ReadymadeConfig,
        env_copy_source: Option<String>,
        env_target_copy_source: Option<String>,
    ) -> (r: Self)
        ensures
            r.langlocale is None,
            r.destination_disk is None,
            r.installation_type is None,
            r.mounttags is None,
            r.postinstall@ == value.postinstall@,
            !r.encrypt,
            !r.tpm,
            r.encryption_key is None,
            r.distro_name@ == value.distro.name@,
            ostr(r.bootc_imgref) == crate::cfg::copy_source_choice(
                value.install.copy_mode,
                ostr(value.install.bootc_imgref),
                ostr(env_copy_source),
            ),
            ostr(r.bootc_target_imgref) == crate::cfg::copy_source_choice(
                value.install.copy_mode,
                ostr(value.install.bootc_target_imgref),
                ostr(env_target_copy_source),
            ),
            r.bootc_enforce_sigpolicy == value.install.bootc_enforce_sigpolicy,
            ostrs(r.bootc_kargs) == ostrs(value.install.bootc_kargs),
            ostrs(r.bootc_args) == ostrs(value.install.bootc_args),
    {
        InstallationState {
            langlocale: None,
            destination_disk: None,
            installation_type: None,
            mounttags: None,
            postinstall: copy_vec(&value.postinstall),
            encrypt: false,
            tpm: false,
            encryption_key: None,
            distro_name: value.distro.name.clone(),
            bootc_imgref: value.to_bootc_copy_source(env_copy_source),
            bootc_target_imgref: value.to_bootc_target_copy_source(env_target_copy_source),
            bootc_enforce_sigpolicy: value.install.bootc_enforce_sigpolicy,
            bootc_kargs: value.bootc_kargs(),
            bootc_args: value.bootc_args(),
        }
    }

    /// The type chosen from the start: the allowed one when only one is
    /// allowed.
    pub fn default_type(allowed: &Vec<InstallationType>) -> (r: Option<InstallationType>)
        ensures
            r == if allowed@.len() == 1 {
                Some(allowed@[0])
            } else {
                None::<InstallationType>
            },
    {
        if allowed.len() == 1 {
            Some(allowed[0])
        } else {
            None
        }
    }

    /// The installation type with its mount targets.
    pub fn to_detailed_installation_type(&self) -> (r: DetailedInstallationType)
        requires
            self.installation_type is Some,
            self.installation_type == Some(InstallationType::Custom) ==> self.mounttags is Some,
        ensures
            simple_of(r) == self.installation_type.unwrap(),
            r is Custom ==> otargets(Some(r->mounttags)) == otargets(self.mounttags),
    {
        match self.installation_type.unwrap() {
            InstallationType::WholeDisk => DetailedInstallationType::WholeDisk,
            InstallationType::DualBoot(i) => DetailedInstallationType::DualBoot(i),
            InstallationType::ChromebookInstall => DetailedInstallationType::ChromebookInstall,
            InstallationType::Custom => {
                DetailedInstallationType::Custom { mounttags: self.mounttags.as_ref().unwrap().duplicate() }
            },
        }
    }

    /// The encryption to set up, when it is asked for.
    pub fn to_encrypt_state(&self) -> (r: Option<EncryptState>)
        requires
            self.encrypt ==> self.encryption_key is Some,
        ensures
            r is Some <==> self.encrypt,
            r is Some ==> r->0.tpm == self.tpm && Some(r->0.encryption_key@) == ostr(
                self.encryption_key,
            ),
    {
        if self.encrypt {
            Some(EncryptState { tpm: self.tpm, encryption_key: self.encryption_key.as_ref().unwrap().clone() })
        } else {
            None
        }
    }

    /// Bootc when an image is set, else repart.
    pub fn to_detailed_copy_mode(&self) -> (r: DetailedCopyMode)
        ensures
            self.bootc_imgref is None ==> r is Repart,
            self.bootc_imgref is Some ==> r is Bootc && r->bootc_imgref@
                == self.bootc_imgref.unwrap()@ && ostr(r->bootc_target_imgref) == ostr(
                self.bootc_target_imgref,
            ) && r->bootc_enforce_sigpolicy == self.bootc_enforce_sigpolicy && strs(
                r->bootc_kargs@,
            ) == or_empty(ostrs(self.bootc_kargs)) && strs(r->bootc_args@) == or_empty(
                ostrs(self.bootc_args),
            ),
    {
        match &self.bootc_imgref {
            None => DetailedCopyMode::Repart,
            Some(imgref) => DetailedCopyMode::Bootc {
                bootc_imgref: imgref.clone(),
                bootc_target_imgref: clone_opt_string(&self.bootc_target_imgref),
                bootc_enforce_sigpolicy: self.bootc_enforce_sigpolicy,
                bootc_kargs: strings_or_empty(&self.bootc_kargs),
                bootc_args: strings_or_empty(&self.bootc_args),
            },
        }
    }
}

/// The strings, or none when absent.
pub open spec fn or_empty(o: Option<Seq<Seq<char>>>) -> Seq<Seq<char>> {
    match o {
        Some(v) => v,
        None => Seq::empty(),
    }
}

fn strings_or_empty(o: &Option<Vec<String>>) -> (r: Vec<String>)
    ensures
        strs(r@) == or_empty(ostrs(*o)),
{
    match o {
        Some(v) => clone_strings(v),
        None => {
            let r: Vec<String> = Vec::new();
            proof {
                assert(strs(r@) =~= Seq::<Seq<char>>::empty());
            }
            r
        },
    }
}

/// The checked state the installer runs on.
pub struct FinalInstallationState {
    pub langlocale: String,
    pub destination_disk: DiskInit,
    pub installation_type: DetailedInstallationType,
    pub encrypts: Option<EncryptState>,
    pub config: ReadymadeConfig,
    pub copy_mode: DetailedCopyMode,
}

/// What an installation state is ready for: a disk and a type chosen, the
/// mount targets of a custom installation, the key of an encrypted one.
pub open spec fn ready(s: InstallationState) -> bool {
    &&& s.destination_disk is Some
    &&& s.installation_type is Some
    &&& s.installation_type == Some(InstallationType::Custom) ==> s.mounttags is Some
    &&& s.encrypt ==> s.encryption_key is Some
}

impl FinalInstallationState {
    /// The final state: the language defaults to `C.UTF-8`; `config` is the
    /// configuration in force.
    pub fn from_state(value: &InstallationState, config: ReadymadeConfig) -> (r: Self)
        requires
            ready(*value),
        ensures
            r.langlocale@ == match ostr(value.langlocale) {
                Some(l) => l,
                None => "C.UTF-8"@,
            },
            disk_view(r.destination_disk) == disk_view(value.destination_disk.unwrap()),
            simple_of(r.installation_type) == value.installation_type.unwrap(),
            r.installation_type is Custom ==> otargets(Some(r.installation_type->mounttags))
                == otargets(value.mounttags),
            r.encrypts is Some <==> value.encrypt,
            r.encrypts is Some ==> r.encrypts->0.tpm == value.tpm && Some(
                r.encrypts->0.encryption_key@,
            ) == ostr(value.encryption_key),
            r.config == config,
            value.bootc_imgref is None ==> r.copy_mode is Repart,
            value.bootc_imgref is Some ==> r.copy_mode is Bootc && r.copy_mode->bootc_imgref@
                == value.bootc_imgref.unwrap()@,
    {
        let langlocale = match &value.langlocale {
            Some(l) => l.clone(),
            None => owned("C.UTF-8"),
        };
        let disk = value.destination_disk.as_ref().unwrap().duplicate();
        FinalInstallationState {
            langlocale,
            destination_disk: disk,
            installation_type: value.to_detailed_installation_type(),
            encrypts: value.to_encrypt_state(),
            config,
            copy_mode: value.to_detailed_copy_mode(),
        }
    }
}


// ───────────────────────── the installing subprocess ─────────────────────────

/// What `systemd-repart` prints when the kernel could not reread the
/// partition table.
pub open spec fn device_busy_msg() -> Seq<u8> {
    char_bytes("Failed to reread partition table: Device or resource busy\n"@)
}

/// The bytes of a string, one for each character (`char as u8`).
pub open spec fn char_bytes(s: Seq<char>) -> Seq<u8> {
    s.map_values(|c: char| c as u8)
}

fn char_bytes_of(text: &str) -> (r: Vec<u8>)
    ensures
        r@ == char_bytes(text@),
{
    let cs = crate::text::chars_of(text);
    let mut r: Vec<u8> = Vec::new();
    let mut i: usize = 0;
    while i < cs.len()
        invariant
            i <= cs@.len(),
            cs@ == text@,
            r@ == char_bytes(cs@.take(i as int)),
        decreases cs@.len() - i,
    {
        r.push(cs[i] as u8);
        proof {
            assert(cs@.take(i + 1) =~= cs@.take(i as int).push(cs@[i as int]));
            assert(r@ =~= char_bytes(cs@.take(i + 1)));
        }
        i = i + 1;
    }
    proof {
        assert(cs@.take(cs@.len() as int) =~= cs@);
    }
    r
}

/// The part of the logs that is searched: the last 1024 bytes, or all of them
/// when there are fewer.
pub open spec fn log_tail(logs: Seq<u8>) -> Seq<u8> {
    if logs.len() >= 1024 {
        logs.skip(logs.len() - 1024)
    } else {
        logs
    }
}

/// `p` occurs in `s` as a contiguous run of bytes.
pub open spec fn bytes_contain(s: Seq<u8>, p: Seq<u8>) -> bool {
    exists|i: int| 0 <= i && i + p.len() <= s.len() && #[trigger] s.subrange(i, i + p.len()) == p
}

fn bytes_contain_exec(s: &[u8], from: usize, p: &Vec<u8>) -> (r: bool)
    requires
        from <= s@.len(),
        p@.len() > 0,
    ensures
        r == bytes_contain(s@.skip(from as int), p@),
{
    let ghost t = s@.skip(from as int);
    if s.len() - from < p.len() {
        proof {
            assert forall|i: int| 0 <= i && i + p@.len() <= t.len() implies #[trigger] t.subrange(i, i + p@.len()) != p@ by {}
        }
        return false;
    }
    let mut i: usize = from;
    let n: usize = s.len();
    let last: usize = n - p.len();
    while i <= last
        invariant
            from <= i,
            i <= last + 1,
            n == s@.len(),
            last + p@.len() == n,
            p@.len() > 0,
            t == s@.skip(from as int),
            forall|k: int| 0 <= k < i - from ==> #[trigger] t.subrange(k, k + p@.len()) != p@,
        decreases s@.len() - i,
    {
        let mut j: usize = 0;
        let mut same = true;
        while j < p.len()
            invariant
                n == s@.len(),
                last + p@.len() == n,
                j <= p@.len(),
                i <= last,
                same == (forall|m: int| 0 <= m < j ==> s@[i + m] == p@[m]),
            decreases p@.len() - j,
        {
            if s[i + j] != p[j] {
                same = false;
            }
            j = j + 1;
        }
        let ghost k = i - from;
        proof {
            if same {
                assert(t.subrange(k, k + p@.len()) =~= p@);
            } else {
                let m = choose|m: int| 0 <= m < p@.len() && s@[i + m] != p@[m];
                assert(t.subrange(k, k + p@.len())[m] == s@[i + m]);
            }
        }
        if same {
            return true;
        }
        i = i + 1;
    }
    proof {
        assert forall|k: int| 0 <= k && k + p@.len() <= t.len() implies #[trigger] t.subrange(k, k + p@.len()) != p@ by {
            assert(k < i - from);
        }
    }
    false
}

/// Whether the subprocess failed because the device was busy: the last 1024
/// bytes of its logs hold the message of `systemd-repart`.
pub fn is_device_busy(logs: &[u8]) -> (r: bool)
    ensures
        r == bytes_contain(log_tail(logs@), device_busy_msg()),
{
    let msg = char_bytes_of("Failed to reread partition table: Device or resource busy\n");
    proof {
        reveal_strlit("Failed to reread partition table: Device or resource busy\n");
    }
    let from: usize = if logs.len() >= 1024 {
        logs.len() - 1024
    } else {
        0
    };
    proof {
        if logs@.len() < 1024 {
            assert(logs@.skip(0) =~= logs@);
        }
    }
    bytes_contain_exec(logs, from, &msg)
}

/// How a run of the subprocess ended.
#[derive(Debug, Clone, Copy, PartialEq, Eq, Structural)]
pub enum SubprocessOutcome {
    /// It ran and exited successfully.
    Succeeded,
    /// It ran and failed; `device_busy` when its logs show a busy device.
    Failed { device_busy: bool },
    /// It could not be run.
    NotRun,
}

/// What to do after a run of the subprocess.
#[derive(Debug, Clone, Copy, PartialEq, Eq, Structural)]
pub enum SubprocessNext {
    /// The installation succeeded.
    Done,
    /// Run it again; the count of retries so far.
    Retry(u32),
    /// The device stayed busy on three runs: fail, with that said.
    GiveUp,
    /// It failed for another reason.
    Fail,
    /// It could not be run.
    NotRun,
}

/// The environment variables handed on to the installer's own subprocess:
/// those whose name starts with `REPART_` or `READYMADE_`, each as
/// `NAME=value`, in order.
pub open spec fn forwarded_env(env: Seq<(Seq<char>, Seq<char>)>) -> Seq<Seq<char>>
    decreases env.len(),
{
    if env.len() == 0 {
        Seq::empty()
    } else {
        let rest = forwarded_env(env.drop_last());
        let (k, v) = env.last();
        if crate::text::has_prefix(k, "REPART_"@) || crate::text::has_prefix(k, "READYMADE_"@) {
            rest.push(k + seq!['='] + v)
        } else {
            rest
        }
    }
}

/// The arguments of `pkexec` that run the installer `exe` without its
/// interface, inhibiting sleep, talking back on the channel `channel_id`:
/// the forwarded variables of `env`, then `NO_COLOR=1`, and the log level
/// (`info` when `READYMADE_LOG` is not set).
pub open spec fn subprocess_args_spec(
    exe: Seq<char>,
    channel_id: Seq<char>,
    env: Seq<(Seq<char>, Seq<char>)>,
    log: Option<Seq<char>>,
) -> Seq<Seq<char>> {
    seq!["systemd-inhibit"@, "--who=Readymade"@, "--why=Installing OS"@, exe, "--non-interactive"@, channel_id]
        + forwarded_env(env) + seq![
        "NO_COLOR=1"@,
        "READYMADE_LOG="@ + match log {
            Some(l) => l,
            None => "info"@,
        },
    ]
}

/// How many runs failed on a busy device before the installer gives up.
pub open spec fn max_busy_retries() -> nat {
    3
}

impl FinalInstallationState {
    /// The arguments of `pkexec` for a run of the installer's subprocess (see
    /// [`subprocess_args_spec`]); `env` is the environment, `log` the value of
    /// `READYMADE_LOG` if it is set.
    pub fn subprocess_args(exe: &str, channel_id: &str, env: &Vec<(String, String)>, log: Option<&str>) -> (r: Vec<
        String,
    >)
        ensures
            strs(r@) == subprocess_args_spec(
                exe@,
                channel_id@,
                env@.map_values(|p: (String, String)| (p.0@, p.1@)),
                match log {
                    Some(l) => Some(l@),
                    None => None,
                },
            ),
    {
        let ghost ev = env@.map_values(|p: (String, String)| (p.0@, p.1@));
        let mut r: Vec<String> = Vec::new();
        r.push(owned("systemd-inhibit"));
        r.push(owned("--who=Readymade"));
        r.push(owned("--why=Installing OS"));
        r.push(owned(exe));
        r.push(owned("--non-interactive"));
        r.push(owned(channel_id));
        let ghost head = strs(r@);
        proof {
            assert(head =~= seq!["systemd-inhibit"@, "--who=Readymade"@, "--why=Installing OS"@, exe@, "--non-interactive"@, channel_id@]);
            assert(ev.take(0) =~= Seq::<(Seq<char>, Seq<char>)>::empty());
            assert(strs(r@) =~= head + forwarded_env(ev.take(0)));
        }
        let repart = crate::text::chars_of("REPART_");
        let readymade = crate::text::chars_of("READYMADE_");
        let mut i: usize = 0;
        while i < env.len()
            invariant
                i <= env@.len(),
                ev == env@.map_values(|p: (String, String)| (p.0@, p.1@)),
                repart@ == "REPART_"@,
                readymade@ == "READYMADE_"@,
                strs(r@) == head + forwarded_env(ev.take(i as int)),
            decreases env@.len() - i,
        {
            let k = crate::text::chars_of(env[i].0.as_str());
            let ghost r0 = strs(r@);
            proof {
                let t = ev.take(i + 1);
                assert(t.drop_last() =~= ev.take(i as int));
                assert(t.last() == ev[i as int]);
                assert(ev[i as int] == (env@[i as int].0@, env@[i as int].1@));
            }
            if crate::text::starts_with(&k, &repart) || crate::text::starts_with(&k, &readymade) {
                let mut a = crate::text::string_of(&k);
                a.push('=');
                let vc = crate::text::chars_of(env[i].1.as_str());
                crate::text::push_chars(&mut a, &vc);
                proof {
                    assert(vc@ == env@[i as int].1@);
                    assert(a@ =~= k@ + seq!['='] + env@[i as int].1@);
                }
                let ghost av = a@;
                r.push(a);
                proof {
                    assert(strs(r@)[r@.len() - 1] == av);
                    assert(strs(r@) =~= r0.push(k@ + seq!['='] + env@[i as int].1@));
                    assert(head + forwarded_env(ev.take(i + 1)) =~= (head + forwarded_env(ev.take(i as int))).push(
                        k@ + seq!['='] + env@[i as int].1@,
                    ));
                }
            }
            i = i + 1;
        }
        let ghost mid = strs(r@);
        r.push(owned("NO_COLOR=1"));
        let mut l = owned("READYMADE_LOG=");
        match log {
            Some(v) => crate::text::push_chars(&mut l, &crate::text::chars_of(v)),
            None => crate::text::push_chars(&mut l, &crate::text::chars_of("info")),
        }
        r.push(l);
        proof {
            assert(ev.take(env@.len() as int) =~= ev);
            let lg = match log {
                Some(v) => Some(v@),
                None => None,
            };
            assert(strs(r@) =~= subprocess_args_spec(exe@, channel_id@, ev, lg));
        }
        r
    }
}

impl FinalInstallationState {
    /// After a run: success ends the loop; a busy device is retried until it
    /// has been retried three times; any other failure ends it.
    pub fn after_subprocess(retries: u32, outcome: SubprocessOutcome) -> (r: SubprocessNext)
        requires
            retries < max_busy_retries(),
        ensures
            outcome == SubprocessOutcome::Succeeded ==> r == SubprocessNext::Done,
            outcome == SubprocessOutcome::NotRun ==> r == SubprocessNext::NotRun,
            outcome == (SubprocessOutcome::Failed { device_busy: false }) ==> r == SubprocessNext::Fail,
            outcome == (SubprocessOutcome::Failed { device_busy: true }) ==> (if retries + 1
                >= max_busy_retries() {
                r == SubprocessNext::GiveUp
            } else {
                r == SubprocessNext::Retry((retries + 1) as u32)
            }),
    {
        match outcome {
            SubprocessOutcome::Succeeded => SubprocessNext::Done,
            SubprocessOutcome::Failed { device_busy } => {
                if device_busy {
                    let n = retries + 1;
                    if n >= 3 {
                        SubprocessNext::GiveUp
                    } else {
                        SubprocessNext::Retry(n)
                    }
                } else {
                    SubprocessNext::Fail
                }
            },
            SubprocessOutcome::NotRun => SubprocessNext::NotRun,
        }
    }
}



// ───────────────────────── commands the installer runs ─────────────────────────

/// Appends `s` to `v`.
fn push_str(v: &mut Vec<String>, s: &str)
    ensures
        strs(final(v)@) == strs(old(v)@).push(s@),
{
    let ghost v0 = strs(v@);
    v.push(owned(s));
    proof {
        assert(strs(v@) =~= v0.push(s@));
    }
}

/// Appends the strings of `w` to `v`.
fn push_all(v: &mut Vec<String>, w: &Vec<String>)
    ensures
        strs(final(v)@) == strs(old(v)@) + strs(w@),
{
    let ghost v0 = strs(v@);
    let mut c = clone_strings(w);
    v.append(&mut c);
    proof {
        assert(strs(v@) =~= v0 + strs(w@));
    }
}

/// The arguments of `systemd-repart`.
pub open spec fn repart_args_spec(
    dry_run: bool,
    cfgdir: Seq<char>,
    copy_source: Option<Seq<char>>,
    keyfile: Option<Seq<char>>,
    blockdev: Seq<char>,
) -> Seq<Seq<char>> {
    seq!["--dry-run"@, if dry_run { "yes"@ } else { "no"@ }, "--definitions"@, cfgdir]
        + seq!["--empty"@, "force"@, "--offline"@, "false"@, "--json"@, "pretty"@]
        + match copy_source {
        Some(c) => seq!["--copy-source"@, c],
        None => Seq::empty(),
    } + match keyfile {
        Some(k) => seq!["--key-file"@, k],
        None => Seq::empty(),
    } + seq![blockdev]
}

impl FinalInstallationState {
    /// The arguments of `systemd-repart` on `blockdev` with the definitions in
    /// `cfgdir`: the copy source for bootc, the key file when encrypting.
    pub fn repart_args(
        dry_run: bool,
        cfgdir: &str,
        is_bootc: bool,
        copy_source: &str,
        keyfile: Option<&str>,
        blockdev: &str,
    ) -> (r: Vec<String>)
        ensures
            strs(r@) == repart_args_spec(
                dry_run,
                cfgdir@,
                if is_bootc { Some(copy_source@) } else { None },
                match keyfile {
                    Some(k) => Some(k@),
                    None => None,
                },
                blockdev@,
            ),
    {
        let mut v: Vec<String> = Vec::new();
        push_str(&mut v, "--dry-run");
        push_str(&mut v, if dry_run { "yes" } else { "no" });
        push_str(&mut v, "--definitions");
        push_str(&mut v, cfgdir);
        let ghost a = strs(v@);
        push_str(&mut v, "--empty");
        push_str(&mut v, "force");
        push_str(&mut v, "--offline");
        push_str(&mut v, "false");
        push_str(&mut v, "--json");
        push_str(&mut v, "pretty");
        let ghost b = strs(v@);
        if is_bootc {
            push_str(&mut v, "--copy-source");
            push_str(&mut v, copy_source);
        }
        let ghost c = strs(v@);
        if let Some(k) = keyfile {
            push_str(&mut v, "--key-file");
            push_str(&mut v, k);
        }
        let ghost d = strs(v@);
        push_str(&mut v, blockdev);
        proof {
            let cs: Option<Seq<char>> = if is_bootc { Some(copy_source@) } else { None };
            let kf: Option<Seq<char>> = match keyfile {
                Some(k) => Some(k@),
                None => None,
            };
            assert(b =~= a + seq!["--empty"@, "force"@, "--offline"@, "false"@, "--json"@, "pretty"@]);
            assert(c =~= b + match cs {
                Some(x) => seq!["--copy-source"@, x],
                None => Seq::empty(),
            });
            assert(d =~= c + match kf {
                Some(x) => seq!["--key-file"@, x],
                None => Seq::empty(),
            });
            assert(strs(v@) =~= repart_args_spec(dry_run, cfgdir@, cs, kf, blockdev@));
        }
        v
    }

    /// Whether `systemd-repart` only shows what it would do:
    /// `READYMADE_DRY_RUN` (`env`) is `1`, or, when it is not set, the build
    /// is a debug build.
    pub fn dry_run(env: Option<&str>, debug_build: bool) -> (r: bool)
        ensures
            r == match env {
                Some(v) => v@ == "1"@,
                None => debug_build,
            },
    {
        match env {
            Some(v) => {
                let c = crate::text::chars_of(v);
                let one = ['1'];
                proof {
                    reveal_strlit("1");
                    assert(one@ =~= "1"@);
                }
                crate::text::chars_eq(&c, &one)
            },
            None => debug_build,
        }
    }
}

/// The arguments of `bootc install to-filesystem`.
pub open spec fn bootc_args_spec(
    imgref: Seq<char>,
    crypt_opts: Seq<Seq<char>>,
    target_root: Seq<char>,
    target_imgref: Option<Seq<char>>,
    kargs: Seq<Seq<char>>,
    enforce_sigpolicy: bool,
    args: Seq<Seq<char>>,
) -> Seq<Seq<char>> {
    seq!["install"@, "to-filesystem"@, "--source-imgref"@, imgref] + karg_pairs(crypt_opts)
        + seq!["--karg=rhgb"@, "--karg=quiet"@, "--karg=splash"@] + seq![target_root]
        + match target_imgref {
        Some(t) => seq!["--target-imgref"@, t],
        None => Seq::empty(),
    } + karg_pairs(kargs) + if enforce_sigpolicy {
        seq!["--enforce-container-sigpolicy"@]
    } else {
        Seq::empty()
    } + args
}

/// `--karg` before each option.
pub open spec fn karg_pairs(opts: Seq<Seq<char>>) -> Seq<Seq<char>>
    decreases opts.len(),
{
    if opts.len() == 0 {
        Seq::empty()
    } else {
        karg_pairs(opts.drop_last()) + seq!["--karg"@, opts.last()]
    }
}

fn push_karg_pairs(v: &mut Vec<String>, opts: &Vec<String>)
    ensures
        strs(final(v)@) == strs(old(v)@) + karg_pairs(strs(opts@)),
{
    let ghost v0 = strs(v@);
    let mut i: usize = 0;
    proof {
        assert(strs(opts@).take(0) =~= Seq::<Seq<char>>::empty());
        assert(strs(v@) =~= v0 + karg_pairs(strs(opts@).take(0)));
    }
    while i < opts.len()
        invariant
            i <= opts@.len(),
            strs(v@) == v0 + karg_pairs(strs(opts@).take(i as int)),
        decreases opts@.len() - i,
    {
        push_str(v, "--karg");
        push_str(v, opts[i].as_str());
        proof {
            let t = strs(opts@).take(i + 1);
            assert(t.drop_last() =~= strs(opts@).take(i as int));
            assert(t.last() == opts@[i as int]@);
            assert(strs(v@) =~= v0 + karg_pairs(t));
        }
        i = i + 1;
    }
    proof {
        assert(strs(opts@).take(opts@.len() as int) =~= strs(opts@));
    }
}

/// The kernel options for LUKS, none without encryption.
pub open spec fn crypt_opts(c: Option<crate::repart_output::CryptData>) -> Seq<Seq<char>> {
    match c {
        Some(d) => strs(d.cmdline_opts@),
        None => Seq::empty(),
    }
}

impl FinalInstallationState {
    /// The arguments of `bootc install to-filesystem` into `target_root`.
    pub fn bootc_install_args(&self, target_root: &str, cryptdata: &Option<crate::repart_output::CryptData>) -> (r: Vec<String>)
        requires
            self.copy_mode is Bootc,
        ensures
            strs(r@) == bootc_args_spec(
                self.copy_mode->bootc_imgref@,
                crypt_opts(*cryptdata),
                target_root@,
                ostr(self.copy_mode->bootc_target_imgref),
                strs(self.copy_mode->bootc_kargs@),
                self.copy_mode->bootc_enforce_sigpolicy,
                strs(self.copy_mode->bootc_args@),
            ),
    {
        match &self.copy_mode {
            DetailedCopyMode::Bootc {
                bootc_imgref,
                bootc_target_imgref,
                bootc_enforce_sigpolicy,
                bootc_kargs,
                bootc_args,
            } => {
                let mut v: Vec<String> = Vec::new();
                push_str(&mut v, "install");
                push_str(&mut v, "to-filesystem");
                push_str(&mut v, "--source-imgref");
                push_str(&mut v, bootc_imgref.as_str());
                let ghost a = strs(v@);
                match cryptdata {
                    Some(d) => push_karg_pairs(&mut v, &d.cmdline_opts),
                    None => {
                        proof {
                            assert(karg_pairs(Seq::<Seq<char>>::empty()) =~= Seq::<Seq<char>>::empty());
                            assert(strs(v@) =~= a + Seq::<Seq<char>>::empty());
                        }
                    },
                }
                let ghost b = strs(v@);
                push_str(&mut v, "--karg=rhgb");
                push_str(&mut v, "--karg=quiet");
                push_str(&mut v, "--karg=splash");
                push_str(&mut v, target_root);
                let ghost c = strs(v@);
                if let Some(t) = bootc_target_imgref {
                    push_str(&mut v, "--target-imgref");
                    push_str(&mut v, t.as_str());
                }
                let ghost d = strs(v@);
                push_karg_pairs(&mut v, bootc_kargs);
                let ghost e = strs(v@);
                if *bootc_enforce_sigpolicy {
                    push_str(&mut v, "--enforce-container-sigpolicy");
                }
                let ghost f = strs(v@);
                push_all(&mut v, bootc_args);
                proof {
                    assert(c =~= b + seq!["--karg=rhgb"@, "--karg=quiet"@, "--karg=splash"@] + seq![target_root@]);
                    assert(d =~= c + match ostr(*bootc_target_imgref) {
                        Some(t) => seq!["--target-imgref"@, t],
                        None => Seq::empty(),
                    });
                    assert(f =~= e + if *bootc_enforce_sigpolicy {
                        seq!["--enforce-container-sigpolicy"@]
                    } else {
                        Seq::empty()
                    });
                    assert(strs(v@) =~= bootc_args_spec(
                        bootc_imgref@,
                        crypt_opts(*cryptdata),
                        target_root@,
                        ostr(*bootc_target_imgref),
                        strs(bootc_kargs@),
                        *bootc_enforce_sigpolicy,
                        strs(bootc_args@),
                    ));
                }
                v
            },
            DetailedCopyMode::Repart => Vec::new(),
        }
    }

    /// Whether an entry at the root of a bootc-installed file system is kept
    /// when the rest is cleaned up.
    pub fn bootc_keeps(name: &[u8]) -> (r: bool)
        ensures
            r == (name@ == char_bytes("boot"@) || name@ == char_bytes("ostree"@) || name@ == char_bytes(
                "efi"@,
            ) || name@ == char_bytes(".bootc-aleph.json"@)),
    {
        let boot = char_bytes_of("boot");
        let ostree = char_bytes_of("ostree");
        let efi = char_bytes_of("efi");
        let aleph = char_bytes_of(".bootc-aleph.json");
        bytes_eq(name, boot.as_slice()) || bytes_eq(name, ostree.as_slice()) || bytes_eq(
            name,
            efi.as_slice(),
        ) || bytes_eq(name, aleph.as_slice())
    }
}

fn bytes_eq(a: &[u8], b: &[u8]) -> (r: bool)
    ensures
        r == (a@ == b@),
{
    if a.len() != b.len() {
        return false;
    }
    let mut i: usize = 0;
    while i < a.len()
        invariant
            a@.len() == b@.len(),
            i <= a@.len(),
            forall|j: int| 0 <= j < i ==> a@[j] == b@[j],
        decreases a@.len() - i,
    {
        if a[i] != b[i] {
            return false;
        }
        i = i + 1;
    }
    proof {
        assert(a@ =~= b@);
    }
    true
}


/// The directory of partition definitions under `repart_dir` for an
/// installation type.
pub open spec fn cfgdir_spec(t: InstallationType, is_bootc: bool, repart_dir: Seq<char>) -> Seq<char> {
    crate::text::path_join(
        repart_dir,
        match t {
            InstallationType::ChromebookInstall => "chromebook"@,
            InstallationType::WholeDisk => if is_bootc {
                "bootcwholedisk"@
            } else {
                "wholedisk"@
            },
            _ => Seq::empty(),
        },
    )
}

impl InstallationType {
    /// The directory of partition definitions for this type, under
    /// `repart_dir` (`READYMADE_REPART_DIR`, else the installed templates).
    /// Dual boot has none yet, and a custom installation needs none.
    pub fn cfgdir(&self, is_bootc: bool, repart_dir: &str) -> (r: String)
        requires
            *self is WholeDisk || *self is ChromebookInstall,
        ensures
            r@ == cfgdir_spec(*self, is_bootc, repart_dir@),
    {
        let sub = match self {
            InstallationType::ChromebookInstall => "chromebook",
            InstallationType::WholeDisk => if is_bootc {
                "bootcwholedisk"
            } else {
                "wholedisk"
            },
            _ => "",
        };
        crate::text::path_join_exec(repart_dir, sub)
    }

    /// The arguments of `cgpt` that make the kernel partition of `blockdev`
    /// bootable.
    pub fn cgpt_args(blockdev: &str) -> (r: Vec<String>)
        ensures
            strs(r@) == seq![
                "add"@,
                "-i"@,
                "2"@,
                "-t"@,
                "kernel"@,
                "-P"@,
                "15"@,
                "-T"@,
                "1"@,
                "-S"@,
                "1"@,
                blockdev@,
            ],
    {
        let mut v: Vec<String> = Vec::new();
        push_str(&mut v, "add");
        push_str(&mut v, "-i");
        push_str(&mut v, "2");
        push_str(&mut v, "-t");
        push_str(&mut v, "kernel");
        push_str(&mut v, "-P");
        push_str(&mut v, "15");
        push_str(&mut v, "-T");
        push_str(&mut v, "1");
        push_str(&mut v, "-S");
        push_str(&mut v, "1");
        push_str(&mut v, blockdev);
        proof {
            assert(strs(v@) =~= seq![
                "add"@,
                "-i"@,
                "2"@,
                "-t"@,
                "kernel"@,
                "-P"@,
                "15"@,
                "-T"@,
                "1"@,
                "-S"@,
                "1"@,
                blockdev@,
            ]);
        }
        v
    }
}

/// The `Encrypt=` value of the root partition: a key file, and the TPM too
/// when asked for.
pub open spec fn encrypt_value_spec(tpm: bool) -> Seq<char> {
    if tpm {
        "key-file+tpm2"@
    } else {
        "key-file"@
    }
}

impl FinalInstallationState {
    /// The `Encrypt=` value written into the root partition's definition.
    pub fn encrypt_value(tpm: bool) -> (r: String)
        ensures
            r@ == encrypt_value_spec(tpm),
    {
        let mut v = owned("key-file");
        if tpm {
            crate::text::push_chars(&mut v, &crate::text::chars_of("+tpm2"));
            proof {
                reveal_strlit("key-file");
                reveal_strlit("+tpm2");
                reveal_strlit("key-file+tpm2");
                assert(v@ =~= "key-file+tpm2"@);
            }
        }
        v
    }
}

/// Where the system is copied from, before any mount: the
/// `REPART_COPY_SOURCE` override, else the raw root file system dracut left;
/// `None` when the live base has to be mounted.
pub open spec fn copy_source_spec(override_source: Option<Seq<char>>, rootfs_base_is_dir: bool) -> Option<
    Seq<char>,
> {
    match override_source {
        Some(s) => Some(s),
        None => if rootfs_base_is_dir {
            Some("/run/rootfsbase"@)
        } else {
            None
        },
    }
}

impl FinalInstallationState {
    /// The copy source, when no mount is needed: `override_source` is
    /// `REPART_COPY_SOURCE` as a canonical path, `rootfs_base_is_dir` whether
    /// `/run/rootfsbase` is a directory. `None` asks for
    /// `/dev/mapper/live-base` to be mounted (see `live_base_source`).
    pub fn determine_copy_source(override_source: Option<String>, rootfs_base_is_dir: bool) -> (r: Option<String>)
        ensures
            ostr(r) == copy_source_spec(ostr(override_source), rootfs_base_is_dir),
    {
        match override_source {
            Some(s) => Some(s),
            None => if rootfs_base_is_dir {
                Some(owned("/run/rootfsbase"))
            } else {
                None
            },
        }
    }

    /// The copy source after mounting the live base: where it was mounted,
    /// else the usual mount point all the same.
    pub fn live_base_source(mounted_at: Option<String>) -> (r: String)
        ensures
            r@ == match ostr(mounted_at) {
                Some(m) => m,
                None => "/mnt/live-base"@,
            },
    {
        match mounted_at {
            Some(m) => m,
            None => owned("/mnt/live-base"),
        }
    }
}


// ───────────────────────── the steps of an installation ─────────────────────────

/// One step of an installation, in the order `install_plan` gives.
#[derive(Debug, Clone, Copy, PartialEq, Eq, Structural)]
pub enum InstallStep {
    /// Mount the custom targets and install into them.
    InstallCustom,
    /// Copy the partition definitions into a scratch directory.
    LayerConfigdir,
    /// Write the encryption key to the key file.
    WriteKeyfile,
    /// Mark the root partition's definition as encrypted.
    EnableEncryption,
    /// Run `systemd-repart`.
    Repart,
    /// Read back the partition definitions for the state dump.
    ExportConfigs,
    /// Mount the new file systems and run `bootc install to-filesystem`.
    BootcCopy,
    /// Enter the new system and run the post-installation modules.
    SetupSystem,
    /// Mount the new file systems and remove what bootc does not keep.
    BootcCleanup,
    /// Copy the submarine bootloader to the second partition.
    FlashSubmarine,
    /// Make the kernel partition bootable with `cgpt`.
    SetCgptFlags,
    /// Remove the key file.
    RemoveKeyfile,
    /// Close the LUKS devices that were opened.
    CloseMappers,
}

/// The steps of an installation.
pub open spec fn install_plan_spec(t: InstallationType, encrypt: bool, bootc: bool) -> Seq<InstallStep> {
    if t == InstallationType::Custom {
        seq![InstallStep::InstallCustom]
    } else {
        seq![InstallStep::LayerConfigdir] + (if encrypt {
            seq![InstallStep::WriteKeyfile, InstallStep::EnableEncryption]
        } else {
            Seq::empty()
        }) + seq![InstallStep::Repart, InstallStep::ExportConfigs] + (if bootc {
            seq![InstallStep::BootcCopy]
        } else {
            Seq::empty()
        }) + seq![InstallStep::SetupSystem] + (if bootc {
            seq![InstallStep::BootcCleanup]
        } else {
            Seq::empty()
        }) + (if t == InstallationType::ChromebookInstall {
            seq![InstallStep::FlashSubmarine, InstallStep::SetCgptFlags]
        } else {
            Seq::empty()
        }) + (if encrypt {
            seq![InstallStep::RemoveKeyfile, InstallStep::CloseMappers]
        } else {
            Seq::empty()
        })
    }
}

impl FinalInstallationState {
    /// The steps `install` runs, in order; it stops at the first that fails.
    /// Dual boot has no partition definitions yet.
    pub fn install_plan(&self) -> (r: Vec<InstallStep>)
        requires
            !(self.installation_type is DualBoot),
        ensures
            r@ == install_plan_spec(
                simple_of(self.installation_type),
                self.encrypts is Some,
                self.copy_mode is Bootc,
            ),
    {
        let t = self.installation_type.simple();
        let encrypt = self.encrypts.is_some();
        let bootc = self.copy_mode.is_bootc();
        let mut v: Vec<InstallStep> = Vec::new();
        if t == InstallationType::Custom {
            v.push(InstallStep::InstallCustom);
            proof {
                assert(v@ =~= install_plan_spec(t, encrypt, bootc));
            }
            return v;
        }
        v.push(InstallStep::LayerConfigdir);
        if encrypt {
            v.push(InstallStep::WriteKeyfile);
            v.push(InstallStep::EnableEncryption);
        }
        v.push(InstallStep::Repart);
        v.push(InstallStep::ExportConfigs);
        if bootc {
            v.push(InstallStep::BootcCopy);
        }
        v.push(InstallStep::SetupSystem);
        if bootc {
            v.push(InstallStep::BootcCleanup);
        }
        if t == InstallationType::ChromebookInstall {
            v.push(InstallStep::FlashSubmarine);
            v.push(InstallStep::SetCgptFlags);
        }
        if encrypt {
            v.push(InstallStep::RemoveKeyfile);
            v.push(InstallStep::CloseMappers);
        }
        proof {
            assert(v@ =~= install_plan_spec(t, encrypt, bootc));
        }
        v
    }
}

/// Whatever the installation, the key file is only written when encrypting,
/// and then it is removed again before the end.
pub proof fn lemma_keyfile_removed(t: InstallationType, encrypt: bool, bootc: bool)
    requires
        t != InstallationType::Custom,
    ensures
        install_plan_spec(t, encrypt, bootc).contains(InstallStep::WriteKeyfile) <==> encrypt,
        encrypt ==> install_plan_spec(t, encrypt, bootc).last() == InstallStep::CloseMappers
            && install_plan_spec(t, encrypt, bootc)[install_plan_spec(t, encrypt, bootc).len() - 2]
            == InstallStep::RemoveKeyfile,
{
    let p = install_plan_spec(t, encrypt, bootc);
    if encrypt {
        assert(p[1] == InstallStep::WriteKeyfile);
    } else {
        assert forall|i: int| 0 <= i < p.len() implies p[i] != InstallStep::WriteKeyfile by {}
    }
}


/// The root partition's definition marked as encrypted: `Encrypt=` set in
/// its `[Partition]` section.
pub open spec fn encrypted_definition(f: Seq<char>, tpm: bool) -> Seq<char> {
    crate::systemd_ini::ini_text(
        crate::systemd_ini::with_set(
            crate::systemd_ini::parse_spec(crate::systemd_ini::SectionsView::empty(), f),
            "Partition"@,
            "Encrypt"@,
            encrypt_value_spec(tpm),
        ),
    )
}

impl FinalInstallationState {
    /// Marks a partition definition as encrypted with a key file (and the TPM
    /// when `tpm`). The definition must read and have a `[Partition]`
    /// section. It is read and written back with this crate's own systemd
    /// INI parser and printer ([`crate::systemd_ini::SystemdIni`]), so that
    /// both steps are verified: sections and keys come out ordered by name,
    /// one `key=value` line per value.
    pub fn set_encrypt_to_file(f: &str, tpm: bool) -> (r: String)
        requires
            crate::systemd_ini::parse_ok(crate::systemd_ini::SectionsView::empty(), f@),
            crate::systemd_ini::has_section(
                crate::systemd_ini::parse_spec(crate::systemd_ini::SectionsView::empty(), f@),
                "Partition"@,
            ),
        ensures
            r@ == encrypted_definition(f@, tpm),
    {
        let mut ini = crate::systemd_ini::SystemdIni::new();
        ini.parse(f);
        let v = Self::encrypt_value(tpm);
        ini.set_value("Partition", "Encrypt", v.as_str());
        ini.to_text()
    }
}

// ───────────────────────── laws of the install plan and bootc ─────────────────────────

/// Whatever the installation (but a custom one) and the copy mode: the
/// root partition's definition is marked encrypted exactly when encryption
/// was asked for, right after the key file is written and before
/// `systemd-repart` runs.
#[verifier::spinoff_prover]
pub proof fn lemma_encryption_enabled_iff_requested(t: InstallationType, encrypt: bool, bootc: bool)
    requires
        t != InstallationType::Custom,
    ensures
        install_plan_spec(t, encrypt, bootc).contains(InstallStep::EnableEncryption) <==> encrypt,
        install_plan_spec(t, encrypt, bootc).contains(InstallStep::Repart),
        encrypt ==> exists|k: int|
            0 <= k && k + 1 < install_plan_spec(t, encrypt, bootc).len()
                && #[trigger] install_plan_spec(t, encrypt, bootc)[k] == InstallStep::WriteKeyfile
                && install_plan_spec(t, encrypt, bootc)[k + 1] == InstallStep::EnableEncryption
                && forall|j: int|
                0 <= j < install_plan_spec(t, encrypt, bootc).len() && install_plan_spec(t, encrypt, bootc)[j]
                    == InstallStep::Repart ==> k + 1 < j,
{
    let p = install_plan_spec(t, encrypt, bootc);
    let en = InstallStep::EnableEncryption;
    let a = seq![InstallStep::LayerConfigdir];
    let b: Seq<InstallStep> = if encrypt {
        seq![InstallStep::WriteKeyfile, InstallStep::EnableEncryption]
    } else {
        Seq::empty()
    };
    let c = seq![InstallStep::Repart, InstallStep::ExportConfigs];
    let d: Seq<InstallStep> = if bootc {
        seq![InstallStep::BootcCopy]
    } else {
        Seq::empty()
    };
    let e = seq![InstallStep::SetupSystem];
    let f: Seq<InstallStep> = if bootc {
        seq![InstallStep::BootcCleanup]
    } else {
        Seq::empty()
    };
    let g: Seq<InstallStep> = if t == InstallationType::ChromebookInstall {
        seq![InstallStep::FlashSubmarine, InstallStep::SetCgptFlags]
    } else {
        Seq::empty()
    };
    let h: Seq<InstallStep> = if encrypt {
        seq![InstallStep::RemoveKeyfile, InstallStep::CloseMappers]
    } else {
        Seq::empty()
    };
    assert(p == a + b + c + d + e + f + g + h);
    let tail = c + d + e + f + g + h;
    assert(p =~= (a + b) + tail);
    assert(!c.contains(en)) by { lemma_step_not_in(c, en); }
    assert(!d.contains(en)) by { lemma_step_not_in(d, en); }
    assert(!e.contains(en)) by { lemma_step_not_in(e, en); }
    assert(!f.contains(en)) by { lemma_step_not_in(f, en); }
    assert(!g.contains(en)) by { lemma_step_not_in(g, en); }
    assert(!h.contains(en)) by { lemma_step_not_in(h, en); }
    lemma_steps_not_in_concat(c, d, en);
    lemma_steps_not_in_concat(c + d, e, en);
    lemma_steps_not_in_concat(c + d + e, f, en);
    lemma_steps_not_in_concat(c + d + e + f, g, en);
    lemma_steps_not_in_concat(c + d + e + f + g, h, en);
    let ab = a + b;
    assert(p[ab.len() as int] == InstallStep::Repart);
    if encrypt {
        assert(p[1] == InstallStep::WriteKeyfile);
        assert(p[2] == InstallStep::EnableEncryption);
        assert forall|j: int| 0 <= j < p.len() && p[j] == InstallStep::Repart implies 2 < j by {
            if j < 3 {
                assert(p[j] == ab[j]);
            }
        }
        assert(0 <= 1 && 1 + 1 < p.len() && p[1] == InstallStep::WriteKeyfile && p[1int + 1]
            == InstallStep::EnableEncryption);
    } else {
        assert(!a.contains(en)) by { lemma_step_not_in(a, en); }
        assert(ab =~= a);
        lemma_steps_not_in_concat(ab, tail, en);
    }
}

proof fn lemma_steps_contains_concat(a: Seq<InstallStep>, b: Seq<InstallStep>, x: InstallStep)
    ensures
        (a + b).contains(x) <==> (a.contains(x) || b.contains(x)),
{
    if (a + b).contains(x) {
        let i = choose|i: int| 0 <= i < (a + b).len() && (a + b)[i] == x;
        if i < a.len() {
            assert(a[i] == x);
        } else {
            assert(b[i - a.len()] == x);
        }
    }
    if a.contains(x) {
        let i = choose|i: int| 0 <= i < a.len() && a[i] == x;
        assert((a + b)[i] == x);
    }
    if b.contains(x) {
        let i = choose|i: int| 0 <= i < b.len() && b[i] == x;
        assert((a + b)[a.len() + i] == x);
    }
}

proof fn lemma_small_contains(s: Seq<InstallStep>, x: InstallStep)
    requires
        s.len() <= 2,
    ensures
        s.contains(x) <==> (s.len() >= 1 && s[0] == x) || (s.len() == 2 && s[1] == x),
{
    if s.contains(x) {
        let i = choose|i: int| 0 <= i < s.len() && s[i] == x;
    }
}

/// Whatever the installation (but a custom one): it starts by layering the
/// partition definitions, always enters the new system, copies with bootc
/// and cleans up after it exactly for a bootc copy, and flashes the
/// submarine bootloader and sets the ChromeOS flags exactly for a
/// Chromebook.
#[verifier::spinoff_prover]
pub proof fn lemma_plan_steps_by_kind(t: InstallationType, encrypt: bool, bootc: bool)
    requires
        t != InstallationType::Custom,
    ensures
        install_plan_spec(t, encrypt, bootc)[0] == InstallStep::LayerConfigdir,
        install_plan_spec(t, encrypt, bootc).contains(InstallStep::SetupSystem),
        install_plan_spec(t, encrypt, bootc).contains(InstallStep::BootcCopy) <==> bootc,
        install_plan_spec(t, encrypt, bootc).contains(InstallStep::BootcCleanup) <==> bootc,
        install_plan_spec(t, encrypt, bootc).contains(InstallStep::FlashSubmarine) <==> t
            == InstallationType::ChromebookInstall,
        install_plan_spec(t, encrypt, bootc).contains(InstallStep::SetCgptFlags) <==> t
            == InstallationType::ChromebookInstall,
        !install_plan_spec(t, encrypt, bootc).contains(InstallStep::InstallCustom),
{
    let p = install_plan_spec(t, encrypt, bootc);
    let a = seq![InstallStep::LayerConfigdir];
    let b: Seq<InstallStep> = if encrypt {
        seq![InstallStep::WriteKeyfile, InstallStep::EnableEncryption]
    } else {
        Seq::empty()
    };
    let c = seq![InstallStep::Repart, InstallStep::ExportConfigs];
    let d: Seq<InstallStep> = if bootc {
        seq![InstallStep::BootcCopy]
    } else {
        Seq::empty()
    };
    let e = seq![InstallStep::SetupSystem];
    let f: Seq<InstallStep> = if bootc {
        seq![InstallStep::BootcCleanup]
    } else {
        Seq::empty()
    };
    let g: Seq<InstallStep> = if t == InstallationType::ChromebookInstall {
        seq![InstallStep::FlashSubmarine, InstallStep::SetCgptFlags]
    } else {
        Seq::empty()
    };
    let h: Seq<InstallStep> = if encrypt {
        seq![InstallStep::RemoveKeyfile, InstallStep::CloseMappers]
    } else {
        Seq::empty()
    };
    assert(p == a + b + c + d + e + f + g + h);
    assert(p[0] == InstallStep::LayerConfigdir);
    assert forall|x: InstallStep| #[trigger] p.contains(x) <==> (a.contains(x) || b.contains(x) || c.contains(x)
        || d.contains(x) || e.contains(x) || f.contains(x) || g.contains(x) || h.contains(x)) by {
        lemma_steps_contains_concat(a, b, x);
        lemma_steps_contains_concat(a + b, c, x);
        lemma_steps_contains_concat(a + b + c, d, x);
        lemma_steps_contains_concat(a + b + c + d, e, x);
        lemma_steps_contains_concat(a + b + c + d + e, f, x);
        lemma_steps_contains_concat(a + b + c + d + e + f, g, x);
        lemma_steps_contains_concat(a + b + c + d + e + f + g, h, x);
    }
    assert forall|x: InstallStep| #![trigger a.contains(x)] #![trigger b.contains(x)] true implies {
        &&& (a.contains(x) <==> (a.len() >= 1 && a[0] == x) || (a.len() == 2 && a[1] == x))
        &&& (b.contains(x) <==> (b.len() >= 1 && b[0] == x) || (b.len() == 2 && b[1] == x))
        &&& (c.contains(x) <==> (c.len() >= 1 && c[0] == x) || (c.len() == 2 && c[1] == x))
        &&& (d.contains(x) <==> (d.len() >= 1 && d[0] == x) || (d.len() == 2 && d[1] == x))
        &&& (e.contains(x) <==> (e.len() >= 1 && e[0] == x) || (e.len() == 2 && e[1] == x))
        &&& (f.contains(x) <==> (f.len() >= 1 && f[0] == x) || (f.len() == 2 && f[1] == x))
        &&& (g.contains(x) <==> (g.len() >= 1 && g[0] == x) || (g.len() == 2 && g[1] == x))
        &&& (h.contains(x) <==> (h.len() >= 1 && h[0] == x) || (h.len() == 2 && h[1] == x))
    } by {
        lemma_small_contains(a, x);
        lemma_small_contains(b, x);
        lemma_small_contains(c, x);
        lemma_small_contains(d, x);
        lemma_small_contains(e, x);
        lemma_small_contains(f, x);
        lemma_small_contains(g, x);
        lemma_small_contains(h, x);
    }
    assert(p.contains(InstallStep::SetupSystem) <==> true) by {
        lemma_small_contains(e, InstallStep::SetupSystem);
    }
    let bc = InstallStep::BootcCopy;
    let bu = InstallStep::BootcCleanup;
    let fs = InstallStep::FlashSubmarine;
    let cg = InstallStep::SetCgptFlags;
    let ic = InstallStep::InstallCustom;
    assert(p.contains(bc) <==> bootc);
    assert(p.contains(bu) <==> bootc);
    assert(p.contains(fs) <==> t == InstallationType::ChromebookInstall);
    assert(p.contains(cg) <==> t == InstallationType::ChromebookInstall);
    assert(!p.contains(ic));
}

proof fn lemma_step_not_in(s: Seq<InstallStep>, x: InstallStep)
    requires
        forall|i: int| 0 <= i < s.len() ==> s[i] != x,
    ensures
        !s.contains(x),
{
}

proof fn lemma_steps_not_in_concat(a: Seq<InstallStep>, b: Seq<InstallStep>, x: InstallStep)
    requires
        !a.contains(x),
        !b.contains(x),
    ensures
        !(a + b).contains(x),
{
    if (a + b).contains(x) {
        let i = choose|i: int| 0 <= i < (a + b).len() && (a + b)[i] == x;
        if i < a.len() {
            assert(a[i] == x);
        } else {
            assert(b[i - a.len()] == x);
        }
    }
}

proof fn lemma_not_in_karg_pairs(opts: Seq<Seq<char>>, x: Seq<char>)
    requires
        x != "--karg"@,
        !opts.contains(x),
    ensures
        !karg_pairs(opts).contains(x),
    decreases opts.len(),
{
    if opts.len() > 0 {
        let d = opts.drop_last();
        if d.contains(x) {
            let i = choose|i: int| 0 <= i < d.len() && d[i] == x;
            assert(opts[i] == x);
        }
        lemma_not_in_karg_pairs(d, x);
        let k = karg_pairs(opts);
        assert(k =~= karg_pairs(d) + seq!["--karg"@, opts.last()]);
        if k.contains(x) {
            let i = choose|i: int| 0 <= i < k.len() && k[i] == x;
            if i < karg_pairs(d).len() {
                assert(karg_pairs(d)[i] == x);
            } else if i == karg_pairs(d).len() {
            } else {
                assert(opts[opts.len() - 1] == x);
            }
        }
    }
}

proof fn lemma_not_in_concat(a: Seq<Seq<char>>, b: Seq<Seq<char>>, x: Seq<char>)
    requires
        !a.contains(x),
        !b.contains(x),
    ensures
        !(a + b).contains(x),
{
    if (a + b).contains(x) {
        let i = choose|i: int| 0 <= i < (a + b).len() && (a + b)[i] == x;
        if i < a.len() {
            assert(a[i] == x);
        } else {
            assert(b[i - a.len()] == x);
        }
    }
}

/// `bootc install to-filesystem` is told to enforce the container
/// signature policy exactly when the configuration asks for it (when no
/// value that the configuration or the caller gives is that flag itself).
#[verifier::spinoff_prover]
pub proof fn lemma_sigpolicy_flag_iff_configured(
    imgref: Seq<char>,
    crypt_opts: Seq<Seq<char>>,
    target_root: Seq<char>,
    target_imgref: Option<Seq<char>>,
    kargs: Seq<Seq<char>>,
    enforce_sigpolicy: bool,
    args: Seq<Seq<char>>,
)
    requires
        imgref != "--enforce-container-sigpolicy"@,
        target_root != "--enforce-container-sigpolicy"@,
        target_imgref != Some("--enforce-container-sigpolicy"@),
        !crypt_opts.contains("--enforce-container-sigpolicy"@),
        !kargs.contains("--enforce-container-sigpolicy"@),
        !args.contains("--enforce-container-sigpolicy"@),
    ensures
        bootc_args_spec(imgref, crypt_opts, target_root, target_imgref, kargs, enforce_sigpolicy, args).contains(
            "--enforce-container-sigpolicy"@,
        ) <==> enforce_sigpolicy,
{
    let f = "--enforce-container-sigpolicy"@;
    reveal_strlit("--enforce-container-sigpolicy");
    reveal_strlit("--karg");
    reveal_strlit("install");
    reveal_strlit("to-filesystem");
    reveal_strlit("--source-imgref");
    reveal_strlit("--karg=rhgb");
    reveal_strlit("--karg=quiet");
    reveal_strlit("--karg=splash");
    reveal_strlit("--target-imgref");
    let a = seq!["install"@, "to-filesystem"@, "--source-imgref"@, imgref];
    let k1 = karg_pairs(crypt_opts);
    let b = seq!["--karg=rhgb"@, "--karg=quiet"@, "--karg=splash"@];
    let c = seq![target_root];
    let t = match target_imgref {
        Some(x) => seq!["--target-imgref"@, x],
        None => Seq::empty(),
    };
    let k2 = karg_pairs(kargs);
    let e = if enforce_sigpolicy {
        seq![f]
    } else {
        Seq::empty()
    };
    assert("install"@.len() != f.len());
    assert("to-filesystem"@.len() != f.len());
    assert("--source-imgref"@.len() != f.len());
    assert("--karg=rhgb"@.len() != f.len());
    assert("--karg=quiet"@.len() != f.len());
    assert("--karg=splash"@.len() != f.len());
    assert("--target-imgref"@.len() != f.len());
    assert("--karg"@.len() != f.len());
    assert(!a.contains(f)) by {
        if a.contains(f) {
            let i = choose|i: int| 0 <= i < a.len() && a[i] == f;
        }
    }
    lemma_not_in_karg_pairs(crypt_opts, f);
    assert(!b.contains(f)) by {
        if b.contains(f) {
            let i = choose|i: int| 0 <= i < b.len() && b[i] == f;
        }
    }
    assert(!c.contains(f)) by {
        if c.contains(f) {
            let i = choose|i: int| 0 <= i < c.len() && c[i] == f;
        }
    }
    assert(!t.contains(f)) by {
        if t.contains(f) {
            let i = choose|i: int| 0 <= i < t.len() && t[i] == f;
        }
    }
    lemma_not_in_karg_pairs(kargs, f);
    let before = a + k1 + b + c + t + k2;
    lemma_not_in_concat(a, k1, f);
    lemma_not_in_concat(a + k1, b, f);
    lemma_not_in_concat(a + k1 + b, c, f);
    lemma_not_in_concat(a + k1 + b + c, t, f);
    lemma_not_in_concat(before, k2, f);
    let all = bootc_args_spec(imgref, crypt_opts, target_root, target_imgref, kargs, enforce_sigpolicy, args);
    assert(all =~= before + e + args);
    if enforce_sigpolicy {
        assert(all[before.len() as int] == f);
    } else {
        assert(e =~= Seq::<Seq<char>>::empty());
        assert(before + e =~= before);
        lemma_not_in_concat(before, args, f);
    }
}

/// The `i`-th pair of `karg_pairs(opts)`.
spec fn karg_pair_at(opts: Seq<Seq<char>>, i: int) -> (Seq<char>, Seq<char>) {
    (karg_pairs(opts)[2 * i], karg_pairs(opts)[2 * i + 1])
}

proof fn lemma_karg_pairs_index(opts: Seq<Seq<char>>)
    ensures
        karg_pairs(opts).len() == 2 * opts.len(),
        forall|i: int| 0 <= i < opts.len() ==> #[trigger] karg_pair_at(opts, i) === ("--karg"@, opts[i]),
    decreases opts.len(),
{
    if opts.len() > 0 {
        let d = opts.drop_last();
        lemma_karg_pairs_index(d);
        let k = karg_pairs(opts);
        assert(k =~= karg_pairs(d) + seq!["--karg"@, opts.last()]);
        assert forall|i: int| 0 <= i < opts.len() implies #[trigger] karg_pair_at(opts, i) === ("--karg"@, opts[i]) by {
            if i < d.len() {
                assert(karg_pair_at(d, i) === ("--karg"@, d[i]));
                assert(d[i] == opts[i]);
                assert(k[2 * i] == karg_pairs(d)[2 * i]);
                assert(k[2 * i + 1] == karg_pairs(d)[2 * i + 1]);
            } else {
                assert(2 * i == karg_pairs(d).len());
                assert(k[2 * i] === "--karg"@);
                assert(k[2 * i + 1] == opts.last());
            }
        }
    }
}

/// What `bootc install to-filesystem` is given: the source image first,
/// every kernel option of the LUKS devices and of the configuration after a
/// `--karg`, the target root, the target image after `--target-imgref` when
/// one is configured, and the configuration's extra arguments last, as
/// they are.
#[verifier::spinoff_prover]
pub proof fn lemma_bootc_args_carry_configuration(
    imgref: Seq<char>,
    crypt_opts: Seq<Seq<char>>,
    target_root: Seq<char>,
    target_imgref: Option<Seq<char>>,
    kargs: Seq<Seq<char>>,
    enforce_sigpolicy: bool,
    args: Seq<Seq<char>>,
)
    ensures
        ({
            let all = bootc_args_spec(imgref, crypt_opts, target_root, target_imgref, kargs, enforce_sigpolicy, args);
            &&& all.take(4) == seq!["install"@, "to-filesystem"@, "--source-imgref"@, imgref]
            &&& all.contains(target_root)
            &&& all.len() >= args.len() && all.skip(all.len() - args.len()) == args
            &&& forall|i: int| #![trigger crypt_opts[i]] 0 <= i < crypt_opts.len() ==> exists|k: int|
                0 <= k && k + 1 < all.len() && #[trigger] all[k] == "--karg"@ && all[k + 1] == crypt_opts[i]
            &&& forall|i: int| #![trigger kargs[i]] 0 <= i < kargs.len() ==> exists|k: int|
                0 <= k && k + 1 < all.len() && #[trigger] all[k] == "--karg"@ && all[k + 1] == kargs[i]
            &&& target_imgref matches Some(x) ==> exists|k: int|
                0 <= k && k + 1 < all.len() && #[trigger] all[k] == "--target-imgref"@ && all[k + 1] == x
        }),
{
    let all = bootc_args_spec(imgref, crypt_opts, target_root, target_imgref, kargs, enforce_sigpolicy, args);
    let a = seq!["install"@, "to-filesystem"@, "--source-imgref"@, imgref];
    let k1 = karg_pairs(crypt_opts);
    let b = seq!["--karg=rhgb"@, "--karg=quiet"@, "--karg=splash"@];
    let c = seq![target_root];
    let t: Seq<Seq<char>> = match target_imgref {
        Some(x) => seq!["--target-imgref"@, x],
        None => Seq::empty(),
    };
    let k2 = karg_pairs(kargs);
    let e: Seq<Seq<char>> = if enforce_sigpolicy {
        seq!["--enforce-container-sigpolicy"@]
    } else {
        Seq::empty()
    };
    let pre = a + k1 + b + c + t + k2 + e;
    reveal_strlit("--karg");
    reveal_strlit("--target-imgref");
    reveal_strlit("install");
    reveal_strlit("to-filesystem");
    reveal_strlit("--source-imgref");
    assert(all =~= pre + args);
    lemma_karg_pairs_index(crypt_opts);
    lemma_karg_pairs_index(kargs);
    assert(all.take(4) =~= a);
    let rootpos = (a.len() + k1.len() + b.len()) as int;
    assert(all[rootpos] == target_root);
    assert(all.skip(all.len() - args.len()) =~= args);
    assert forall|i: int| #![trigger crypt_opts[i]] 0 <= i < crypt_opts.len() implies exists|k: int|
        0 <= k && k + 1 < all.len() && #[trigger] all[k] == "--karg"@ && all[k + 1] == crypt_opts[i] by {
        let k = 4 + 2 * i;
        assert(karg_pair_at(crypt_opts, i) === ("--karg"@, crypt_opts[i]));
        assert(all[k] == k1[2 * i]);
        assert(all[k + 1] == k1[2 * i + 1]);
    }
    let kpos = (a.len() + k1.len() + b.len() + c.len() + t.len()) as int;
    assert forall|i: int| #![trigger kargs[i]] 0 <= i < kargs.len() implies exists|k: int|
        0 <= k && k + 1 < all.len() && #[trigger] all[k] == "--karg"@ && all[k + 1] == kargs[i] by {
        let k = kpos + 2 * i;
        assert(karg_pair_at(kargs, i) === ("--karg"@, kargs[i]));
        assert(all[k] == k2[2 * i]);
        assert(all[k + 1] == k2[2 * i + 1]);
    }
    if let Some(x) = target_imgref {
        let k = rootpos + 1;
        assert(all[k] == "--target-imgref"@);
        assert(all[k + 1] == x);
    }
}

} // verus!
