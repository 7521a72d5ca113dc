//! Modules that run inside the installed system after the files are copied:
//! what each of them decides and writes. Running the commands is the caller's.
use crate::repart_output::CryptData;
use crate::text::{
    chars_of, dec, dec_chars, has_prefix, owned, push_chars, starts_with, strs,
};
use vstd::prelude::*;

verus! {

/// What the modules are told about the installation.
pub struct Context {
    pub destination_disk: String,
    pub uefi: bool,
    pub esp_partition: Option<String>,
    /// Installs always have an XBOOTLDR partition.
    pub xbootldr_partition: String,
    pub lang: String,
    pub crypt_data: Option<CryptData>,
    pub distro_name: String,
}

#[derive(Debug, Clone, Copy, PartialEq, Eq, Structural)]
pub struct SELinux;

#[derive(Debug, Clone, Copy, PartialEq, Eq, Structural)]
pub struct Dracut;

#[derive(Debug, Clone, Copy, PartialEq, Eq, Structural)]
pub struct ReinstallKernel;

#[derive(Debug, Clone, Copy, PartialEq, Eq, Structural)]
pub struct GRUB2;

#[derive(Debug, Clone, Copy, PartialEq, Eq, Structural)]
pub struct CleanupBoot;

#[derive(Debug, Clone, Copy, PartialEq, Eq, Structural)]
pub struct PrepareFedora;

/// Generate an EFI stub for the bootloader.
#[derive(Debug, Clone, Copy, PartialEq, Eq, Structural)]
pub struct EfiStub;

#[derive(Debug, Clone, Copy, PartialEq, Eq, Structural)]
pub struct InitialSetup;

#[derive(Debug, Clone, Copy, PartialEq, Eq, Structural)]
pub struct Language;

#[derive(Debug, Clone, Copy, PartialEq, Eq, Structural)]
pub struct CryptSetup;

/// Install NVIDIA and Broadcom drivers.
#[derive(Debug, Clone, Copy, PartialEq, Eq, Structural)]
pub struct Drivers;

/// Run the distribution's own post-installation scripts.
#[derive(Debug, Clone, Copy, PartialEq, Eq, Structural)]
pub struct Script;

/// A post-installation module named in the configuration.
#[derive(Debug, Clone, Copy, PartialEq, Eq, Structural)]
pub enum Module {
    SELinux(SELinux),
    Dracut(Dracut),
    ReinstallKernel(ReinstallKernel),
    GRUB2(GRUB2),
    CleanupBoot(CleanupBoot),
    PrepareFedora(PrepareFedora),
    EfiStub(EfiStub),
    InitialSetup(InitialSetup),
    Language(Language),
    CryptSetup(CryptSetup),
}

// ───────────────────────── cleanup of /boot ─────────────────────────

impl CleanupBoot {
    /// Whether a file in `/boot` is a kernel or an initramfs, to be removed.
    pub fn is_kernel_file(name: &str) -> (r: bool)
        ensures
            r == (has_prefix(name@, "initramfs"@) || has_prefix(name@, "vmlinuz"@)),
    {
        let n = chars_of(name);
        starts_with(&n, &chars_of("initramfs")) || starts_with(&n, &chars_of("vmlinuz"))
    }
}

// ───────────────────────── dracut ─────────────────────────

impl Dracut {
    /// The arguments of `dracut`: a host-only, stripped initramfs for every kernel.
    pub fn args() -> (r: Vec<String>)
        ensures
            strs(r@) == seq![
                "--force"@,
                "--parallel"@,
                "--regenerate-all"@,
                "--hostonly"@,
                "--strip"@,
                "--aggressive-strip"@,
            ],
    {
        let mut r = Vec::new();
        r.push(owned("--force"));
        r.push(owned("--parallel"));
        r.push(owned("--regenerate-all"));
        r.push(owned("--hostonly"));
        r.push(owned("--strip"));
        r.push(owned("--aggressive-strip"));
        proof {
            assert(strs(r@) =~= seq![
                "--force"@,
                "--parallel"@,
                "--regenerate-all"@,
                "--hostonly"@,
                "--strip"@,
                "--aggressive-strip"@,
            ]);
        }
        r
    }
}

// ───────────────────────── NVIDIA drivers ─────────────────────────

/// Chipset prefixes and the last driver that supports them; a chipset that
/// matches none is supported by the latest driver.
pub open spec fn nvidia_prefixes() -> Seq<(Seq<char>, Seq<char>)> {
    seq![
        (seq!['N', 'V'], "unsupported"@),
        (seq!['M', 'C', 'P'], "unsupported"@),
        (seq!['G', '7'], "unsupported"@),
        (seq!['G', '8'], "340xx"@),
        (seq!['G', '9'], "340xx"@),
        (seq!['G', 'T'], "340xx"@),
        (seq!['G', 'F'], "390xx"@),
        (seq!['G', 'K'], "470xx"@),
    ]
}

/// The latest driver that supports the chipset.
pub open spec fn nvidia_driver(chipset: Seq<char>) -> Seq<char> {
    let t = nvidia_prefixes();
    if exists|i: int| 0 <= i < t.len() && has_prefix(chipset, #[trigger] t[i].0) {
        let i = choose|i: int| 0 <= i < t.len() && has_prefix(chipset, #[trigger] t[i].0);
        t[i].1
    } else {
        "latest"@
    }
}

/// No chipset starts with two prefixes of the table: which entry matches does
/// not depend on the order in which the table is searched.
pub proof fn lemma_nvidia_prefixes_disjoint(chipset: Seq<char>, i: int, j: int)
    requires
        0 <= i < nvidia_prefixes().len(),
        0 <= j < nvidia_prefixes().len(),
        has_prefix(chipset, nvidia_prefixes()[i].0),
        has_prefix(chipset, nvidia_prefixes()[j].0),
    ensures
        i == j,
{
    let t = nvidia_prefixes();
    assert(chipset.take(t[i].0.len() as int) == t[i].0);
    assert(chipset.take(t[j].0.len() as int) == t[j].0);
    assert(chipset[0] == t[i].0[0]);
    assert(chipset[0] == t[j].0[0]);
    assert(chipset[1] == t[i].0[1]);
    assert(chipset[1] == t[j].0[1]);
}

impl Drivers {
    /// Returns the latest supported driver for the given chipset.
    pub fn get_nvidia_driver(chipset: &str) -> (r: &'static str)
        ensures
            r@ == nvidia_driver(chipset@),
    {
        let c = chars_of(chipset);
        let t: [([char; 3], usize, &'static str); 8] = [
            (['N', 'V', ' '], 2, "unsupported"),
            (['M', 'C', 'P'], 3, "unsupported"),
            (['G', '7', ' '], 2, "unsupported"),
            (['G', '8', ' '], 2, "340xx"),
            (['G', '9', ' '], 2, "340xx"),
            (['G', 'T', ' '], 2, "340xx"),
            (['G', 'F', ' '], 2, "390xx"),
            (['G', 'K', ' '], 2, "470xx"),
        ];
        let ghost spec_t = nvidia_prefixes();
        proof {
            assert forall|i: int| 0 <= i < 8 implies #[trigger] t@[i].0@.take(t@[i].1 as int)
                == spec_t[i].0 && t@[i].2@ == spec_t[i].1 && t@[i].1 <= 3 by {
                assert(t@[i].0@.take(t@[i].1 as int) =~= spec_t[i].0);
            }
        }
        let mut i: usize = 0;
        while i < 8
            invariant
                i <= 8,
                c@ == chipset@,
                spec_t == nvidia_prefixes(),
                forall|j: int| 0 <= j < 8 ==> #[trigger] t@[j].0@.take(t@[j].1 as int)
                    == spec_t[j].0 && t@[j].2@ == spec_t[j].1 && t@[j].1 <= 3,
                forall|j: int| 0 <= j < i ==> !has_prefix(chipset@, #[trigger] spec_t[j].0),
            decreases 8 - i,
        {
            let (p, n, d) = t[i];
            proof {

                assert(p@.len() == 3);
                assert(n == t@[i as int].1);
            }
            let pre: Vec<char> = if n == 2 {
                vec![p[0], p[1]]
            } else {
                vec![p[0], p[1], p[2]]
            };
            proof {
                assert(t@[i as int].0@.take(n as int) == spec_t[i as int].0);
                assert(pre@ =~= p@.take(n as int));
            }
            if starts_with(&c, &pre) {
                proof {
                    assert(has_prefix(chipset@, spec_t[i as int].0));
                    let k = choose|k: int|
                        0 <= k < spec_t.len() && has_prefix(chipset@, #[trigger] spec_t[k].0);
                    lemma_nvidia_prefixes_disjoint(chipset@, i as int, k);
                }
                return d;
            }
            i = i + 1;
        }
        "latest"
    }

    /// The packages to install for the chipset: the firmware and the VA-API
    /// driver, then nothing for an unsupported chipset, the current driver
    /// packages, or those of the legacy driver series.
    pub fn list_nvidia_packages(chipset: &str) -> (r: Vec<String>)
        ensures
            strs(r@) == seq!["nvidia-gpu-firmware"@, "libva-nvidia-driver"@] + nvidia_driver_packages(
                nvidia_driver(chipset@),
            ),
    {
        let mut pkgs = Vec::new();
        pkgs.push(owned("nvidia-gpu-firmware"));
        pkgs.push(owned("libva-nvidia-driver"));
        let d = Self::get_nvidia_driver(chipset);
        let dv = chars_of(d);
        let mut extra = driver_packages(&dv);
        let ghost p0 = strs(pkgs@);
        let ghost e0 = strs(extra@);
        pkgs.append(&mut extra);
        proof {
            assert(p0 =~= seq!["nvidia-gpu-firmware"@, "libva-nvidia-driver"@]);
            assert(strs(pkgs@) =~= p0 + e0);
        }
        pkgs
    }

    /// The chipset name in the output of the `lspci` pipeline: the bytes after
    /// the last space.
    pub fn chipset_from_output(stdout: &[u8]) -> (r: Vec<u8>)
        ensures
            r@ == last_field(stdout@),
    {
        let mut k: usize = stdout.len();
        while k > 0 && stdout[k - 1] != 32u8
            invariant
                k <= stdout@.len(),
                forall|j: int| k <= j < stdout@.len() ==> stdout@[j] != 32u8,
            decreases k,
        {
            k = k - 1;
        }
        let mut r: Vec<u8> = Vec::new();
        let mut i = k;
        while i < stdout.len()
            invariant
                k <= i <= stdout@.len(),
                r@ == stdout@.subrange(k as int, i as int),
            decreases stdout@.len() - i,
        {
            r.push(stdout[i]);
            proof {
                assert(stdout@.subrange(k as int, i + 1) =~= stdout@.subrange(k as int, i as int).push(
                    stdout@[i as int],
                ));
            }
            i = i + 1;
        }
        proof {
            lemma_last_field(stdout@, k as int);
        }
        r
    }
}

/// The bytes after the last space (all of them if there is none).
pub open spec fn last_field(s: Seq<u8>) -> Seq<u8>
    decreases s.len(),
{
    if s.len() == 0 {
        s
    } else if s.last() == 32u8 {
        Seq::empty()
    } else {
        last_field(s.drop_last()).push(s.last())
    }
}

proof fn lemma_last_field(s: Seq<u8>, k: int)
    requires
        0 <= k <= s.len(),
        forall|j: int| k <= j < s.len() ==> s[j] != 32u8,
        k > 0 ==> s[k - 1] == 32u8,
    ensures
        last_field(s) == s.subrange(k, s.len() as int),
    decreases s.len() - k,
{
    if s.len() > k {
        lemma_last_field(s.drop_last(), k);
        assert(s.subrange(k, s.len() as int) =~= s.drop_last().subrange(k, s.len() - 1).push(
            s.last(),
        ));
    } else if k > 0 {
        assert(s.subrange(k, s.len() as int) =~= Seq::<u8>::empty());
    } else {
        assert(s.subrange(k, s.len() as int) =~= s);
    }
}

/// The driver packages of a driver series.
pub open spec fn nvidia_driver_packages(d: Seq<char>) -> Seq<Seq<char>> {
    if d == "unsupported"@ {
        Seq::empty()
    } else if d == "latest"@ {
        seq!["akmod-nvidia"@, "xorg-x11-drv-nvidia"@, "xorg-x11-drv-nvidia-cuda"@]
    } else {
        seq![
            "akmod-nvidia-"@ + d,
            "xorg-x11-drv-nvidia-"@ + d,
            "xorg-x11-drv-nvidia-"@ + d + "-cuda"@,
        ]
    }
}

fn driver_packages(d: &Vec<char>) -> (r: Vec<String>)
    ensures
        strs(r@) == nvidia_driver_packages(d@),
{
    let mut r = Vec::new();
    if crate::text::chars_eq(d, &chars_of("unsupported")) {
        proof {
            assert(strs(r@) =~= Seq::<Seq<char>>::empty());
        }
    } else if crate::text::chars_eq(d, &chars_of("latest")) {
        r.push(owned("akmod-nvidia"));
        r.push(owned("xorg-x11-drv-nvidia"));
        r.push(owned("xorg-x11-drv-nvidia-cuda"));
        proof {
            assert(strs(r@) =~= seq!["akmod-nvidia"@, "xorg-x11-drv-nvidia"@, "xorg-x11-drv-nvidia-cuda"@]);
        }
    } else {
        let mut a = owned("akmod-nvidia-");
        push_chars(&mut a, d);
        let mut b = owned("xorg-x11-drv-nvidia-");
        push_chars(&mut b, d);
        let mut c = owned("xorg-x11-drv-nvidia-");
        push_chars(&mut c, d);
        push_chars(&mut c, &chars_of("-cuda"));
        r.push(a);
        r.push(b);
        r.push(c);
        proof {
            assert(strs(r@) =~= seq![
                "akmod-nvidia-"@ + d@,
                "xorg-x11-drv-nvidia-"@ + d@,
                "xorg-x11-drv-nvidia-"@ + d@ + "-cuda"@,
            ]);
        }
    }
    r
}

// ───────────────────────── EFI boot entry ─────────────────────────

/// `\EFI\fedora\shimx64.efi` on x86-64, else `\EFI\fedora\shimaa64.efi`.
pub fn shim_path(is_x86_64: bool) -> (r: &'static str)
    ensures
        r@ == if is_x86_64 {
            "\\EFI\\fedora\\shimx64.efi"@
        } else {
            "\\EFI\\fedora\\shimaa64.efi"@
        },
{
    if is_x86_64 {
        "\\EFI\\fedora\\shimx64.efi"
    } else {
        "\\EFI\\fedora\\shimaa64.efi"
    }
}

impl EfiStub {
    /// What the module does: nothing on a BIOS system (`Ok(None)`), fail
    /// without an ESP, else create a boot entry for the ESP (`Ok(Some(esp))`).
    pub fn plan(context: &Context) -> (r: Result<Option<String>, String>)
        ensures
            !context.uefi ==> r is Ok && r->Ok_0 is None,
            context.uefi && context.esp_partition is None ==> r is Err && r->Err_0@
                == "No ESP partition found, cannot generate EFI stub"@,
            context.uefi && context.esp_partition is Some ==> r is Ok && r->Ok_0 is Some
                && r->Ok_0->0@ == context.esp_partition->0@,
    {
        if !context.uefi {
            return Ok(None);
        }
        match &context.esp_partition {
            Some(esp) => Ok(Some(esp.clone())),
            None => Err(owned("No ESP partition found, cannot generate EFI stub")),
        }
    }

    /// The arguments of `efibootmgr` that create the boot entry.
    pub fn efibootmgr_args(disk: &str, part: u64, label: &str, loader: &str) -> (r: Vec<String>)
        ensures
            strs(r@) == seq![
                "--create"@,
                "--disk"@,
                disk@,
                "--part"@,
                dec(part as nat),
                "--label"@,
                label@,
                "--loader"@,
                loader@,
            ],
    {
        let mut r = Vec::new();
        r.push(owned("--create"));
        r.push(owned("--disk"));
        r.push(owned(disk));
        r.push(owned("--part"));
        r.push(crate::text::dec_string(part));
        r.push(owned("--label"));
        r.push(owned(label));
        r.push(owned("--loader"));
        r.push(owned(loader));
        proof {
            assert(strs(r@) =~= seq![
                "--create"@,
                "--disk"@,
                disk@,
                "--part"@,
                dec(part as nat),
                "--label"@,
                label@,
                "--loader"@,
                loader@,
            ]);
        }
        r
    }
}

// ───────────────────────── GRUB ─────────────────────────

/// The settings written to `/etc/default/grub`.
#[derive(Clone, Debug)]
pub struct Grub2Defaults {
    pub timeout: u32,
    pub distributor: String,
    pub default: String,
    pub disable_submenu: bool,
    pub terminal_output: String,
    pub cmdline_linux: String,
    pub disable_recovery: bool,
    pub enable_blsconfig: bool,
}

/// How `bool` is displayed.
pub open spec fn bool_text(b: bool) -> Seq<char> {
    if b {
        "true"@
    } else {
        "false"@
    }
}

fn bool_chars(b: bool) -> (r: Vec<char>)
    ensures
        r@ == bool_text(b),
{
    if b {
        chars_of("true")
    } else {
        chars_of("false")
    }
}

/// The text of `/etc/default/grub`.
pub open spec fn grub_defaults_text(d: Grub2Defaults) -> Seq<char> {
    "GRUB_TIMEOUT="@ + dec(d.timeout as nat) + "\nGRUB_DISTRIBUTOR=\""@ + d.distributor@
        + "\"\nGRUB_DEFAULT="@ + d.default@ + "\nGRUB_TERMINAL_OUTPUT=\""@ + d.terminal_output@
        + "\"\nGRUB_DISABLE_SUBMENU="@ + bool_text(d.disable_submenu) + "\nGRUB_CMDLINE_LINUX=\""@
        + d.cmdline_linux@ + "\"\nGRUB_DISABLE_RECOVERY=\""@ + bool_text(d.disable_recovery)
        + "\"\nGRUB_ENABLE_BLSCFG="@ + bool_text(d.enable_blsconfig) + "\n"@
}

impl Default for Grub2Defaults {
    fn default() -> (r: Self)
        ensures
            r.timeout == 5,
            r.distributor@ == "$(sed 's, release .*$,,g' /etc/system-release)"@,
            r.default@ == "saved"@,
            r.disable_submenu,
            r.terminal_output@ == "console"@,
            r.disable_recovery,
            r.enable_blsconfig,
            r.cmdline_linux@ == "rhgb quiet"@,
    {
        Self {
            timeout: 5,
            distributor: owned("$(sed 's, release .*$,,g' /etc/system-release)"),
            default: owned("saved"),
            disable_submenu: true,
            terminal_output: owned("console"),
            disable_recovery: true,
            enable_blsconfig: true,
            cmdline_linux: owned("rhgb quiet"),
        }
    }
}

impl Grub2Defaults {
    /// The text of `/etc/default/grub`.
    pub fn generate(&self) -> (r: String)
        ensures
            r@ == grub_defaults_text(*self),
    {
        let mut s = owned("GRUB_TIMEOUT=");
        push_chars(&mut s, &dec_chars(self.timeout as u64));
        push_chars(&mut s, &chars_of("\nGRUB_DISTRIBUTOR=\""));
        push_chars(&mut s, &chars_of(self.distributor.as_str()));
        push_chars(&mut s, &chars_of("\"\nGRUB_DEFAULT="));
        push_chars(&mut s, &chars_of(self.default.as_str()));
        push_chars(&mut s, &chars_of("\nGRUB_TERMINAL_OUTPUT=\""));
        push_chars(&mut s, &chars_of(self.terminal_output.as_str()));
        push_chars(&mut s, &chars_of("\"\nGRUB_DISABLE_SUBMENU="));
        push_chars(&mut s, &bool_chars(self.disable_submenu));
        push_chars(&mut s, &chars_of("\nGRUB_CMDLINE_LINUX=\""));
        push_chars(&mut s, &chars_of(self.cmdline_linux.as_str()));
        push_chars(&mut s, &chars_of("\"\nGRUB_DISABLE_RECOVERY=\""));
        push_chars(&mut s, &bool_chars(self.disable_recovery));
        push_chars(&mut s, &chars_of("\"\nGRUB_ENABLE_BLSCFG="));
        push_chars(&mut s, &bool_chars(self.enable_blsconfig));
        push_chars(&mut s, &chars_of("\n"));
        proof {
            assert(s@ =~= grub_defaults_text(*self));
        }
        s
    }
}

impl GRUB2 {
    /// The arguments of `grub2-install` for a BIOS system.
    pub fn bios_install_args(disk: &str) -> (r: Vec<String>)
        ensures
            strs(r@) == seq![
                "--target=i386-pc"@,
                "--recheck"@,
                "--boot-directory=/boot"@,
                "--force"@,
                disk@,
            ],
    {
        let mut r = Vec::new();
        r.push(owned("--target=i386-pc"));
        r.push(owned("--recheck"));
        r.push(owned("--boot-directory=/boot"));
        r.push(owned("--force"));
        r.push(owned(disk));
        proof {
            assert(strs(r@) =~= seq![
                "--target=i386-pc"@,
                "--recheck"@,
                "--boot-directory=/boot"@,
                "--force"@,
                disk@,
            ]);
        }
        r
    }
}

// ───────────────────────── locale ─────────────────────────

/// The text of `/etc/locale.conf` for a language: the UTF-8 locale for
/// `LANG`, `LANGUAGE` and `LC_MESSAGES`.
pub open spec fn locale_conf_text(lang: Seq<char>) -> Seq<char> {
    let l = lang + ".UTF-8"@;
    "LANG="@ + l + "\nLANGUAGE="@ + l + "\nLC_MESSAGES="@ + l
}

impl Language {
    /// The text of `/etc/locale.conf`.
    pub fn locale_conf(lang: &str) -> (r: String)
        ensures
            r@ == locale_conf_text(lang@),
    {
        let mut l = chars_of(lang);
        crate::text::extend_chars(&mut l, &chars_of(".UTF-8"));
        let mut s = owned("LANG=");
        push_chars(&mut s, &l);
        push_chars(&mut s, &chars_of("\nLANGUAGE="));
        push_chars(&mut s, &l);
        push_chars(&mut s, &chars_of("\nLC_MESSAGES="));
        push_chars(&mut s, &l);
        proof {
            assert(s@ =~= locale_conf_text(lang@));
        }
        s
    }
}

// ───────────────────────── kernel ─────────────────────────

impl ReinstallKernel {
    /// The kernel to install: the first version found under `/lib/modules`.
    pub fn pick_kernel(versions: &Vec<String>) -> (r: Result<String, String>)
        ensures
            versions@.len() > 0 ==> r is Ok && r->Ok_0@ == versions@[0]@,
            versions@.len() == 0 ==> r is Err && r->Err_0@
                == "No kernel versions found in /lib/modules"@,
    {
        if versions.len() > 0 {
            Ok(versions[0].clone())
        } else {
            Err(owned("No kernel versions found in /lib/modules"))
        }
    }

    /// `/lib/modules/{kver}/vmlinuz`.
    pub fn vmlinuz_path(kver: &str) -> (r: String)
        ensures
            r@ == "/lib/modules/"@ + kver@ + "/vmlinuz"@,
    {
        let mut s = owned("/lib/modules/");
        push_chars(&mut s, &chars_of(kver));
        push_chars(&mut s, &chars_of("/vmlinuz"));
        s
    }

    /// The arguments of `kernel-install`.
    pub fn kernel_install_args(kver: &str, vmlinuz: &str) -> (r: Vec<String>)
        ensures
            strs(r@) == seq!["add"@, kver@, vmlinuz@, "--verbose"@],
    {
        let mut r = Vec::new();
        r.push(owned("add"));
        r.push(owned(kver));
        r.push(owned(vmlinuz));
        r.push(owned("--verbose"));
        proof {
            assert(strs(r@) =~= seq!["add"@, kver@, vmlinuz@, "--verbose"@]);
        }
        r
    }

    /// The arguments of `dracut` for the recovery initramfs.
    pub fn recovery_dracut_args(kver: &str) -> (r: Vec<String>)
        ensures
            strs(r@) == seq![
                "--force"@,
                "--add"@,
                "dmsquash-live overlayfs rescue"@,
                "--no-hostonly"@,
                "--no-uefi"@,
                "--kver"@,
                kver@,
                "/boot/initramfs-recovery.img"@,
            ],
    {
        let mut r = Vec::new();
        r.push(owned("--force"));
        r.push(owned("--add"));
        r.push(owned("dmsquash-live overlayfs rescue"));
        r.push(owned("--no-hostonly"));
        r.push(owned("--no-uefi"));
        r.push(owned("--kver"));
        r.push(owned(kver));
        r.push(owned("/boot/initramfs-recovery.img"));
        proof {
            assert(strs(r@) =~= seq![
                "--force"@,
                "--add"@,
                "dmsquash-live overlayfs rescue"@,
                "--no-hostonly"@,
                "--no-uefi"@,
                "--kver"@,
                kver@,
                "/boot/initramfs-recovery.img"@,
            ]);
        }
        r
    }
}

/// A step of reinstalling the kernel.
#[derive(Debug, Clone, PartialEq, Eq)]
pub enum KernelStep {
    /// Run `kernel-install` with these arguments.
    KernelInstall(Vec<String>),
    /// Copy the kernel from the first path to the second.
    Copy(String, String),
    /// Run `dracut` with these arguments.
    Dracut(Vec<String>),
}

/// A [`KernelStep`] as plain values.
pub enum KernelStepView {
    KernelInstall(Seq<Seq<char>>),
    Copy(Seq<char>, Seq<char>),
    Dracut(Seq<Seq<char>>),
}

pub open spec fn kernel_step_view(s: KernelStep) -> KernelStepView {
    match s {
        KernelStep::KernelInstall(a) => KernelStepView::KernelInstall(strs(a@)),
        KernelStep::Copy(a, b) => KernelStepView::Copy(a@, b@),
        KernelStep::Dracut(a) => KernelStepView::Dracut(strs(a@)),
    }
}

/// The steps of reinstalling the kernel `kver`, given whether its `vmlinuz`
/// exists and whether a recovery kernel is already at
/// `/boot/vmlinuz-recovery`: an error when there is no `vmlinuz`; else
/// `kernel-install`, the copy of the kernel as the recovery kernel unless
/// one is there, and the recovery initramfs.
pub open spec fn kernel_plan_spec(kver: Seq<char>, vmlinuz_exists: bool, recovery_exists: bool) -> Result<
    Seq<KernelStepView>,
    Seq<char>,
> {
    let vmlinuz = "/lib/modules/"@ + kver + "/vmlinuz"@;
    if !vmlinuz_exists {
        Err("Kernel version "@ + kver + " does not have a vmlinuz file at "@ + vmlinuz)
    } else {
        let install = KernelStepView::KernelInstall(seq!["add"@, kver, vmlinuz, "--verbose"@]);
        let dracut = KernelStepView::Dracut(
            seq![
                "--force"@,
                "--add"@,
                "dmsquash-live overlayfs rescue"@,
                "--no-hostonly"@,
                "--no-uefi"@,
                "--kver"@,
                kver,
                "/boot/initramfs-recovery.img"@,
            ],
        );
        if recovery_exists {
            Ok(seq![install, dracut])
        } else {
            Ok(seq![install, KernelStepView::Copy(vmlinuz, "/boot/vmlinuz-recovery"@), dracut])
        }
    }
}

impl ReinstallKernel {
    /// The steps of reinstalling the kernel `kver` (see [`kernel_plan_spec`]).
    pub fn plan(kver: &str, vmlinuz_exists: bool, recovery_exists: bool) -> (r: Result<Vec<KernelStep>, String>)
        ensures
            match kernel_plan_spec(kver@, vmlinuz_exists, recovery_exists) {
                Ok(steps) => r matches Ok(v) && v@.map_values(|s: KernelStep| kernel_step_view(s)) == steps,
                Err(e) => r matches Err(x) && x@ == e,
            },
    {
        let vmlinuz = Self::vmlinuz_path(kver);
        if !vmlinuz_exists {
            let mut e = owned("Kernel version ");
            push_chars(&mut e, &chars_of(kver));
            push_chars(&mut e, &chars_of(" does not have a vmlinuz file at "));
            push_chars(&mut e, &chars_of(vmlinuz.as_str()));
            proof {
                assert(e@ =~= "Kernel version "@ + kver@ + " does not have a vmlinuz file at "@ + vmlinuz@);
            }
            return Err(e);
        }
        let mut v: Vec<KernelStep> = Vec::new();
        let install = Self::kernel_install_args(kver, vmlinuz.as_str());
        v.push(KernelStep::KernelInstall(install));
        if !recovery_exists {
            v.push(KernelStep::Copy(vmlinuz, owned("/boot/vmlinuz-recovery")));
        }
        v.push(KernelStep::Dracut(Self::recovery_dracut_args(kver)));
        proof {
            let steps = kernel_plan_spec(kver@, vmlinuz_exists, recovery_exists)->Ok_0;
            assert(v@.map_values(|s: KernelStep| kernel_step_view(s)) =~= steps);
        }
        Ok(v)
    }
}

// ───────────────────────── scripts ─────────────────────────

impl Script {
    /// Whether a file with these permission bits is run: someone may execute it.
    pub fn is_executable(mode: u32) -> (r: bool)
        ensures
            r == (mode & 0o111u32 != 0),
    {
        mode & 0o111 != 0
    }
}


/// The script files run from a `postinstall.d` directory: the regular files
/// someone may execute, in the order listed.
pub open spec fn runnable_scripts(entries: Seq<(Seq<char>, bool, u32)>) -> Seq<Seq<char>>
    decreases entries.len(),
{
    if entries.len() == 0 {
        Seq::empty()
    } else {
        let rest = runnable_scripts(entries.drop_last());
        let (path, is_file, mode) = entries.last();
        if is_file && mode & 0o111u32 != 0 {
            rest.push(path)
        } else {
            rest
        }
    }
}

/// Directory entries as plain values: path, whether a regular file, mode.
pub open spec fn entries_view(v: Seq<(String, bool, u32)>) -> Seq<(Seq<char>, bool, u32)> {
    v.map_values(|e: (String, bool, u32)| (e.0@, e.1, e.2))
}

/// The scripts of the module, in order: `/etc/readymade/postinstall.sh`, then
/// `/usr/share/readymade/postinstall.sh`, each when it exists, then the
/// runnable files of `/etc/readymade/postinstall.d/` and of
/// `/usr/share/readymade/postinstall.d/`, for each directory that exists.
pub open spec fn script_plan(
    etc_script: bool,
    usr_script: bool,
    etc_dir: Option<Seq<(Seq<char>, bool, u32)>>,
    usr_dir: Option<Seq<(Seq<char>, bool, u32)>>,
) -> Seq<Seq<char>> {
    (if etc_script {
        seq!["/etc/readymade/postinstall.sh"@]
    } else {
        Seq::empty()
    }) + (if usr_script {
        seq!["/usr/share/readymade/postinstall.sh"@]
    } else {
        Seq::empty()
    }) + match etc_dir {
        Some(e) => runnable_scripts(e),
        None => Seq::empty(),
    } + match usr_dir {
        Some(e) => runnable_scripts(e),
        None => Seq::empty(),
    }
}

fn push_runnable(v: &mut Vec<String>, entries: &Vec<(String, bool, u32)>)
    ensures
        strs(final(v)@) == strs(old(v)@) + runnable_scripts(entries_view(entries@)),
{
    let ghost v0 = strs(v@);
    let ghost ev = entries_view(entries@);
    let mut i: usize = 0;
    proof {
        assert(ev.take(0) =~= Seq::<(Seq<char>, bool, u32)>::empty());
        assert(strs(v@) =~= v0 + runnable_scripts(ev.take(0)));
    }
    while i < entries.len()
        invariant
            i <= entries@.len(),
            ev == entries_view(entries@),
            strs(v@) == v0 + runnable_scripts(ev.take(i as int)),
        decreases entries@.len() - i,
    {
        let (path, is_file, mode) = &entries[i];
        let ghost w0 = strs(v@);
        proof {
            let t = ev.take(i + 1);
            assert(t.drop_last() =~= ev.take(i as int));
            assert(t.last() == ev[i as int]);
        }
        if *is_file && Script::is_executable(*mode) {
            v.push(path.clone());
            proof {
                assert(strs(v@) =~= w0.push(path@));
            }
        }
        i = i + 1;
    }
    proof {
        assert(ev.take(i as int) =~= ev);
    }
}

impl Script {
    /// The scripts to run, in order, from what exists: the two single
    /// scripts, and the listings of the two directories (`None` for a
    /// directory that does not exist).
    pub fn plan(
        etc_script: bool,
        usr_script: bool,
        etc_dir: &Option<Vec<(String, bool, u32)>>,
        usr_dir: &Option<Vec<(String, bool, u32)>>,
    ) -> (r: Vec<String>)
        ensures
            strs(r@) == script_plan(
                etc_script,
                usr_script,
                match *etc_dir {
                    Some(e) => Some(entries_view(e@)),
                    None => None,
                },
                match *usr_dir {
                    Some(e) => Some(entries_view(e@)),
                    None => None,
                },
            ),
    {
        let mut v: Vec<String> = Vec::new();
        let ghost a = strs(v@);
        if etc_script {
            v.push(owned("/etc/readymade/postinstall.sh"));
        }
        let ghost b = strs(v@);
        if usr_script {
            v.push(owned("/usr/share/readymade/postinstall.sh"));
        }
        let ghost c = strs(v@);
        if let Some(e) = etc_dir {
            push_runnable(&mut v, e);
        }
        let ghost d = strs(v@);
        if let Some(e) = usr_dir {
            push_runnable(&mut v, e);
        }
        proof {
            assert(a =~= Seq::<Seq<char>>::empty());
            assert(b =~= (if etc_script {
                seq!["/etc/readymade/postinstall.sh"@]
            } else {
                Seq::<Seq<char>>::empty()
            }));
            assert(c =~= b + (if usr_script {
                seq!["/usr/share/readymade/postinstall.sh"@]
            } else {
                Seq::<Seq<char>>::empty()
            }));
            if etc_dir.is_none() {
                assert(d =~= c + Seq::<Seq<char>>::empty());
            }
            if usr_dir.is_none() {
                assert(strs(v@) =~= d + Seq::<Seq<char>>::empty());
            }
        }
        v
    }
}

// ───────────────────────── driver installation ─────────────────────────

/// What the NVIDIA step does.
#[derive(Debug, Clone, Copy, PartialEq, Eq, Structural)]
pub enum NvidiaPlan {
    /// No NVIDIA GPU: nothing.
    Skip,
    /// An ostree system: layer the packages and set the kernel arguments.
    Ostree,
    /// Install the packages with dnf, and make the GPU the primary one when
    /// asked.
    Dnf { set_primary: bool },
}

impl Drivers {
    /// Whether the NVIDIA GPU is made the primary one: `STELLAR_OPTION` is `1`.
    pub fn is_primary_gpu(stellar_option: Option<&str>) -> (r: bool)
        ensures
            r == match stellar_option {
                Some(v) => v@ == "1"@,
                None => false,
            },
    {
        match stellar_option {
            Some(v) => {
                let one = ['1'];
                proof {
                    reveal_strlit("1");
                    assert(one@ =~= "1"@);
                }
                crate::text::chars_eq(&chars_of(v), &one)
            },
            None => false,
        }
    }

    /// The NVIDIA step: nothing without a GPU, the ostree way on ostree,
    /// else dnf.
    pub fn nvidia_plan(has_gpu: bool, is_ostree: bool, primary_gpu: bool) -> (r: NvidiaPlan)
        ensures
            r == if !has_gpu {
                NvidiaPlan::Skip
            } else if is_ostree {
                NvidiaPlan::Ostree
            } else {
                NvidiaPlan::Dnf { set_primary: primary_gpu }
            },
    {
        if !has_gpu {
            NvidiaPlan::Skip
        } else if is_ostree {
            NvidiaPlan::Ostree
        } else {
            NvidiaPlan::Dnf { set_primary: primary_gpu }
        }
    }

    /// The arguments of `dnf` that install the packages.
    pub fn dnf_install_args(pkgs: &Vec<String>) -> (r: Vec<String>)
        ensures
            strs(r@) == seq!["in"@, "-y"@, "--allowerasing"@, "--best"@] + strs(pkgs@),
    {
        let mut v: Vec<String> = Vec::new();
        v.push(owned("in"));
        v.push(owned("-y"));
        v.push(owned("--allowerasing"));
        v.push(owned("--best"));
        let ghost a = strs(v@);
        let mut p = crate::text::clone_strings(pkgs);
        v.append(&mut p);
        proof {
            assert(a =~= seq!["in"@, "-y"@, "--allowerasing"@, "--best"@]);
            assert(strs(v@) =~= a + strs(pkgs@));
        }
        v
    }

    /// The arguments of `rpm-ostree kargs` after the packages were layered:
    /// the kernel arguments, then the packages again, as the installer passes
    /// them.
    pub fn ostree_kargs_args(pkgs: &Vec<String>) -> (r: Vec<String>)
        ensures
            strs(r@) == seq![
                "kargs"@,
                "--append=rd.driver.blacklist=nouveau"@,
                "--append=modprobe.blacklist=nouveau"@,
                "--append=nvidia-drm.modeset=1"@,
                "initcall_blacklist=simpledrm_platform_driver_init"@,
            ] + strs(pkgs@),
    {
        let mut v: Vec<String> = Vec::new();
        v.push(owned("kargs"));
        v.push(owned("--append=rd.driver.blacklist=nouveau"));
        v.push(owned("--append=modprobe.blacklist=nouveau"));
        v.push(owned("--append=nvidia-drm.modeset=1"));
        v.push(owned("initcall_blacklist=simpledrm_platform_driver_init"));
        let ghost a = strs(v@);
        let mut p = crate::text::clone_strings(pkgs);
        v.append(&mut p);
        proof {
            assert(strs(v@) =~= a + strs(pkgs@));
        }
        v
    }

    /// The `dnf` installs for Broadcom hardware, in order: the Wi-Fi driver
    /// when a Broadcom network card is found, the Bluetooth firmware when a
    /// Broadcom Bluetooth device is.
    pub fn broadcom_installs(wifi: bool, bluetooth: bool) -> (r: Vec<Vec<String>>)
        ensures
            r@.map_values(|v: Vec<String>| strs(v@)) == (if wifi {
                seq![seq!["in"@, "-y"@, "broadcom-wl"@, "akmod-wl"@]]
            } else {
                Seq::empty()
            }) + (if bluetooth {
                seq![seq!["in"@, "-y"@, "broadcom-bt-firmware"@]]
            } else {
                Seq::empty()
            }),
    {
        let mut r: Vec<Vec<String>> = Vec::new();
        if wifi {
            let mut v: Vec<String> = Vec::new();
            v.push(owned("in"));
            v.push(owned("-y"));
            v.push(owned("broadcom-wl"));
            v.push(owned("akmod-wl"));
            proof {
                assert(strs(v@) =~= seq!["in"@, "-y"@, "broadcom-wl"@, "akmod-wl"@]);
            }
            r.push(v);
        }
        let ghost r1 = r@.map_values(|v: Vec<String>| strs(v@));
        if bluetooth {
            let mut v: Vec<String> = Vec::new();
            v.push(owned("in"));
            v.push(owned("-y"));
            v.push(owned("broadcom-bt-firmware"));
            proof {
                assert(strs(v@) =~= seq!["in"@, "-y"@, "broadcom-bt-firmware"@]);
            }
            r.push(v);
        }
        proof {
            assert(r1 =~= (if wifi {
                seq![seq!["in"@, "-y"@, "broadcom-wl"@, "akmod-wl"@]]
            } else {
                Seq::<Seq<Seq<char>>>::empty()
            }));
            assert(r@.map_values(|v: Vec<String>| strs(v@)) =~= r1 + (if bluetooth {
                seq![seq!["in"@, "-y"@, "broadcom-bt-firmware"@]]
            } else {
                Seq::<Seq<Seq<char>>>::empty()
            }));
        }
        r
    }
}

// ───────────────────────── laws of the post-install files ─────────────────────────

/// A directory entry is run as a script: a regular file with some execute
/// bit.
pub open spec fn is_runnable_entry(e: (Seq<char>, bool, u32)) -> bool {
    e.1 && e.2 & 0o111u32 != 0
}

proof fn lemma_runnable_concat(a: Seq<(Seq<char>, bool, u32)>, b: Seq<(Seq<char>, bool, u32)>)
    ensures
        runnable_scripts(a + b) == runnable_scripts(a) + runnable_scripts(b),
    decreases b.len(),
{
    if b.len() == 0 {
        assert(a + b =~= a);
        assert(runnable_scripts(a) + runnable_scripts(b) =~= runnable_scripts(a));
    } else {
        assert((a + b).drop_last() =~= a + b.drop_last());
        assert((a + b).last() == b.last());
        lemma_runnable_concat(a, b.drop_last());
        assert(runnable_scripts(a + b) =~= runnable_scripts(a) + runnable_scripts(b));
    }
}

/// A runnable entry's path stands in the scripts of its directory, after
/// the scripts of the entries before it.
proof fn lemma_runnable_index(d: Seq<(Seq<char>, bool, u32)>, j: int)
    requires
        0 <= j < d.len(),
        is_runnable_entry(d[j]),
    ensures
        runnable_scripts(d.take(j)).len() < runnable_scripts(d).len(),
        runnable_scripts(d)[runnable_scripts(d.take(j)).len() as int] == d[j].0,
{
    let a = d.take(j);
    let one = seq![d[j]];
    let b = d.skip(j + 1);
    assert(d =~= a + one + b);
    lemma_runnable_concat(a + one, b);
    lemma_runnable_concat(a, one);
    assert(one.drop_last() =~= Seq::<(Seq<char>, bool, u32)>::empty());
    assert(runnable_scripts(one.drop_last()) == Seq::<Seq<char>>::empty());
    assert(runnable_scripts(one) =~= seq![d[j].0]);
    let r = runnable_scripts(d);
    assert(r == runnable_scripts(a) + seq![d[j].0] + runnable_scripts(b));
    assert(r[runnable_scripts(a).len() as int] == d[j].0);
}

/// Each script of a directory is the path of one of its runnable entries.
proof fn lemma_runnable_from_entries(d: Seq<(Seq<char>, bool, u32)>, k: int)
    requires
        0 <= k < runnable_scripts(d).len(),
    ensures
        exists|i: int| 0 <= i < d.len() && is_runnable_entry(#[trigger] d[i]) && d[i].0 == runnable_scripts(d)[k],
    decreases d.len(),
{
    let r = runnable_scripts(d.drop_last());
    if k < r.len() {
        lemma_runnable_from_entries(d.drop_last(), k);
        let i = choose|i: int| 0 <= i < d.drop_last().len() && is_runnable_entry(#[trigger] d.drop_last()[i])
            && d.drop_last()[i].0 == r[k];
        assert(d[i] == d.drop_last()[i]);
    } else {
        assert(is_runnable_entry(d[d.len() - 1]));
    }
}

/// The post-install scripts run are the existing single scripts and the
/// runnable files of the existing directories, nothing else; each single
/// script that exists is run.
pub proof fn lemma_postinstall_only_scripts(
    etc_script: bool,
    usr_script: bool,
    etc_dir: Option<Seq<(Seq<char>, bool, u32)>>,
    usr_dir: Option<Seq<(Seq<char>, bool, u32)>>,
)
    ensures
        etc_script ==> script_plan(etc_script, usr_script, etc_dir, usr_dir).contains(
            "/etc/readymade/postinstall.sh"@,
        ),
        usr_script ==> script_plan(etc_script, usr_script, etc_dir, usr_dir).contains(
            "/usr/share/readymade/postinstall.sh"@,
        ),
        forall|k: int|
            0 <= k < script_plan(etc_script, usr_script, etc_dir, usr_dir).len() ==> {
                let x = #[trigger] script_plan(etc_script, usr_script, etc_dir, usr_dir)[k];
                ||| etc_script && x == "/etc/readymade/postinstall.sh"@
                ||| usr_script && x == "/usr/share/readymade/postinstall.sh"@
                ||| etc_dir matches Some(e) && exists|i: int|
                    0 <= i < e.len() && is_runnable_entry(#[trigger] e[i]) && e[i].0 == x
                ||| usr_dir matches Some(u) && exists|j: int|
                    0 <= j < u.len() && is_runnable_entry(#[trigger] u[j]) && u[j].0 == x
            },
{
    let plan = script_plan(etc_script, usr_script, etc_dir, usr_dir);
    let s1: Seq<Seq<char>> = if etc_script {
        seq!["/etc/readymade/postinstall.sh"@]
    } else {
        Seq::empty()
    };
    let s2: Seq<Seq<char>> = if usr_script {
        seq!["/usr/share/readymade/postinstall.sh"@]
    } else {
        Seq::empty()
    };
    let re = match etc_dir {
        Some(e) => runnable_scripts(e),
        None => Seq::empty(),
    };
    let ru = match usr_dir {
        Some(u) => runnable_scripts(u),
        None => Seq::empty(),
    };
    assert(plan =~= s1 + s2 + re + ru);
    if etc_script {
        assert(plan[0] == "/etc/readymade/postinstall.sh"@);
    }
    if usr_script {
        assert(plan[s1.len() as int] == "/usr/share/readymade/postinstall.sh"@);
    }
    assert forall|k: int| 0 <= k < plan.len() implies {
        let x = #[trigger] plan[k];
        ||| etc_script && x == "/etc/readymade/postinstall.sh"@
        ||| usr_script && x == "/usr/share/readymade/postinstall.sh"@
        ||| etc_dir matches Some(e) && exists|i: int| 0 <= i < e.len() && is_runnable_entry(#[trigger] e[i]) && e[i].0 == x
        ||| usr_dir matches Some(u) && exists|j: int| 0 <= j < u.len() && is_runnable_entry(#[trigger] u[j]) && u[j].0 == x
    } by {
        if k < s1.len() {
            assert(plan[k] == s1[k]);
        } else if k < s1.len() + s2.len() {
            assert(plan[k] == s2[k - s1.len()]);
        } else if k < s1.len() + s2.len() + re.len() {
            assert(plan[k] == re[k - s1.len() - s2.len()]);
            if let Some(e) = etc_dir {
                lemma_runnable_from_entries(e, k - s1.len() - s2.len());
            }
        } else {
            assert(plan[k] == ru[k - s1.len() - s2.len() - re.len()]);
            if let Some(u) = usr_dir {
                lemma_runnable_from_entries(u, k - s1.len() - s2.len() - re.len());
            }
        }
    }
}

/// Every runnable file of an existing `/usr/share/readymade/postinstall.d/`
/// is run, and so is every one of an existing
/// `/etc/readymade/postinstall.d/`, the latter before the former.
pub proof fn lemma_postinstall_dirs_run(
    etc_script: bool,
    usr_script: bool,
    etc_dir: Option<Seq<(Seq<char>, bool, u32)>>,
    usr_dir: Option<Seq<(Seq<char>, bool, u32)>>,
)
    ensures
        usr_dir matches Some(u) ==> forall|j: int|
            0 <= j < u.len() && is_runnable_entry(#[trigger] u[j]) ==> script_plan(
                etc_script,
                usr_script,
                etc_dir,
                usr_dir,
            ).contains(u[j].0),
        etc_dir matches Some(e) ==> forall|i: int|
            0 <= i < e.len() && is_runnable_entry(#[trigger] e[i]) ==> script_plan(
                etc_script,
                usr_script,
                etc_dir,
                usr_dir,
            ).contains(e[i].0),
        etc_dir matches Some(e) ==> usr_dir matches Some(u) ==> forall|i: int, j: int|
            0 <= i < e.len() && 0 <= j < u.len() && is_runnable_entry(#[trigger] e[i]) && is_runnable_entry(
                #[trigger] u[j],
            ) ==> exists|a: int, b: int|
                0 <= a < b < script_plan(etc_script, usr_script, etc_dir, usr_dir).len() && #[trigger] script_plan(
                    etc_script,
                    usr_script,
                    etc_dir,
                    usr_dir,
                )[a] == e[i].0 && #[trigger] script_plan(etc_script, usr_script, etc_dir, usr_dir)[b] == u[j].0,
{
    let plan = script_plan(etc_script, usr_script, etc_dir, usr_dir);
    let pre = (if etc_script {
        seq!["/etc/readymade/postinstall.sh"@]
    } else {
        Seq::empty()
    }) + (if usr_script {
        seq!["/usr/share/readymade/postinstall.sh"@]
    } else {
        Seq::empty()
    });
    let re = match etc_dir {
        Some(e) => runnable_scripts(e),
        None => Seq::empty(),
    };
    let ru = match usr_dir {
        Some(u) => runnable_scripts(u),
        None => Seq::empty(),
    };
    assert(plan =~= pre + re + ru);
    if let Some(u) = usr_dir {
        assert forall|j: int| 0 <= j < u.len() && is_runnable_entry(#[trigger] u[j]) implies plan.contains(u[j].0) by {
            lemma_runnable_index(u, j);
            let k = runnable_scripts(u.take(j)).len() as int;
            assert(plan[pre.len() + re.len() + k] == u[j].0);
        }
    }
    if let Some(e) = etc_dir {
        assert forall|i: int| 0 <= i < e.len() && is_runnable_entry(#[trigger] e[i]) implies plan.contains(e[i].0) by {
            lemma_runnable_index(e, i);
            let k = runnable_scripts(e.take(i)).len() as int;
            assert(plan[pre.len() + k] == e[i].0);
        }
        if let Some(u) = usr_dir {
            assert forall|i: int, j: int|
                0 <= i < e.len() && 0 <= j < u.len() && is_runnable_entry(#[trigger] e[i]) && is_runnable_entry(
                    #[trigger] u[j],
                ) implies exists|a: int, b: int|
                0 <= a < b < plan.len() && #[trigger] plan[a] == e[i].0 && #[trigger] plan[b] == u[j].0 by {
                lemma_runnable_index(e, i);
                lemma_runnable_index(u, j);
                let a = (pre.len() + runnable_scripts(e.take(i)).len()) as int;
                let b = (pre.len() + re.len() + runnable_scripts(u.take(j)).len()) as int;
                assert(plan[a] == e[i].0);
                assert(plan[b] == u[j].0);
            }
        }
    }
}

/// `/etc/locale.conf` holds three lines, `LANG`, `LANGUAGE` and
/// `LC_MESSAGES`, each set to the UTF-8 locale of the language (for a
/// language name without a newline).
pub proof fn lemma_locale_conf_utf8(lang: Seq<char>)
    requires
        !lang.contains('\n'),
    ensures
        crate::text::lines(locale_conf_text(lang)).len() == 3,
        crate::text::split_once(crate::text::lines(locale_conf_text(lang))[0], '=') == Some(
            ("LANG"@, lang + ".UTF-8"@),
        ),
        crate::text::split_once(crate::text::lines(locale_conf_text(lang))[1], '=') == Some(
            ("LANGUAGE"@, lang + ".UTF-8"@),
        ),
        crate::text::split_once(crate::text::lines(locale_conf_text(lang))[2], '=') == Some(
            ("LC_MESSAGES"@, lang + ".UTF-8"@),
        ),
{
    reveal_strlit("LANG=");
    reveal_strlit("\nLANGUAGE=");
    reveal_strlit("\nLC_MESSAGES=");
    reveal_strlit(".UTF-8");
    reveal_strlit("LANG");
    reveal_strlit("LANGUAGE");
    reveal_strlit("LC_MESSAGES");
    reveal_strlit("LANGUAGE=");
    reveal_strlit("LC_MESSAGES=");
    let l = lang + ".UTF-8"@;
    let l0 = "LANG="@ + l;
    let l1 = "LANGUAGE="@ + l;
    let l2 = "LC_MESSAGES="@ + l;
    let t = locale_conf_text(lang);
    assert("\nLANGUAGE="@ =~= seq!['\n'] + "LANGUAGE="@);
    assert("\nLC_MESSAGES="@ =~= seq!['\n'] + "LC_MESSAGES="@);
    assert(t =~= l0 + seq!['\n'] + (l1 + seq!['\n'] + l2));
    assert forall|j: int| 0 <= j < lang.len() implies lang[j] != '\n' by {
        if lang[j] == '\n' {
            assert(lang.contains('\n'));
        }
    }
    assert forall|j: int| 0 <= j < l0.len() implies #[trigger] l0[j] != '\n' by {
        if j >= 5 && j < 5 + lang.len() {
            assert(l0[j] == lang[j - 5]);
        }
    }
    assert forall|j: int| 0 <= j < l1.len() implies #[trigger] l1[j] != '\n' by {
        if j >= 9 && j < 9 + lang.len() {
            assert(l1[j] == lang[j - 9]);
        }
    }
    assert forall|j: int| 0 <= j < l2.len() implies #[trigger] l2[j] != '\n' by {
        if j >= 12 && j < 12 + lang.len() {
            assert(l2[j] == lang[j - 12]);
        }
    }
    crate::text::lemma_split_char_line(l0, '\n', l1 + seq!['\n'] + l2);
    crate::text::lemma_split_char_line(l1, '\n', l2);
    crate::text::lemma_find_char_exact(l2, '\n', l2.len() as int);
    let parts = crate::text::split_char(t, '\n');
    assert(parts =~= seq![l0, l1, l2]);
    assert(l0.last() == '8' && l1.last() == '8');
    assert(crate::text::strip_cr(l0) == l0);
    assert(crate::text::strip_cr(l1) == l1);
    let ls = crate::text::lines(t);
    assert(parts.drop_last().map_values(|p: Seq<char>| crate::text::strip_cr(p)) =~= seq![l0, l1]);
    assert(ls =~= seq![l0, l1, l2]);
    crate::text::lemma_find_char_exact(l0, '=', 4);
    crate::text::lemma_find_char_exact(l1, '=', 8);
    crate::text::lemma_find_char_exact(l2, '=', 11);
    assert(l0.take(4) =~= "LANG"@ && l0.skip(5) =~= l);
    assert(l1.take(8) =~= "LANGUAGE"@ && l1.skip(9) =~= l);
    assert(l2.take(11) =~= "LC_MESSAGES"@ && l2.skip(12) =~= l);
}

/// No newline in `s`.
pub open spec fn no_newline(s: Seq<char>) -> bool {
    forall|j: int| 0 <= j < s.len() ==> #[trigger] s[j] != '\n'
}

proof fn lemma_no_newline_concat(a: Seq<char>, b: Seq<char>)
    requires
        no_newline(a),
        no_newline(b),
    ensures
        no_newline(a + b),
{
    assert forall|j: int| 0 <= j < (a + b).len() implies #[trigger] (a + b)[j] != '\n' by {
        if j < a.len() {
            assert((a + b)[j] == a[j]);
        } else {
            assert((a + b)[j] == b[j - a.len()]);
        }
    }
}

proof fn lemma_no_newline_of(s: Seq<char>)
    requires
        !s.contains('\n'),
    ensures
        no_newline(s),
{
    assert forall|j: int| 0 <= j < s.len() implies #[trigger] s[j] != '\n' by {
        if s[j] == '\n' {
            assert(s.contains('\n'));
        }
    }
}

/// `true` or `false`, as a setting is written.
pub open spec fn setting_bool(b: bool) -> Seq<char> {
    if b {
        "true"@
    } else {
        "false"@
    }
}

/// The lines of `/etc/default/grub`, one per setting, each with its own
/// value.
pub open spec fn grub_setting_lines(d: Grub2Defaults) -> Seq<Seq<char>> {
    seq![
        "GRUB_TIMEOUT="@ + dec(d.timeout as nat),
        "GRUB_DISTRIBUTOR="@ + seq!['"'] + d.distributor@ + seq!['"'],
        "GRUB_DEFAULT="@ + d.default@,
        "GRUB_TERMINAL_OUTPUT="@ + seq!['"'] + d.terminal_output@ + seq!['"'],
        "GRUB_DISABLE_SUBMENU="@ + setting_bool(d.disable_submenu),
        "GRUB_CMDLINE_LINUX="@ + seq!['"'] + d.cmdline_linux@ + seq!['"'],
        "GRUB_DISABLE_RECOVERY="@ + seq!['"'] + setting_bool(d.disable_recovery) + seq!['"'],
        "GRUB_ENABLE_BLSCFG="@ + setting_bool(d.enable_blsconfig),
    ]
}

#[verifier::rlimit(100)]
#[verifier::spinoff_prover]
proof fn lemma_grub_text_joined(d: Grub2Defaults)
    ensures
        grub_defaults_text(d) == crate::text::joined_lines(grub_setting_lines(d)),
{
    let ls = grub_setting_lines(d);
    let nl = seq!['\n'];
    let q0 = seq!['"'];
    assert(grub_defaults_text(d) =~= ls[0] + nl + ls[1] + nl + ls[2] + nl + ls[3] + nl + ls[4] + nl + ls[5] + nl
        + ls[6] + nl + ls[7] + nl) by {
        reveal_strlit("\nGRUB_DISTRIBUTOR=\"");
        reveal_strlit("\"\nGRUB_DEFAULT=");
        reveal_strlit("\nGRUB_TERMINAL_OUTPUT=\"");
        reveal_strlit("\"\nGRUB_DISABLE_SUBMENU=");
        reveal_strlit("\nGRUB_CMDLINE_LINUX=\"");
        reveal_strlit("\"\nGRUB_DISABLE_RECOVERY=\"");
        reveal_strlit("\"\nGRUB_ENABLE_BLSCFG=");
        reveal_strlit("\n");
        reveal_strlit("GRUB_DISTRIBUTOR=");
        reveal_strlit("GRUB_DEFAULT=");
        reveal_strlit("GRUB_TERMINAL_OUTPUT=");
        reveal_strlit("GRUB_DISABLE_SUBMENU=");
        reveal_strlit("GRUB_CMDLINE_LINUX=");
        reveal_strlit("GRUB_DISABLE_RECOVERY=");
        reveal_strlit("GRUB_ENABLE_BLSCFG=");
        assert("\nGRUB_DISTRIBUTOR=\""@ =~= nl + "GRUB_DISTRIBUTOR="@ + q0);
        assert("\"\nGRUB_DEFAULT="@ =~= q0 + nl + "GRUB_DEFAULT="@);
        assert("\nGRUB_TERMINAL_OUTPUT=\""@ =~= nl + "GRUB_TERMINAL_OUTPUT="@ + q0);
        assert("\"\nGRUB_DISABLE_SUBMENU="@ =~= q0 + nl + "GRUB_DISABLE_SUBMENU="@);
        assert("\nGRUB_CMDLINE_LINUX=\""@ =~= nl + "GRUB_CMDLINE_LINUX="@ + q0);
        assert("\"\nGRUB_DISABLE_RECOVERY=\""@ =~= q0 + nl + "GRUB_DISABLE_RECOVERY="@ + q0);
        assert("\"\nGRUB_ENABLE_BLSCFG="@ =~= q0 + nl + "GRUB_ENABLE_BLSCFG="@);
        assert("\n"@ =~= nl);
        assert(bool_text(d.disable_submenu) == setting_bool(d.disable_submenu));
        assert(bool_text(d.disable_recovery) == setting_bool(d.disable_recovery));
        assert(bool_text(d.enable_blsconfig) == setting_bool(d.enable_blsconfig));
    }
    assert forall|i: int| 0 < i <= 8 implies crate::text::joined_lines(#[trigger] ls.take(i)) == crate::text::joined_lines(
        ls.take(i - 1),
    ) + ls[i - 1] + nl by {
        assert(ls.take(i).drop_last() =~= ls.take(i - 1));
        assert(ls.take(i).last() == ls[i - 1]);
    }
    assert(ls.take(0) =~= Seq::<Seq<char>>::empty());
    assert(crate::text::joined_lines(ls.take(0)) =~= Seq::<char>::empty());
    assert(ls.take(8) =~= ls);
    assert(crate::text::joined_lines(ls.take(1)) =~= ls[0] + nl);
    assert(crate::text::joined_lines(ls.take(2)) =~= ls[0] + nl + ls[1] + nl);
    assert(crate::text::joined_lines(ls.take(3)) =~= ls[0] + nl + ls[1] + nl + ls[2] + nl);
    assert(crate::text::joined_lines(ls.take(4)) =~= ls[0] + nl + ls[1] + nl + ls[2] + nl + ls[3] + nl);
    assert(crate::text::joined_lines(ls.take(5)) =~= ls[0] + nl + ls[1] + nl + ls[2] + nl + ls[3] + nl + ls[4] + nl);
    assert(crate::text::joined_lines(ls.take(6)) =~= ls[0] + nl + ls[1] + nl + ls[2] + nl + ls[3] + nl + ls[4] + nl
        + ls[5] + nl);
    assert(crate::text::joined_lines(ls.take(7)) =~= ls[0] + nl + ls[1] + nl + ls[2] + nl + ls[3] + nl + ls[4] + nl
        + ls[5] + nl + ls[6] + nl);
    assert(crate::text::joined_lines(ls.take(8)) =~= ls[0] + nl + ls[1] + nl + ls[2] + nl + ls[3] + nl + ls[4] + nl
        + ls[5] + nl + ls[6] + nl + ls[7] + nl);
}

proof fn lemma_grub_lines_clean(d: Grub2Defaults)
    requires
        !d.distributor@.contains('\n'),
        !d.default@.contains('\n'),
        !d.terminal_output@.contains('\n'),
        !d.cmdline_linux@.contains('\n'),
        d.default@.len() == 0 || d.default@.last() != '\r',
    ensures
        forall|i: int| 0 <= i < grub_setting_lines(d).len() ==> crate::text::clean_line(#[trigger] grub_setting_lines(d)[i]),
{
    reveal_strlit("true");
    reveal_strlit("false");
    reveal_strlit("GRUB_TIMEOUT=");
    reveal_strlit("GRUB_DISTRIBUTOR=");
    reveal_strlit("GRUB_DEFAULT=");
    reveal_strlit("GRUB_TERMINAL_OUTPUT=");
    reveal_strlit("GRUB_DISABLE_SUBMENU=");
    reveal_strlit("GRUB_CMDLINE_LINUX=");
    reveal_strlit("GRUB_DISABLE_RECOVERY=");
    reveal_strlit("GRUB_ENABLE_BLSCFG=");
    let ls = grub_setting_lines(d);
    let q = seq!['"'];
    crate::text::lemma_dec_value(d.timeout as nat);
    let dd = dec(d.timeout as nat);
    assert(no_newline(dd)) by {
        assert forall|j: int| 0 <= j < dd.len() implies #[trigger] dd[j] != '\n' by {
            assert(crate::text::is_digit(dd[j]));
        }
    }
    lemma_no_newline_of(d.distributor@);
    lemma_no_newline_of(d.default@);
    lemma_no_newline_of(d.terminal_output@);
    lemma_no_newline_of(d.cmdline_linux@);
    assert(no_newline(q));
    assert(no_newline("GRUB_TIMEOUT="@));
    assert(no_newline("GRUB_DISTRIBUTOR="@));
    assert(no_newline("GRUB_DEFAULT="@));
    assert(no_newline("GRUB_TERMINAL_OUTPUT="@));
    assert(no_newline("GRUB_DISABLE_SUBMENU="@));
    assert(no_newline("GRUB_CMDLINE_LINUX="@));
    assert(no_newline("GRUB_DISABLE_RECOVERY="@));
    assert(no_newline("GRUB_ENABLE_BLSCFG="@));
    assert(no_newline(setting_bool(d.disable_submenu)));
    assert(no_newline(setting_bool(d.disable_recovery)));
    assert(no_newline(setting_bool(d.enable_blsconfig)));
    lemma_no_newline_concat("GRUB_TIMEOUT="@, dd);
    lemma_no_newline_concat("GRUB_DISTRIBUTOR="@, q);
    lemma_no_newline_concat("GRUB_DISTRIBUTOR="@ + q, d.distributor@);
    lemma_no_newline_concat("GRUB_DISTRIBUTOR="@ + q + d.distributor@, q);
    lemma_no_newline_concat("GRUB_DEFAULT="@, d.default@);
    lemma_no_newline_concat("GRUB_TERMINAL_OUTPUT="@, q);
    lemma_no_newline_concat("GRUB_TERMINAL_OUTPUT="@ + q, d.terminal_output@);
    lemma_no_newline_concat("GRUB_TERMINAL_OUTPUT="@ + q + d.terminal_output@, q);
    lemma_no_newline_concat("GRUB_DISABLE_SUBMENU="@, setting_bool(d.disable_submenu));
    lemma_no_newline_concat("GRUB_CMDLINE_LINUX="@, q);
    lemma_no_newline_concat("GRUB_CMDLINE_LINUX="@ + q, d.cmdline_linux@);
    lemma_no_newline_concat("GRUB_CMDLINE_LINUX="@ + q + d.cmdline_linux@, q);
    lemma_no_newline_concat("GRUB_DISABLE_RECOVERY="@, q);
    lemma_no_newline_concat("GRUB_DISABLE_RECOVERY="@ + q, setting_bool(d.disable_recovery));
    lemma_no_newline_concat("GRUB_DISABLE_RECOVERY="@ + q + setting_bool(d.disable_recovery), q);
    lemma_no_newline_concat("GRUB_ENABLE_BLSCFG="@, setting_bool(d.enable_blsconfig));
    assert forall|i: int| 0 <= i < ls.len() implies crate::text::clean_line(#[trigger] ls[i]) by {
        assert(no_newline(ls[i]));
        if i == 0 {
            assert(ls[0].last() == dd.last());
            assert(crate::text::is_digit(dd[dd.len() - 1]));
        } else if i == 2 {
            if d.default@.len() > 0 {
                assert(ls[2].last() == d.default@.last());
            }
        }
    }
}

/// `/etc/default/grub` has one line per setting, each written with its own
/// value; in particular it holds the line `GRUB_DISABLE_RECOVERY="true"`
/// exactly when recovery entries are disabled (for settings without
/// newlines, and a default entry that does not end in a carriage return).
pub proof fn lemma_grub_settings_written(d: Grub2Defaults)
    requires
        !d.distributor@.contains('\n'),
        !d.default@.contains('\n'),
        !d.terminal_output@.contains('\n'),
        !d.cmdline_linux@.contains('\n'),
        d.default@.len() == 0 || d.default@.last() != '\r',
    ensures
        crate::text::lines(grub_defaults_text(d)) == grub_setting_lines(d),
        crate::text::lines(grub_defaults_text(d)).contains("GRUB_DISABLE_RECOVERY=\"true\""@)
            <==> d.disable_recovery,
{
    let ls = grub_setting_lines(d);
    lemma_grub_text_joined(d);
    lemma_grub_lines_clean(d);
    crate::text::lemma_lines_joined(ls);
    reveal_strlit("GRUB_TIMEOUT=");
    reveal_strlit("GRUB_DISTRIBUTOR=");
    reveal_strlit("GRUB_DEFAULT=");
    reveal_strlit("GRUB_TERMINAL_OUTPUT=");
    reveal_strlit("GRUB_DISABLE_SUBMENU=");
    reveal_strlit("GRUB_CMDLINE_LINUX=");
    reveal_strlit("GRUB_DISABLE_RECOVERY=");
    reveal_strlit("GRUB_ENABLE_BLSCFG=");
    reveal_strlit("GRUB_DISABLE_RECOVERY=\"true\"");
    reveal_strlit("true");
    reveal_strlit("false");
    let target = "GRUB_DISABLE_RECOVERY=\"true\""@;
    if ls.contains(target) {
        let i = choose|i: int| 0 <= i < ls.len() && ls[i] == target;
        if i == 0 {
            assert(ls[0][5] != target[5]);
        } else if i == 1 {
            assert(ls[1][8] != target[8]);
        } else if i == 2 {
            assert(ls[2][6] != target[6]);
        } else if i == 3 {
            assert(ls[3][5] != target[5]);
        } else if i == 4 {
            assert(ls[4][13] != target[13]);
        } else if i == 5 {
            assert(ls[5][5] != target[5]);
        } else if i == 7 {
            assert(ls[7][5] != target[5]);
        } else {
            assert(ls[6].len() == target.len());
        }
    }
    if d.disable_recovery {
        assert(ls[6] =~= target);
    }
}

} // verus!
