//! Partition definitions for `systemd-repart` (`repart.d`), and the names their
//! settings are written with.
use crate::text::{chars_of, owned, push_chars};
use vstd::prelude::*;

verus! {

/// `bytesize::ByteSize::mib(n)`, in bytes.
#[verifier::external_body]
fn mib_bytes(n: u64) -> (r: u64)
    requires
        n * 1048576 <= u64::MAX,
    ensures
        r == n * 1048576,
{
    bytesize::ByteSize::mib(n).as_u64()
}

/// A size in bytes.
#[derive(Debug, Copy, Clone, Default)]
pub struct Size {
    pub inner: u64,
}

/// The default weight of a partition.
pub fn _default_weight() -> (r: u32)
    ensures
        r == 1000,
{
    1000
}

/// The default minimum size of a partition: 10 MiB.
pub fn _default_size_min_bytes() -> (r: Size)
    ensures
        r.inner == 10 * 1048576,
{
    Size { inner: mib_bytes(10) }
}

/// The file system of a partition.
#[derive(Debug, Clone, Copy, PartialEq, Eq, Structural)]
pub enum FileSystem {
    Ext4,
    Btrfs,
    Xfs,
    Vfat,
    Erofs,
    Squashfs,
    Swap,
}

/// How a partition is encrypted.
#[derive(Debug, Clone, Copy, PartialEq, Eq, Structural)]
pub enum EncryptOption {
    Off,
    KeyFile,
    Tpm2,
    KeyFileTpm2,
}

/// dm-verity role of a partition.
#[derive(Debug, Clone, Copy, PartialEq, Eq, Structural)]
pub enum Verity {
    Off,
    Data,
    Hash,
    Signature,
}

impl Default for Verity {
    fn default() -> (r: Self)
        ensures
            r == Verity::Off,
    {
        Verity::Off
    }
}

/// The name of a file system in a definition.
pub open spec fn fs_name(f: FileSystem) -> Seq<char> {
    match f {
        FileSystem::Ext4 => "ext4"@,
        FileSystem::Btrfs => "btrfs"@,
        FileSystem::Xfs => "xfs"@,
        FileSystem::Vfat => "vfat"@,
        FileSystem::Erofs => "erofs"@,
        FileSystem::Squashfs => "squashfs"@,
        FileSystem::Swap => "swap"@,
    }
}

impl FileSystem {
    /// The name of the file system in a definition.
    pub fn as_str(&self) -> (r: &'static str)
        ensures
            r@ == fs_name(*self),
    {
        match self {
            FileSystem::Ext4 => "ext4",
            FileSystem::Btrfs => "btrfs",
            FileSystem::Xfs => "xfs",
            FileSystem::Vfat => "vfat",
            FileSystem::Erofs => "erofs",
            FileSystem::Squashfs => "squashfs",
            FileSystem::Swap => "swap",
        }
    }
}

/// The value of `Encrypt=`.
pub open spec fn encrypt_name(e: EncryptOption) -> Seq<char> {
    match e {
        EncryptOption::Off => "off"@,
        EncryptOption::KeyFile => "key-file"@,
        EncryptOption::Tpm2 => "tpm2"@,
        EncryptOption::KeyFileTpm2 => "key-file+tpm2"@,
    }
}

impl EncryptOption {
    /// The value of `Encrypt=`.
    pub fn as_str(&self) -> (r: &'static str)
        ensures
            r@ == encrypt_name(*self),
    {
        match self {
            EncryptOption::Off => "off",
            EncryptOption::KeyFile => "key-file",
            EncryptOption::Tpm2 => "tpm2",
            EncryptOption::KeyFileTpm2 => "key-file+tpm2",
        }
    }

    /// The option a value of `Encrypt=` names, if any.
    pub fn from_name(value: &str) -> (r: Option<Self>)
        ensures
            match r {
                Some(e) => encrypt_name(e) == value@,
                None => forall|e: EncryptOption| encrypt_name(e) != value@,
            },
    {
        let v = chars_of(value);
        if crate::text::chars_eq(&v, &chars_of("off")) {
            Some(EncryptOption::Off)
        } else if crate::text::chars_eq(&v, &chars_of("key-file")) {
            Some(EncryptOption::KeyFile)
        } else if crate::text::chars_eq(&v, &chars_of("tpm2")) {
            Some(EncryptOption::Tpm2)
        } else if crate::text::chars_eq(&v, &chars_of("key-file+tpm2")) {
            Some(EncryptOption::KeyFileTpm2)
        } else {
            proof {
                assert forall|e: EncryptOption| encrypt_name(e) != value@ by {
                    match e {
                        EncryptOption::Off => {},
                        EncryptOption::KeyFile => {},
                        EncryptOption::Tpm2 => {},
                        EncryptOption::KeyFileTpm2 => {},
                    }
                }
            }
            None
        }
    }

    /// Whether the partition is unlocked by the TPM.
    pub fn uses_tpm(&self) -> (r: bool)
        ensures
            r == (*self == EncryptOption::KeyFileTpm2 || *self == EncryptOption::Tpm2),
    {
        matches!(self, EncryptOption::KeyFileTpm2 | EncryptOption::Tpm2)
    }

    /// The encryption a layout asks for: a key file, sealed in the TPM too
    /// when `tpm`.
    pub fn for_key_file(tpm: bool) -> (r: Self)
        ensures
            r == if tpm {
                EncryptOption::KeyFileTpm2
            } else {
                EncryptOption::KeyFile
            },
    {
        if tpm {
            EncryptOption::KeyFileTpm2
        } else {
            EncryptOption::KeyFile
        }
    }
}

impl Default for EncryptOption {
    fn default() -> (r: Self)
        ensures
            r == EncryptOption::Off,
    {
        EncryptOption::Off
    }
}

/// The value of `Verity=`.
pub open spec fn verity_name(v: Verity) -> Seq<char> {
    match v {
        Verity::Off => "off"@,
        Verity::Data => "data"@,
        Verity::Hash => "hash"@,
        Verity::Signature => "signature"@,
    }
}

impl Verity {
    /// The value of `Verity=`.
    pub fn as_str(&self) -> (r: &'static str)
        ensures
            r@ == verity_name(*self),
    {
        match self {
            Verity::Off => "off",
            Verity::Data => "data",
            Verity::Hash => "hash",
            Verity::Signature => "signature",
        }
    }
}

/// The type of a partition, as the Discoverable Partitions Specification
/// names it.
#[derive(Debug)]
pub enum PartTypeIdent {
    Esp,
    Xbootldr,
    Swap,
    Home,
    Srv,
    Var,
    Tmp,
    LinuxGeneric,
    Root,
    RootVerity,
    RootVeritySig,
    RootSecondary,
    RootSecondaryVerity,
    RootSecondaryVeritySig,
    RootArch,
    RootArchVerity,
    RootArchVeritySig,
    Usr,
    UsrVerity,
    UsrVeritySig,
    UsrSecondary,
    UsrSecondaryVerity,
    UsrSecondaryVeritySig,
    UsrArch,
    UsrArchVerity,
    UsrArchVeritySig,
    Unknown(String),
}

impl Default for PartTypeIdent {
    fn default() -> (r: Self)
        ensures
            r is LinuxGeneric,
    {
        PartTypeIdent::LinuxGeneric
    }
}

/// The name of a partition type on the architecture `arch`.
pub open spec fn part_type_name(t: PartTypeIdent, arch: Seq<char>) -> Seq<char> {
    match t {
        PartTypeIdent::Esp => "esp"@,
        PartTypeIdent::Xbootldr => "xbootldr"@,
        PartTypeIdent::Swap => "swap"@,
        PartTypeIdent::Home => "home"@,
        PartTypeIdent::Srv => "srv"@,
        PartTypeIdent::Var => "var"@,
        PartTypeIdent::Tmp => "tmp"@,
        PartTypeIdent::LinuxGeneric => "linux-generic"@,
        PartTypeIdent::Root => "root"@,
        PartTypeIdent::RootVerity => "root-verity"@,
        PartTypeIdent::RootVeritySig => "root-verity-sig"@,
        PartTypeIdent::RootSecondary => "root-secondary"@,
        PartTypeIdent::RootSecondaryVerity => "root-secondary-verity"@,
        PartTypeIdent::RootSecondaryVeritySig => "root-secondary-verity-sig"@,
        PartTypeIdent::RootArch => "root-"@ + arch,
        PartTypeIdent::RootArchVerity => "root-"@ + arch + "-verity"@,
        PartTypeIdent::RootArchVeritySig => "root-"@ + arch + "-verity-sig"@,
        PartTypeIdent::Usr => "usr"@,
        PartTypeIdent::UsrVerity => "usr-verity"@,
        PartTypeIdent::UsrVeritySig => "usr-verity-sig"@,
        PartTypeIdent::UsrSecondary => "usr-secondary"@,
        PartTypeIdent::UsrSecondaryVerity => "usr-secondary-verity"@,
        PartTypeIdent::UsrSecondaryVeritySig => "usr-secondary-verity-sig"@,
        PartTypeIdent::UsrArch => "usr-"@ + arch,
        PartTypeIdent::UsrArchVerity => "usr-"@ + arch + "-verity"@,
        PartTypeIdent::UsrArchVeritySig => "usr-"@ + arch + "-verity-sig"@,
        PartTypeIdent::Unknown(x) => x@,
    }
}

fn arch_name(prefix: &str, arch: &str, suffix: &str) -> (r: String)
    ensures
        r@ == prefix@ + arch@ + suffix@,
{
    let mut s = owned(prefix);
    push_chars(&mut s, &chars_of(arch));
    push_chars(&mut s, &chars_of(suffix));
    s
}

impl PartTypeIdent {
    /// The name of the partition type; `arch` is the architecture's name
    /// (`std::env::consts::ARCH`).
    pub fn as_string(&self, arch: &str) -> (r: String)
        ensures
            r@ == part_type_name(*self, arch@),
    {
        match self {
            PartTypeIdent::Esp => owned("esp"),
            PartTypeIdent::Xbootldr => owned("xbootldr"),
            PartTypeIdent::Swap => owned("swap"),
            PartTypeIdent::Home => owned("home"),
            PartTypeIdent::Srv => owned("srv"),
            PartTypeIdent::Var => owned("var"),
            PartTypeIdent::Tmp => owned("tmp"),
            PartTypeIdent::LinuxGeneric => owned("linux-generic"),
            PartTypeIdent::Root => owned("root"),
            PartTypeIdent::RootVerity => owned("root-verity"),
            PartTypeIdent::RootVeritySig => owned("root-verity-sig"),
            PartTypeIdent::RootSecondary => owned("root-secondary"),
            PartTypeIdent::RootSecondaryVerity => owned("root-secondary-verity"),
            PartTypeIdent::RootSecondaryVeritySig => owned("root-secondary-verity-sig"),
            PartTypeIdent::RootArch => {
                proof {
                    reveal_strlit("");
                }
                arch_name("root-", arch, "")
            },
            PartTypeIdent::RootArchVerity => arch_name("root-", arch, "-verity"),
            PartTypeIdent::RootArchVeritySig => arch_name("root-", arch, "-verity-sig"),
            PartTypeIdent::Usr => owned("usr"),
            PartTypeIdent::UsrVerity => owned("usr-verity"),
            PartTypeIdent::UsrVeritySig => owned("usr-verity-sig"),
            PartTypeIdent::UsrSecondary => owned("usr-secondary"),
            PartTypeIdent::UsrSecondaryVerity => owned("usr-secondary-verity"),
            PartTypeIdent::UsrSecondaryVeritySig => owned("usr-secondary-verity-sig"),
            PartTypeIdent::UsrArch => {
                proof {
                    reveal_strlit("");
                }
                arch_name("usr-", arch, "")
            },
            PartTypeIdent::UsrArchVerity => arch_name("usr-", arch, "-verity"),
            PartTypeIdent::UsrArchVeritySig => arch_name("usr-", arch, "-verity-sig"),
            PartTypeIdent::Unknown(x) => x.clone(),
        }
    }
}

/// One `[Partition]` definition.
#[derive(Debug)]
pub struct Partition {
    pub part_type: PartTypeIdent,
    pub label: String,
    pub uuid: String,
    pub priority: i32,
    pub weight: u32,
    pub padding_weight: u32,
    pub size_min_bytes: Size,
    pub size_max_bytes: Size,
    pub padding_min_bytes: Size,
    pub padding_max_bytes: Size,
    pub copy_blocks: Option<String>,
    pub format: Option<FileSystem>,
    pub copy_files: Vec<String>,
    pub exclude_files: Vec<String>,
    pub exclude_files_target: Vec<String>,
    pub make_directories: Vec<String>,
    pub subvolumes: Vec<String>,
    pub default_subvolume: Option<String>,
    pub encrypt: EncryptOption,
    pub verity: Verity,
    pub factory_reset: bool,
    pub mount_point: String,
}

/// A `repart.d` file.
#[derive(Debug)]
pub struct RepartConfig {
    pub partition: Partition,
}

/// A weight is valid between 0 and 1 000 000.
pub open spec fn weight_valid(w: u32) -> bool {
    w <= 1_000_000
}

impl Partition {
    /// The weights lie in their allowed range.
    pub fn validate(&self) -> (r: bool)
        ensures
            r == (weight_valid(self.weight) && weight_valid(self.padding_weight)),
    {
        self.weight <= 1_000_000 && self.padding_weight <= 1_000_000
    }
}

} // verus!
