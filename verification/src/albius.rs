//! Recipes for the Albius installer: disk operations, mount points, how the
//! system is installed and what runs after.
use crate::text::strs;
use vstd::prelude::*;

verus! {

/// An operation on a disk.
#[derive(Debug, Clone, Copy, PartialEq, Eq, Structural)]
pub enum DiskOperationType {
    Label,
    Mkpart,
    Rm,
    Resizepart,
    Namepart,
    Setflag,
    Format,
    LuksFormat,
    Pvcreate,
    Pvresize,
    Pvremove,
    Vgcreate,
    Vgrename,
    Vgextend,
    Vgreduce,
    Vgremove,
    Lvcreate,
    Lvrename,
    Lvremove,
    MakeThinPool,
    LvcreateThin,
    LvmFormat,
    LvmLuksFormat,
}

/// A parameter of an operation: a string, a number, or a list of strings.
#[derive(Debug, Clone)]
pub enum Param {
    Str(String),
    Num(u64),
    Strs(Vec<String>),
}

/// A parameter as a plain value.
pub enum ParamView {
    Str(Seq<char>),
    Num(u64),
    Strs(Seq<Seq<char>>),
}

/// The parameter as a plain value.
pub open spec fn param_view(p: Param) -> ParamView {
    match p {
        Param::Str(s) => ParamView::Str(s@),
        Param::Num(n) => ParamView::Num(n),
        Param::Strs(v) => ParamView::Strs(strs(v@)),
    }
}

/// The parameters as plain values.
pub open spec fn params_view(ps: Seq<Param>) -> Seq<ParamView> {
    ps.map_values(|p: Param| param_view(p))
}

/// An operation on a disk, with its parameters.
#[derive(Debug, Clone)]
pub struct DiskOperation {
    pub disk: String,
    pub operation: DiskOperationType,
    pub params: Vec<Param>,
}

/// A partition and where it is mounted.
#[derive(Debug, Clone)]
pub struct Mountpoint {
    pub partition: String,
    pub mountpoint: String,
}

impl Mountpoint {
    /// The mount point of `partition` at `mountpoint`.
    pub fn from_pair(partition: String, mountpoint: &str) -> (r: Self)
        ensures
            r.partition@ == partition@,
            r.mountpoint@ == mountpoint@,
    {
        Mountpoint { partition, mountpoint: crate::text::owned(mountpoint) }
    }
}

/// How the system is put on the disk.
#[derive(Debug, Clone, Copy, PartialEq, Eq, Structural)]
pub enum Method {
    Unsquashfs,
    Oci,
    Source,
}

/// What is installed, from where.
#[derive(Debug, Clone)]
pub struct Installation {
    pub method: Method,
    pub source: String,
    pub initramfs_pre: Vec<String>,
    pub initramfs_post: Vec<String>,
}

/// An operation after the installation.
#[derive(Debug, Clone, Copy, PartialEq, Eq, Structural)]
pub enum PostInstallationOperation {
    Adduser,
    Timezone,
    Shell,
    Pkgremove,
    Hostname,
    Locale,
    Swapon,
    Keyboard,
    GrubInstall,
    GrubDefaultConfig,
    GrubAddScript,
    GrubRemoveScript,
    GrubMkconfig,
}

/// An operation after the installation, with its parameters.
#[derive(Debug, Clone)]
pub struct PostInstallation {
    pub chroot: bool,
    pub operation: PostInstallationOperation,
    pub params: Vec<Param>,
}

/// A whole recipe.
#[derive(Debug, Clone)]
pub struct Recipe {
    pub setup: Vec<DiskOperation>,
    pub mountpoints: Vec<Mountpoint>,
    pub installation: Installation,
    pub post_installation: Vec<PostInstallation>,
}

} // verus!
