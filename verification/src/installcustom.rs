//! The custom partitioning page: its rows of mount targets, the messages a
//! row sends, the dialog that adds or edits a row, and the kinds of mount
//! point offered.
use crate::custom::{target_view, targets_view, MountTarget, MountTargets};
use crate::text::owned;
use vstd::prelude::*;

verus! {

/// What a row is told.
#[derive(Debug, Clone, Copy, PartialEq, Eq, Structural)]
pub enum ChooseMountMsg {
    Edit,
    Remove,
    /// The row at this index was removed.
    Removed(usize),
}

/// What a row asks of the page.
#[derive(Debug, Clone, Copy, PartialEq, Eq, Structural)]
pub enum ChooseMountOutput {
    Edit(usize),
    Remove(usize),
}

impl MountTarget {
    /// A row handles a message: edit and remove requests go to the page with
    /// the row's index; a removed row before it moves it up.
    pub fn on_message(&mut self, message: ChooseMountMsg) -> (r: Option<ChooseMountOutput>)
        ensures
            final(self).partition == old(self).partition,
            final(self).mountpoint == old(self).mountpoint,
            final(self).options == old(self).options,
            match message {
                ChooseMountMsg::Edit => r == Some(ChooseMountOutput::Edit(old(self).index))
                    && final(self).index == old(self).index,
                ChooseMountMsg::Remove => r == Some(ChooseMountOutput::Remove(old(self).index))
                    && final(self).index == old(self).index,
                ChooseMountMsg::Removed(i) => r is None && final(self).index == if old(self).index > i {
                    (old(self).index - 1) as usize
                } else {
                    old(self).index
                },
            },
    {
        match message {
            ChooseMountMsg::Edit => Some(ChooseMountOutput::Edit(self.index)),
            ChooseMountMsg::Remove => Some(ChooseMountOutput::Remove(self.index)),
            ChooseMountMsg::Removed(i) => {
                self.removed(i);
                None
            },
        }
    }
}

/// A kind of mount point offered in the dropdown.
#[derive(Debug, Clone)]
pub enum PartitionType {
    /// Root partition
    Root,
    /// /boot (xbootldr)
    ExtendedBoot,
    /// /boot/efi (esp)
    Esp,
    /// /home
    Home,
    /// /var
    Var,
    Other(String),
}

/// The mount point of a kind.
pub open spec fn partition_type_path(t: PartitionType) -> Seq<char> {
    match t {
        PartitionType::Root => "/"@,
        PartitionType::ExtendedBoot => "/boot"@,
        PartitionType::Esp => "/boot/efi"@,
        PartitionType::Home => "/home"@,
        PartitionType::Var => "/var"@,
        PartitionType::Other(s) => s@,
    }
}

impl PartitionType {
    /// The root partition is the default.
    pub fn default_type() -> (r: Self)
        ensures
            r is Root,
    {
        PartitionType::Root
    }

    /// The kinds in the dropdown's order, `Other` (empty) last.
    pub fn all() -> (r: Vec<Self>)
        ensures
            r@.len() == 6,
            r@[0] is Root,
            r@[1] is ExtendedBoot,
            r@[2] is Esp,
            r@[3] is Home,
            r@[4] is Var,
            r@[5] matches PartitionType::Other(s) && s@.len() == 0,
    {
        let mut v: Vec<Self> = Vec::new();
        v.push(PartitionType::Root);
        v.push(PartitionType::ExtendedBoot);
        v.push(PartitionType::Esp);
        v.push(PartitionType::Home);
        v.push(PartitionType::Var);
        v.push(PartitionType::Other(String::new()));
        v
    }

    /// The mount point of the kind.
    pub fn as_str(&self) -> (r: &str)
        ensures
            r@ == partition_type_path(*self),
    {
        match self {
            PartitionType::Root => "/",
            PartitionType::ExtendedBoot => "/boot",
            PartitionType::Esp => "/boot/efi",
            PartitionType::Home => "/home",
            PartitionType::Var => "/var",
            PartitionType::Other(s) => s.as_str(),
        }
    }

    /// Whether the dropdown shows its text entry for this kind.
    pub fn is_other(&self) -> (r: bool)
        ensures
            r == (*self is Other),
    {
        matches!(self, PartitionType::Other(_))
    }
}

/// The fields of the dialog that adds or edits a mount target.
#[derive(Debug, Clone)]
pub struct AddDialog {
    pub partition: String,
    pub mountpoint: String,
    pub mountopts: String,
    pub index: usize,
}

/// What the dialog is told.
pub enum AddDialogMsg {
    ChangedPart(String),
    ChangedOpts(String),
    SelectMnptType(PartitionType),
}

impl AddDialog {
    /// A dialog for the row `index`, with the default mount point.
    pub fn new_row(index: usize) -> (r: Self)
        ensures
            r.partition@.len() == 0,
            r.mountpoint@ == "/"@,
            r.mountopts@.len() == 0,
            r.index == index,
    {
        AddDialog { partition: String::new(), mountpoint: owned("/"), mountopts: String::new(), index }
    }

    /// A dialog to edit the target of a row.
    pub fn from_target(t: &MountTarget) -> (r: Self)
        ensures
            r.partition@ == t.partition@,
            r.mountpoint@ == t.mountpoint@,
            r.mountopts@ == t.options@,
            r.index == t.index,
    {
        AddDialog {
            partition: t.partition.clone(),
            mountpoint: t.mountpoint.clone(),
            mountopts: t.options.clone(),
            index: t.index,
        }
    }

    /// The target the dialog describes.
    pub fn to_target(&self) -> (r: MountTarget)
        ensures
            r.partition@ == self.partition@,
            r.mountpoint@ == self.mountpoint@,
            r.options@ == self.mountopts@,
            r.index == self.index,
    {
        MountTarget {
            index: self.index,
            partition: self.partition.clone(),
            mountpoint: self.mountpoint.clone(),
            options: self.mountopts.clone(),
        }
    }

    /// The dialog handles a change of one of its fields.
    pub fn update(&mut self, message: AddDialogMsg)
        ensures
            final(self).index == old(self).index,
            match message {
                AddDialogMsg::ChangedPart(p) => final(self).partition@ == p@ && final(self).mountpoint
                    == old(self).mountpoint && final(self).mountopts == old(self).mountopts,
                AddDialogMsg::ChangedOpts(o) => final(self).mountopts@ == o@ && final(self).partition
                    == old(self).partition && final(self).mountpoint == old(self).mountpoint,
                AddDialogMsg::SelectMnptType(t) => final(self).mountpoint@ == partition_type_path(t)
                    && final(self).partition == old(self).partition && final(self).mountopts
                    == old(self).mountopts,
            },
    {
        match message {
            AddDialogMsg::ChangedPart(p) => self.partition = p,
            AddDialogMsg::ChangedOpts(o) => self.mountopts = o,
            AddDialogMsg::SelectMnptType(t) => self.mountpoint = owned(t.as_str()),
        }
    }

    /// Whether the dialog can be confirmed: a partition and a mount point
    /// are set.
    pub fn can_confirm(&self) -> (r: bool)
        ensures
            r == (self.partition@.len() > 0 && self.mountpoint@.len() > 0),
    {
        crate::text::chars_of(self.partition.as_str()).len() > 0 && crate::text::chars_of(self.mountpoint.as_str()).len() > 0
    }
}

impl MountTargets {
    /// A confirmed dialog: it replaces the row at its index, or becomes a
    /// new last row.
    pub fn update_row(&mut self, target: MountTarget)
        ensures
            target.index < old(self).0@.len() ==> targets_view(final(self).0@) == targets_view(
                old(self).0@,
            ).update(target.index as int, target_view(target)),
            target.index >= old(self).0@.len() ==> targets_view(final(self).0@) == targets_view(
                old(self).0@,
            ).push(target_view(target)),
    {
        let ghost v0 = self.0@;
        let ghost tv = target_view(target);
        if target.index < self.0.len() {
            let i = target.index;
            self.0.set(i, target);
            proof {
                assert(targets_view(self.0@) =~= targets_view(v0).update(i as int, tv));
            }
        } else {
            self.0.push(target);
            proof {
                assert(targets_view(self.0@) =~= targets_view(v0).push(tv));
            }
        }
    }

    /// A row asked to be removed: it goes, and the rows after it move up.
    pub fn remove_row(&mut self, index: usize)
        requires
            index < old(self).0@.len(),
        ensures
            final(self).0@.len() == old(self).0@.len() - 1,
            forall|j: int|
                0 <= j < final(self).0@.len() ==> {
                    let o = if j < index {
                        old(self).0@[j]
                    } else {
                        old(self).0@[j + 1]
                    };
                    &&& (#[trigger] final(self).0@[j]).partition == o.partition
                    &&& final(self).0@[j].mountpoint == o.mountpoint
                    &&& final(self).0@[j].options == o.options
                    &&& final(self).0@[j].index == if o.index > index {
                        (o.index - 1) as usize
                    } else {
                        o.index
                    }
                },
    {
        let ghost v0 = self.0@;
        self.0.remove(index);
        let ghost v1 = self.0@;
        let mut k: usize = 0;
        while k < self.0.len()
            invariant
                k <= self.0@.len(),
                self.0@.len() == v1.len(),
                v1.len() == v0.len() - 1,
                0 <= index < v0.len(),
                forall|j: int| 0 <= j < v1.len() ==> #[trigger] v1[j] == (if j < index { v0[j] } else { v0[j + 1] }),
                forall|j: int|
                    k <= j < self.0@.len() ==> #[trigger] self.0@[j] == v1[j],
                forall|j: int|
                    0 <= j < k ==> {
                        &&& (#[trigger] self.0@[j]).partition == v1[j].partition
                        &&& self.0@[j].mountpoint == v1[j].mountpoint
                        &&& self.0@[j].options == v1[j].options
                        &&& self.0@[j].index == if v1[j].index > index {
                            (v1[j].index - 1) as usize
                        } else {
                            v1[j].index
                        }
                    },
            decreases self.0@.len() - k,
        {
            let mut t = self.0.remove(k);
            t.on_message(ChooseMountMsg::Removed(index));
            self.0.insert(k, t);
            k = k + 1;
        }
    }
}

} // verus!
