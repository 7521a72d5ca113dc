//! The confirmation page: what stops an installation (the disk is in use),
//! the warnings shown before it starts, and the order in which they are
//! shown.
use crate::install::InstallationType;
use crate::text::{chars_of, has_prefix, owned, parse_u64, parse_u64_exec, starts_with, strs};
use vstd::prelude::*;

verus! {

/// Why the chosen disk cannot be installed to now.
#[derive(Debug, Clone)]
pub enum Problem {
    /// A partition of the disk is mounted: the device and its mount point.
    DeviceMounted(String, String),
    /// Processes have the disk open: the disk and their ids.
    DevBlkOpen(String, Vec<usize>),
}

/// The first mount whose device is on the disk (its path starts with the
/// disk's), as device and mount point.
pub open spec fn first_mount_on(mounts: Seq<(Seq<char>, Seq<char>)>, disk: Seq<char>) -> Option<(Seq<char>, Seq<char>)>
    decreases mounts.len(),
{
    if mounts.len() == 0 {
        None
    } else if has_prefix(mounts[0].0, disk) {
        Some(mounts[0])
    } else {
        first_mount_on(mounts.drop_first(), disk)
    }
}

/// Device → mount point pairs as plain values.
pub open spec fn mounts_view(v: Seq<(String, String)>) -> Seq<(Seq<char>, Seq<char>)> {
    v.map_values(|p: (String, String)| (p.0@, p.1@))
}

/// The ids of the processes that hold a block device on the disk open: for
/// each open file, the process's directory name, the file's canonical path,
/// and whether it is a block device.
pub open spec fn open_pids(fds: Seq<(Seq<char>, Seq<char>, bool)>, disk: Seq<char>) -> Seq<usize>
    decreases fds.len(),
{
    if fds.len() == 0 {
        Seq::empty()
    } else {
        let rest = open_pids(fds.drop_last(), disk);
        let (name, target, is_block) = fds.last();
        match parse_u64(name) {
            Some(pid) => if pid <= usize::MAX && has_prefix(target, disk) && is_block {
                rest.push(pid as usize)
            } else {
                rest
            },
            None => rest,
        }
    }
}

/// Open files as plain values.
pub open spec fn fds_view(v: Seq<(String, String, bool)>) -> Seq<(Seq<char>, Seq<char>, bool)> {
    v.map_values(|p: (String, String, bool)| (p.0@, p.1@, p.2))
}

impl Problem {
    /// A partition of the disk that is mounted, from the list of mounts
    /// (device, mount point).
    pub fn detect_mounted(disk: &str, mounts: &Vec<(String, String)>) -> (r: Option<Problem>)
        ensures
            match first_mount_on(mounts_view(mounts@), disk@) {
                Some((dev, mp)) => r matches Some(Problem::DeviceMounted(d, m)) && d@ == dev && m@ == mp,
                None => r is None,
            },
    {
        let d = chars_of(disk);
        let ghost mv = mounts_view(mounts@);
        let mut i: usize = 0;
        proof {
            assert(mv.skip(0) =~= mv);
        }
        while i < mounts.len()
            invariant
                i <= mounts@.len(),
                d@ == disk@,
                mv == mounts_view(mounts@),
                first_mount_on(mv.skip(i as int), disk@) == first_mount_on(mv, disk@),
            decreases mounts@.len() - i,
        {
            proof {
                assert(mv.skip(i as int)[0] == mv[i as int]);
                assert(mv.skip(i as int).drop_first() =~= mv.skip(i + 1));
            }
            if starts_with(&chars_of(mounts[i].0.as_str()), &d) {
                return Some(Problem::DeviceMounted(mounts[i].0.clone(), mounts[i].1.clone()));
            }
            i = i + 1;
        }
        proof {
            assert(mv.skip(i as int) =~= Seq::<(Seq<char>, Seq<char>)>::empty());
        }
        None
    }

    /// The processes that have a block device of the disk open.
    pub fn open_block_devices(disk: &str, fds: &Vec<(String, String, bool)>) -> (r: Vec<usize>)
        ensures
            r@ == open_pids(fds_view(fds@), disk@),
    {
        let d = chars_of(disk);
        let ghost fv = fds_view(fds@);
        let mut r: Vec<usize> = Vec::new();
        let mut i: usize = 0;
        proof {
            assert(fv.take(0) =~= Seq::<(Seq<char>, Seq<char>, bool)>::empty());
        }
        while i < fds.len()
            invariant
                i <= fds@.len(),
                d@ == disk@,
                fv == fds_view(fds@),
                r@ == open_pids(fv.take(i as int), disk@),
            decreases fds@.len() - i,
        {
            proof {
                let t = fv.take(i + 1);
                assert(t.drop_last() =~= fv.take(i as int));
                assert(t.last() == fv[i as int]);
            }
            let (name, target, is_block) = &fds[i];
            match parse_u64_exec(&chars_of(name.as_str())) {
                Some(pid) => {
                    if pid <= usize::MAX as u64 && starts_with(&chars_of(target.as_str()), &d) && *is_block {
                        r.push(pid as usize);
                    }
                },
                None => {},
            }
            i = i + 1;
        }
        proof {
            assert(fv.take(i as int) =~= fv);
        }
        r
    }

    /// The problem with the disk, if any: a mounted partition first, else
    /// processes that have it open (`open` is what `open_block_devices`
    /// found, `None` when `/proc` could not be read).
    pub fn detect(disk: Option<&str>, mounts: &Vec<(String, String)>, open: Option<Vec<usize>>) -> (r: Option<Problem>)
        ensures
            match disk {
                None => r is None,
                Some(d) => match first_mount_on(mounts_view(mounts@), d@) {
                    Some((dev, mp)) => r matches Some(Problem::DeviceMounted(x, m)) && x@ == dev && m@ == mp,
                    None => match open {
                        Some(p) => if p@.len() > 0 {
                            r matches Some(Problem::DevBlkOpen(x, q)) && x@ == d@ && q@ == p@
                        } else {
                            r is None
                        },
                        None => r is None,
                    },
                },
            },
    {
        match disk {
            None => None,
            Some(d) => match Self::detect_mounted(d, mounts) {
                Some(p) => Some(p),
                None => match open {
                    Some(p) => if p.len() > 0 {
                        Some(Problem::DevBlkOpen(owned(d), p))
                    } else {
                        None
                    },
                    None => None,
                },
            },
        }
    }
}

/// The process ids joined by `, `.
pub open spec fn join_pids(pids: Seq<usize>) -> Seq<char>
    decreases pids.len(),
{
    if pids.len() == 0 {
        Seq::empty()
    } else if pids.len() == 1 {
        crate::text::dec(pids[0] as nat)
    } else {
        join_pids(pids.drop_last()) + seq![',', ' '] + crate::text::dec(pids.last() as nat)
    }
}

impl Problem {
    /// The id of the message and its arguments (`dev` and `mountpoint`, or
    /// `dev` and `pids`).
    pub fn msg_args(&self) -> (r: (String, Vec<(String, String)>))
        ensures
            match *self {
                Problem::DeviceMounted(dev, mp) => r.0@ == "page-confirmation-problem-device-mounted"@
                    && r.1@.map_values(|p: (String, String)| (p.0@, p.1@)) == seq![
                    ("dev"@, dev@),
                    ("mountpoint"@, mp@),
                ],
                Problem::DevBlkOpen(dev, pids) => r.0@ == "page-confirmation-problem-devblkopen"@
                    && r.1@.map_values(|p: (String, String)| (p.0@, p.1@)) == seq![
                    ("dev"@, dev@),
                    ("pids"@, join_pids(pids@)),
                ],
            },
    {
        let mut args: Vec<(String, String)> = Vec::new();
        match self {
            Problem::DeviceMounted(dev, mp) => {
                args.push((owned("dev"), dev.clone()));
                args.push((owned("mountpoint"), mp.clone()));
                proof {
                    assert(args@.map_values(|p: (String, String)| (p.0@, p.1@)) =~= seq![
                        ("dev"@, dev@),
                        ("mountpoint"@, mp@),
                    ]);
                }
                (owned("page-confirmation-problem-device-mounted"), args)
            },
            Problem::DevBlkOpen(dev, pids) => {
                let mut s = String::new();
                let mut i: usize = 0;
                while i < pids.len()
                    invariant
                        i <= pids@.len(),
                        s@ == join_pids(pids@.take(i as int)),
                    decreases pids@.len() - i,
                {
                    let ghost s0 = s@;
                    if i > 0 {
                        s.push(',');
                        s.push(' ');
                    }
                    crate::text::push_chars(&mut s, &crate::text::dec_chars(pids[i] as u64));
                    proof {
                        let t = pids@.take(i + 1);
                        assert(t.drop_last() =~= pids@.take(i as int));
                        assert(t.last() == pids@[i as int]);
                        if i == 0 {
                            assert(s@ =~= crate::text::dec(t[0] as nat));
                        } else {
                            assert(s@ =~= s0 + seq![',', ' '] + crate::text::dec(t.last() as nat));
                        }
                    }
                    i = i + 1;
                }
                proof {
                    assert(pids@.take(i as int) =~= pids@);
                }
                args.push((owned("dev"), dev.clone()));
                args.push((owned("pids"), s));
                proof {
                    assert(args@.map_values(|p: (String, String)| (p.0@, p.1@)) =~= seq![
                        ("dev"@, dev@),
                        ("pids"@, join_pids(pids@)),
                    ]);
                }
                (owned("page-confirmation-problem-devblkopen"), args)
            },
        }
    }
}

/// A warning shown before the installation starts.
#[derive(Debug, Clone, Copy, PartialEq, Eq, Structural)]
pub enum Warning {
    /// The disk has an EFI system partition, which a whole-disk installation
    /// erases.
    EfiPartFound,
}

impl Warning {
    /// The warning about an ESP on the disk: when one was found
    /// (`esp_found`) and the whole disk is being installed to.
    pub fn efi_part_found(esp_found: bool, installation_type: InstallationType) -> (r: Option<Warning>)
        ensures
            r is Some <==> (esp_found && installation_type == InstallationType::WholeDisk),
            r is Some ==> r == Some(Warning::EfiPartFound),
    {
        if esp_found && installation_type == InstallationType::WholeDisk {
            Some(Warning::EfiPartFound)
        } else {
            None
        }
    }

    /// The id of the warning's title among the translated messages.
    pub fn title(&self) -> (r: &'static str)
        ensures
            r@ == "dialog-confirm-warn-efipartfound-title"@,
    {
        match self {
            Warning::EfiPartFound => "dialog-confirm-warn-efipartfound-title",
        }
    }

    /// The id of the warning's text among the translated messages.
    pub fn desc(&self) -> (r: &'static str)
        ensures
            r@ == "dialog-confirm-warn-efipartfound-desc"@,
    {
        match self {
            Warning::EfiPartFound => "dialog-confirm-warn-efipartfound-desc",
        }
    }

    /// All warnings that apply, in order.
    pub fn list(esp_found: bool, installation_type: InstallationType) -> (r: Vec<Warning>)
        ensures
            r@ == (if esp_found && installation_type == InstallationType::WholeDisk {
                seq![Warning::EfiPartFound]
            } else {
                Seq::empty()
            }),
    {
        let mut v: Vec<Warning> = Vec::new();
        if let Some(w) = Self::efi_part_found(esp_found, installation_type) {
            v.push(w);
        }
        proof {
            assert(v@ =~= (if esp_found && installation_type == InstallationType::WholeDisk {
                seq![Warning::EfiPartFound]
            } else {
                Seq::empty()
            }));
        }
        v
    }
}

/// What the confirmation page is told.
pub enum ConfirmationEvent {
    /// The user asked to install; the warnings that apply.
    StartInstallation(Vec<Warning>),
    /// The user accepted the warning shown.
    WarnConfirm,
    /// The user turned the warning down.
    WarnCancel,
}

/// What the confirmation page does next.
#[derive(Debug, Clone, Copy, PartialEq, Eq, Structural)]
pub enum ConfirmationAction {
    /// Show this warning.
    ShowWarning(Warning),
    /// Start the installation and go to its page.
    Start,
    /// Nothing.
    Stay,
}

/// The warnings still to be shown, the last first.
pub struct ConfirmationFlow {
    pub warns: Vec<Warning>,
}

impl ConfirmationFlow {
    /// No warnings pending.
    pub fn new() -> (r: Self)
        ensures
            r.warns@.len() == 0,
    {
        ConfirmationFlow { warns: Vec::new() }
    }

    /// Shows the next warning if there is one and the window's overlay is
    /// there to show it in; else the installation starts.
    fn show_next(&mut self, overlay_available: bool) -> (r: ConfirmationAction)
        ensures
            old(self).warns@.len() == 0 ==> final(self).warns@.len() == 0 && r == ConfirmationAction::Start,
            old(self).warns@.len() > 0 ==> final(self).warns@ == old(self).warns@.drop_last() && r == (if overlay_available {
                ConfirmationAction::ShowWarning(old(self).warns@.last())
            } else {
                ConfirmationAction::Start
            }),
    {
        match self.warns.pop() {
            Some(w) => if overlay_available {
                ConfirmationAction::ShowWarning(w)
            } else {
                ConfirmationAction::Start
            },
            None => ConfirmationAction::Start,
        }
    }

    /// The page handles an event; `overlay_available` says whether a
    /// warning can be shown.
    pub fn on_event(&mut self, event: ConfirmationEvent, overlay_available: bool) -> (r: ConfirmationAction)
        ensures
            match event {
                ConfirmationEvent::WarnCancel => final(self).warns@.len() == 0 && r == ConfirmationAction::Stay,
                ConfirmationEvent::WarnConfirm => if old(self).warns@.len() == 0 {
                    final(self).warns@.len() == 0 && r == ConfirmationAction::Start
                } else {
                    final(self).warns@ == old(self).warns@.drop_last() && r == (if overlay_available {
                        ConfirmationAction::ShowWarning(old(self).warns@.last())
                    } else {
                        ConfirmationAction::Start
                    })
                },
                ConfirmationEvent::StartInstallation(ws) => if ws@.len() == 0 {
                    final(self).warns@.len() == 0 && r == ConfirmationAction::Start
                } else {
                    final(self).warns@ == ws@.drop_last() && r == (if overlay_available {
                        ConfirmationAction::ShowWarning(ws@.last())
                    } else {
                        ConfirmationAction::Start
                    })
                },
            },
    {
        match event {
            ConfirmationEvent::WarnCancel => {
                self.warns.clear();
                ConfirmationAction::Stay
            },
            ConfirmationEvent::WarnConfirm => self.show_next(overlay_available),
            ConfirmationEvent::StartInstallation(ws) => {
                self.warns = ws;
                self.show_next(overlay_available)
            },
        }
    }
}

} // verus!
