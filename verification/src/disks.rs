//! Disks the installer can write to, what is already on them, and the
//! partitioning operations of a clean install.
use crate::text::{
    chars_eq, chars_of, contains, contains_sub, has_prefix, owned, push_chars, split_char,
    split_char_exec, starts_with, string_of, strs, trim, trim_chars,
};
use crate::albius::{params_view, DiskOperation, DiskOperationType, Param, ParamView};
use crate::text::{dec, dec_string, ostr, parse_u64, parse_u64_exec, words, words_exec};
use vstd::prelude::*;

verus! {

/// `bytesize::ByteSize::kib(n)`, in bytes.
#[verifier::external_body]
fn kib_bytes(n: u64) -> (r: u64)
    requires
        n * 1024 <= u64::MAX,
    ensures
        r == n * 1024,
{
    bytesize::ByteSize::kib(n).as_u64()
}

/// A disk offered as installation target.
#[derive(Debug, Clone)]
pub struct DiskInit {
    pub disk_name: String,
    pub os_name: String,
    pub devpath: String,
    /// Size in bytes.
    pub size: u64,
}

/// A disk as plain values: name, operating system, device path, size.
pub open spec fn disk_view(d: DiskInit) -> (Seq<char>, Seq<char>, Seq<char>, u64) {
    (d.disk_name@, d.os_name@, d.devpath@, d.size)
}

impl DiskInit {
    /// A copy of the disk.
    pub fn duplicate(&self) -> (r: Self)
        ensures
            disk_view(r) == disk_view(*self),
    {
        DiskInit {
            disk_name: self.disk_name.clone(),
            os_name: self.os_name.clone(),
            devpath: self.devpath.clone(),
            size: self.size,
        }
    }
}


// ───────────────────────── other operating systems ─────────────────────────

/// An operating system that `os-prober` found.
#[derive(Debug, Clone)]
pub struct OSProbe {
    pub part: String,
    pub os_name_pretty: String,
}

/// The lines that are not empty.
pub open spec fn nonempty_lines(s: Seq<Seq<char>>) -> Seq<Seq<char>> {
    s.filter(|l: Seq<char>| l.len() > 0)
}

/// The lines of `os-prober`'s output that name a system: the output trimmed,
/// split at newlines, each line trimmed, the empty ones dropped.
pub open spec fn probe_lines(out: Seq<char>) -> Seq<Seq<char>> {
    nonempty_lines(split_char(trim(out), '\n').map_values(|l: Seq<char>| trim(l)))
}

/// An entry of `os-prober` has the partition and the system's name first,
/// separated by `:`.
pub open spec fn probe_entry_ok(entry: Seq<char>) -> bool {
    split_char(entry, ':').len() >= 2
}

impl OSProbe {
    /// Reads one line of `os-prober` output: `partition:name:...`.
    pub fn from_entry(entry: &str) -> (r: Self)
        requires
            probe_entry_ok(entry@),
        ensures
            r.part@ == split_char(entry@, ':')[0],
            r.os_name_pretty@ == split_char(entry@, ':')[1],
    {
        let parts = split_char_exec(&chars_of(entry), ':');
        proof {
            assert(parts@.map_values(|v: Vec<char>| v@)[0] == parts@[0]@);
            assert(parts@.map_values(|v: Vec<char>| v@)[1] == parts@[1]@);
        }
        OSProbe { part: string_of(&parts[0]), os_name_pretty: string_of(&parts[1]) }
    }

    /// The systems in the output of `os-prober` (`None` when it could not
    /// run): `None` too when it printed nothing but whitespace.
    pub fn scan(output: Option<String>) -> (r: Option<Vec<Self>>)
        requires
            output is Some ==> forall|i: int|
                0 <= i < probe_lines(output.unwrap()@).len() ==> probe_entry_ok(
                    #[trigger] probe_lines(output.unwrap()@)[i],
                ),
        ensures
            match output {
                None => r is None,
                Some(out) => if trim(out@).len() == 0 {
                    r is None
                } else {
                    r is Some && r->0@.len() == probe_lines(out@).len() && forall|i: int|
                        0 <= i < r->0@.len() ==> #[trigger] r->0@[i].part@ == split_char(
                            probe_lines(out@)[i],
                            ':',
                        )[0] && r->0@[i].os_name_pretty@ == split_char(probe_lines(out@)[i], ':')[1]
                },
            },
    {
        match output {
            None => None,
            Some(out) => {
                let t = trim_chars(&chars_of(out.as_str()));
                if t.len() == 0 {
                    return None;
                }
                let pieces = split_char_exec(&t, '\n');
                let ghost ls = split_char(t@, '\n').map_values(|l: Seq<char>| trim(l));
                let mut v: Vec<Self> = Vec::new();
                let mut i: usize = 0;
                proof {
                    assert(nonempty_lines(ls.take(0)) =~= Seq::<Seq<char>>::empty());
                }
                while i < pieces.len()
                    invariant
                        i <= pieces@.len(),
                        pieces@.map_values(|v: Vec<char>| v@) == split_char(t@, '\n'),
                        t@ == trim(out@),
                        ls == split_char(t@, '\n').map_values(|l: Seq<char>| trim(l)),
                        forall|k: int|
                            0 <= k < probe_lines(out@).len() ==> probe_entry_ok(
                                #[trigger] probe_lines(out@)[k],
                            ),
                        v@.len() == nonempty_lines(ls.take(i as int)).len(),
                        forall|k: int|
                            0 <= k < v@.len() ==> #[trigger] v@[k].part@ == split_char(
                                nonempty_lines(ls.take(i as int))[k],
                                ':',
                            )[0] && v@[k].os_name_pretty@ == split_char(
                                nonempty_lines(ls.take(i as int))[k],
                                ':',
                            )[1],
                    decreases pieces@.len() - i,
                {
                    let line = trim_chars(&pieces[i]);
                    proof {
                        assert(pieces@.map_values(|v: Vec<char>| v@)[i as int] == pieces@[i as int]@);
                        assert(line@ == ls[i as int]);
                        let before = ls.take(i as int);
                        let after = ls.take(i + 1);
                        assert(after =~= before.push(ls[i as int]));
                        before.lemma_filter_push(ls[i as int], |l: Seq<char>| l.len() > 0);
                    }
                    proof {
                        if line@.len() == 0 {
                            assert(nonempty_lines(ls.take(i + 1)) == nonempty_lines(ls.take(i as int)));
                        } else {
                            assert(nonempty_lines(ls.take(i + 1)) == nonempty_lines(ls.take(i as int)).push(line@));
                        }
                    }
                    if line.len() > 0 {
                        proof {
                            let f = nonempty_lines(ls.take(i + 1));
                            assert(f.last() == line@);
                            lemma_filter_prefix(ls, i + 1);
                            assert(probe_lines(out@) == nonempty_lines(ls));
                            assert(probe_lines(out@)[f.len() - 1] == line@);
                            assert(probe_entry_ok(probe_lines(out@)[f.len() - 1]));
                        }
                        let s = string_of(&line);
                        let e = Self::from_entry(s.as_str());
                        let ghost v0 = v@;
                        v.push(e);
                        proof {
                            let f = nonempty_lines(ls.take(i + 1));
                            assert forall|k: int| 0 <= k < v@.len() implies #[trigger] v@[k].part@ == split_char(f[k], ':')[0]
                                && v@[k].os_name_pretty@ == split_char(f[k], ':')[1] by {
                                if k < v0.len() {
                                    assert(v@[k] == v0[k]);
                                    assert(f[k] == nonempty_lines(ls.take(i as int))[k]);
                                } else {
                                    assert(v@[k] == e);
                                    assert(f[k] == line@);
                                }
                            }
                        }
                    }
                    i = i + 1;
                }
                proof {
                    assert(ls.take(pieces@.len() as int) =~= ls);
                }
                Some(v)
            },
        }
    }
}

/// The filtered prefix of a sequence is a prefix of the filtered sequence.
proof fn lemma_filter_prefix(s: Seq<Seq<char>>, n: int)
    requires
        0 <= n <= s.len(),
    ensures
        nonempty_lines(s.take(n)).len() <= nonempty_lines(s).len(),
        forall|k: int|
            0 <= k < nonempty_lines(s.take(n)).len() ==> #[trigger] nonempty_lines(s.take(n))[k] == nonempty_lines(s)[k],
    decreases s.len() - n,
{
    if n < s.len() {
        lemma_filter_prefix(s, n + 1);
        assert(s.take(n + 1) =~= s.take(n).push(s[n]));
        s.take(n).lemma_filter_push(s[n], |l: Seq<char>| l.len() > 0);
        let a = nonempty_lines(s.take(n));
        let b = nonempty_lines(s.take(n + 1));
        assert forall|k: int| 0 <= k < a.len() implies #[trigger] a[k] == nonempty_lines(s)[k] by {
            assert(a[k] == b[k]);
        }
    } else {
        assert(s.take(n) =~= s);
    }
}

// ───────────────────────── block devices ─────────────────────────

/// A device as `lsblk` lists it.
#[derive(Debug, Clone)]
pub struct LsblkOutput {
    pub path: String,
    pub uuid: String,
    pub parttype: String,
    pub parttypename: String,
}

impl LsblkOutput {
    /// Whether the device's path contains `device`.
    pub fn match_device(&self, device: &str) -> (r: bool)
        ensures
            r == contains_sub(self.path@, device@),
    {
        contains(&chars_of(self.path.as_str()), &chars_of(device))
    }
}


/// What is known of a block device when choosing targets.
#[derive(Debug, Clone)]
pub struct BlockFacts {
    /// The device's file name, as `sda`.
    pub name: String,
    /// Its path, as `/dev/sda`.
    pub fullname: String,
    pub is_disk: bool,
    pub is_physical: bool,
    /// The size in 512-byte sectors: `None` when it could not be read, the
    /// inner `None` when it could not be parsed.
    pub capacity: Option<Option<u64>>,
    /// The model from sysfs, when it could be read.
    pub model: Option<String>,
    pub label: Option<String>,
    pub id: Option<String>,
}

/// A disk is offered when it is a whole disk, not the live system, physical
/// (unless in a debug build), and of a known, non-zero size.
pub open spec fn valid_disk(live_device: Option<Seq<char>>, d: BlockFacts, debug_build: bool) -> bool {
    &&& d.is_disk
    &&& live_device != Some(d.name@)
    &&& (debug_build || d.is_physical)
    &&& d.capacity matches Some(Some(c)) && c != 0
}

/// Whether the disk is offered as a target; `live_device` is the disk the
/// live system runs from.
pub fn is_valid_disk(live_device: Option<&str>, disk: &BlockFacts, debug_build: bool) -> (r: bool)
    ensures
        r == valid_disk(
            match live_device {
                Some(l) => Some(l@),
                None => None,
            },
            *disk,
            debug_build,
        ),
{
    let is_live = match live_device {
        Some(l) => chars_eq(&chars_of(l), &chars_of(disk.name.as_str())),
        None => false,
    };
    let sized = match disk.capacity {
        Some(Some(c)) => c != 0,
        _ => false,
    };
    disk.is_disk && !is_live && (debug_build || disk.is_physical) && sized
}

/// The name shown for a disk: the model (trimmed), else the label, else the
/// id, followed by the device name in brackets; the device name alone when
/// none is known.
pub open spec fn disk_display_name(d: BlockFacts) -> Seq<char> {
    let known: Option<Seq<char>> = match d.model {
        Some(m) => Some(trim(m@)),
        None => match d.label {
            Some(l) => Some(l@),
            None => match d.id {
                Some(i) => Some(i@),
                None => None,
            },
        },
    };
    match known {
        Some(k) => k + seq![' ', '('] + d.name@ + seq![')'],
        None => d.name@,
    }
}

/// The name of the first system found on a partition of the disk, else
/// `unknown`.
pub open spec fn disk_os_name(probes: Seq<(Seq<char>, Seq<char>)>, fullname: Seq<char>, unknown: Seq<char>) -> Seq<char>
    decreases probes.len(),
{
    if probes.len() == 0 {
        unknown
    } else if has_prefix(probes[0].0, fullname) {
        probes[0].1
    } else {
        disk_os_name(probes.drop_first(), fullname, unknown)
    }
}

/// Partition → system pairs as plain values.
pub open spec fn probes_view(v: Seq<(String, String)>) -> Seq<(Seq<char>, Seq<char>)> {
    v.map_values(|p: (String, String)| (p.0@, p.1@))
}

/// The sectors of a disk, in bytes as `ByteSize::kib` counts them.
pub open spec fn disk_bytes(sectors: u64) -> int {
    (sectors / 2) * 1024
}

fn first_os_name(probes: &Vec<(String, String)>, fullname: &str, unknown_os: &str) -> (r: String)
    ensures
        r@ == disk_os_name(probes_view(probes@), fullname@, unknown_os@),
{
    let full = chars_of(fullname);
    let mut i: usize = 0;
    let ghost pv = probes_view(probes@);
    proof {
        assert(pv.skip(0) =~= pv);
    }
    while i < probes.len()
        invariant
            i <= probes@.len(),
            pv == probes_view(probes@),
            full@ == fullname@,
            disk_os_name(pv.skip(i as int), full@, unknown_os@) == disk_os_name(pv, full@, unknown_os@),
        decreases probes@.len() - i,
    {
        let path = chars_of(probes[i].0.as_str());
        proof {
            assert(pv.skip(i as int)[0] == pv[i as int]);
            assert(pv.skip(i as int).drop_first() =~= pv.skip(i + 1));
        }
        if starts_with(&path, &full) {
            return probes[i].1.clone();
        }
        i = i + 1;
    }
    proof {
        assert(pv.skip(i as int) =~= Seq::<(Seq<char>, Seq<char>)>::empty());
    }
    owned(unknown_os)
}

/// A disk as offered: its shown name, the system on it, its path and size.
/// `probes` are the partitions `os-prober` found, with their systems;
/// `unknown_os` is what is shown when there is none.
pub fn make_disk_init(probes: &Vec<(String, String)>, disk: &BlockFacts, unknown_os: &str) -> (r: DiskInit)
    requires
        disk.capacity matches Some(Some(c)) && disk_bytes(c) <= u64::MAX,
    ensures
        r.disk_name@ == disk_display_name(*disk),
        r.os_name@ == disk_os_name(probes_view(probes@), disk.fullname@, unknown_os@),
        r.devpath@ == disk.fullname@,
        r.size == disk_bytes(disk.capacity->0->0),
{
    let name = chars_of(disk.name.as_str());
    let known: Option<Vec<char>> = match &disk.model {
        Some(m) => Some(trim_chars(&chars_of(m.as_str()))),
        None => match &disk.label {
            Some(l) => Some(chars_of(l.as_str())),
            None => match &disk.id {
                Some(i) => Some(chars_of(i.as_str())),
                None => None,
            },
        },
    };
    let disk_name = match known {
        Some(k) => {
            let mut s = string_of(&k);
            s.push(' ');
            s.push('(');
            push_chars(&mut s, &name);
            s.push(')');
            proof {
                assert(s@ =~= disk_display_name(*disk));
            }
            s
        },
        None => string_of(&name),
    };
    let os_name = first_os_name(probes, disk.fullname.as_str(), unknown_os);
    let c = match disk.capacity {
        Some(Some(c)) => c,
        _ => 0,
    };
    DiskInit { disk_name, os_name, devpath: disk.fullname.clone(), size: kib_bytes(c / 2) }
}


// ───────────────────────── partitions of a clean install ─────────────────────────

/// The name of the distribution, as partition label.
pub open spec fn distro_label() -> Seq<char> {
    "Ultramarine Linux"@
}

/// A mebibyte.
pub open spec fn mib() -> nat {
    1048576
}

/// `<u8 as FromStr>::from_str`.
pub open spec fn parse_u8(s: Seq<char>) -> Option<u8> {
    match parse_u64(s) {
        Some(n) => if n <= 255 {
            Some(n as u8)
        } else {
            None
        },
        None => None,
    }
}

/// The first three words of a line of `lsblk -o partn,path,size`, when it
/// has them.
pub open spec fn row_of(line: Seq<char>) -> Option<(Seq<char>, Seq<char>, Seq<char>)> {
    let w = words(line);
    if w.len() >= 3 {
        Some((w[0], w[1], w[2]))
    } else {
        None
    }
}

/// The rows whose path contains `disk`, in order.
pub open spec fn disk_rows(lines: Seq<Seq<char>>, disk: Seq<char>) -> Seq<(Seq<char>, Seq<char>, Seq<char>)>
    decreases lines.len(),
{
    if lines.len() == 0 {
        Seq::empty()
    } else {
        let rest = disk_rows(lines.drop_last(), disk);
        match row_of(lines.last()) {
            Some(r) => if contains_sub(r.1, disk) {
                rest.push(r)
            } else {
                rest
            },
            None => rest,
        }
    }
}

/// The rows of `lsblk` output (after its header) on the disk `disk`.
pub open spec fn lsblk_disk_rows(out: Seq<char>, disk: Seq<char>) -> Seq<(Seq<char>, Seq<char>, Seq<char>)> {
    disk_rows(split_char(out, '\n').skip(1), disk)
}

/// Every row's partition number reads as a `u8`.
pub open spec fn partns_ok(rows: Seq<(Seq<char>, Seq<char>, Seq<char>)>) -> bool {
    forall|k: int| 0 <= k < rows.len() ==> (#[trigger] parse_u8(rows[k].0)) is Some
}

/// The size column of the disk's own row: the first line whose words are
/// just the disk's path and a size (the disk itself has no partition number).
pub open spec fn disk_size_text(lines: Seq<Seq<char>>, disk: Seq<char>) -> Option<Seq<char>>
    decreases lines.len(),
{
    if lines.len() == 0 {
        None
    } else {
        let w = words(lines[0]);
        if w.len() == 2 && w[0] == disk {
            Some(w[1])
        } else {
            disk_size_text(lines.drop_first(), disk)
        }
    }
}

/// The size column of the row of the disk `disk` in `lsblk` output (after
/// its header).
pub open spec fn lsblk_disk_size(out: Seq<char>, disk: Seq<char>) -> Option<Seq<char>> {
    disk_size_text(split_char(out, '\n').skip(1), disk)
}

/// What `_get_disk_partns_disksize` finds: the partition numbers of the rows
/// of the disk's partitions and the size of the disk's own row in MiB.
pub open spec fn partns_disksize(
    rows: Seq<(Seq<char>, Seq<char>, Seq<char>)>,
    size_text: Option<Seq<char>>,
) -> Result<(Seq<u8>, nat), Seq<char>> {
    match size_text {
        None => Err("Cannot find disk in lsblk output"@),
        Some(t) => match parse_u64(t) {
            None => Err("Cannot parse size"@),
            Some(size) => if partns_ok(rows) {
                Ok((rows.map_values(|r: (Seq<char>, Seq<char>, Seq<char>)| parse_u8(r.0).unwrap()), size as nat / mib()))
            } else {
                Err("Cannot parse some partn values from lsblk"@)
            },
        },
    }
}

/// `partns_disksize` on the output of `lsblk` for the disk `disk`.
pub open spec fn lsblk_partns_disksize(out: Seq<char>, disk: Seq<char>) -> Result<(Seq<u8>, nat), Seq<char>> {
    partns_disksize(lsblk_disk_rows(out, disk), lsblk_disk_size(out, disk))
}

fn disk_size_exec(out: &str, disk: &[char]) -> (r: Option<Vec<char>>)
    ensures
        match lsblk_disk_size(out@, disk@) {
            Some(t) => r matches Some(v) && v@ == t,
            None => r is None,
        },
{
    let lines = split_char_exec(&chars_of(out), '\n');
    let ghost ls = split_char(out@, '\n');
    proof {
        crate::text::lemma_split_char_len(out@, '\n');
    }
    let mut i: usize = 1;
    while i < lines.len()
        invariant
            1 <= i <= lines@.len(),
            lines@.map_values(|v: Vec<char>| v@) == ls,
            ls == split_char(out@, '\n'),
            disk_size_text(ls.skip(1), disk@) == disk_size_text(ls.skip(i as int), disk@),
        decreases lines@.len() - i,
    {
        let w = words_exec(&lines[i]);
        proof {
            assert(lines@.map_values(|v: Vec<char>| v@)[i as int] == lines@[i as int]@);
            assert(ls.skip(i as int)[0] == ls[i as int]);
            assert(ls.skip(i as int).drop_first() =~= ls.skip(i + 1));
            assert(w@.map_values(|v: Vec<char>| v@) == words(ls[i as int]));
        }
        if w.len() == 2 {
            proof {
                assert(w@.map_values(|v: Vec<char>| v@)[0] == w@[0]@);
                assert(w@.map_values(|v: Vec<char>| v@)[1] == w@[1]@);
            }
            if chars_eq(&w[0], disk) {
                return Some(w[1].clone());
            }
        }
        i = i + 1;
    }
    proof {
        assert(ls.skip(i as int) =~= Seq::<Seq<char>>::empty());
    }
    None
}

fn disk_rows_exec(out: &str, disk: &[char]) -> (r: Vec<(Vec<char>, Vec<char>, Vec<char>)>)
    ensures
        r@.map_values(|t: (Vec<char>, Vec<char>, Vec<char>)| (t.0@, t.1@, t.2@)) == lsblk_disk_rows(out@, disk@),
{
    let lines = split_char_exec(&chars_of(out), '\n');
    let ghost ls = split_char(out@, '\n');
    let mut r: Vec<(Vec<char>, Vec<char>, Vec<char>)> = Vec::new();
    proof {
        crate::text::lemma_split_char_len(out@, '\n');
        assert(ls.skip(1).take(0) =~= Seq::<Seq<char>>::empty());
    }
    let mut i: usize = 1;
    while i < lines.len()
        invariant
            1 <= i <= lines@.len(),
            lines@.map_values(|v: Vec<char>| v@) == ls,
            ls == split_char(out@, '\n'),
            r@.map_values(|t: (Vec<char>, Vec<char>, Vec<char>)| (t.0@, t.1@, t.2@)) == disk_rows(
                ls.skip(1).take(i - 1),
                disk@,
            ),
        decreases lines@.len() - i,
    {
        let w = words_exec(&lines[i]);
        let ghost rv0 = r@.map_values(|t: (Vec<char>, Vec<char>, Vec<char>)| (t.0@, t.1@, t.2@));
        proof {
            assert(lines@.map_values(|v: Vec<char>| v@)[i as int] == lines@[i as int]@);
            let t = ls.skip(1).take(i as int);
            assert(t.drop_last() =~= ls.skip(1).take(i - 1));
            assert(t.last() == ls[i as int]);
            assert(w@.map_values(|v: Vec<char>| v@) == words(ls[i as int]));
        }
        if w.len() >= 3 {
            proof {
                assert(w@.map_values(|v: Vec<char>| v@)[0] == w@[0]@);
                assert(w@.map_values(|v: Vec<char>| v@)[1] == w@[1]@);
                assert(w@.map_values(|v: Vec<char>| v@)[2] == w@[2]@);
            }
            if contains(&w[1], disk) {
                let row = (w[0].clone(), w[1].clone(), w[2].clone());
                r.push(row);
                proof {
                    assert(r@.map_values(|t: (Vec<char>, Vec<char>, Vec<char>)| (t.0@, t.1@, t.2@)) =~= rv0.push(
                        (w@[0]@, w@[1]@, w@[2]@),
                    ));
                }
            }
        }
        i = i + 1;
    }
    proof {
        assert(ls.skip(1).take(i - 1) =~= ls.skip(1));
    }
    r
}

/// The partition numbers on the disk `diskpath` and its size in MiB, from
/// the output of `lsblk --bytes -o partn,path,size`: the partitions are the
/// rows (after the header) with three columns whose path contains the disk's
/// path; the size is that of the disk's own row, `path size`.
pub fn _get_disk_partns_disksize(lsblk_output: &str, diskpath: &str) -> (r: Result<(Vec<u8>, u64), String>)
    ensures
        match lsblk_partns_disksize(lsblk_output@, diskpath@) {
            Ok((p, size)) => r matches Ok((rp, rs)) && rp@ == p && rs == size,
            Err(e) => r matches Err(re) && re@ == e,
        },
{
    let disk = chars_of(diskpath);
    let rows = disk_rows_exec(lsblk_output, &disk);
    let ghost rv = rows@.map_values(|t: (Vec<char>, Vec<char>, Vec<char>)| (t.0@, t.1@, t.2@));
    let size_text = match disk_size_exec(lsblk_output, &disk) {
        Some(t) => t,
        None => {
            return Err(owned("Cannot find disk in lsblk output"));
        },
    };
    let size = match parse_u64_exec(&size_text) {
        Some(s) => s,
        None => {
            return Err(owned("Cannot parse size"));
        },
    };
    let mut partns: Vec<u8> = Vec::new();
    let mut i: usize = 0;
    while i < rows.len()
        invariant
            i <= rows@.len(),
            rv == rows@.map_values(|t: (Vec<char>, Vec<char>, Vec<char>)| (t.0@, t.1@, t.2@)),
            partns@.len() == i,
            lsblk_disk_size(lsblk_output@, diskpath@) == Some(size_text@),
            parse_u64(size_text@) == Some(size),
            rv == lsblk_disk_rows(lsblk_output@, diskpath@),
            forall|k: int| 0 <= k < i ==> (#[trigger] parse_u8(rv[k].0)) == Some(partns@[k]),
        decreases rows@.len() - i,
    {
        proof {
            assert(rv[i as int] == (rows@[i as int].0@, rows@[i as int].1@, rows@[i as int].2@));
        }
        match parse_u64_exec(&rows[i].0) {
            Some(n) => if n <= 255 {
                partns.push(n as u8);
            } else {
                proof {
                    assert(parse_u8(rv[i as int].0) is None);
                    assert(!partns_ok(rv));
                }
                return Err(owned("Cannot parse some partn values from lsblk"));
            },
            None => {
                proof {
                    assert(parse_u8(rv[i as int].0) is None);
                    assert(!partns_ok(rv));
                }
                return Err(owned("Cannot parse some partn values from lsblk"));
            },
        }
        i = i + 1;
    }
    proof {
        assert(partns@ =~= rv.map_values(|r: (Seq<char>, Seq<char>, Seq<char>)| parse_u8(r.0).unwrap()));
    }
    Ok((partns, size / 1048576))
}


/// An operation as plain values: disk, kind, parameters.
pub open spec fn op_view(o: DiskOperation) -> (Seq<char>, DiskOperationType, Seq<ParamView>) {
    (o.disk@, o.operation, params_view(o.params@))
}

/// The operations as plain values.
pub open spec fn ops_view(v: Seq<DiskOperation>) -> Seq<(Seq<char>, DiskOperationType, Seq<ParamView>)> {
    v.map_values(|o: DiskOperation| op_view(o))
}

/// Removal of each partition, in order: by its number written out, or by the
/// number itself.
pub open spec fn rm_ops(disk: Seq<char>, partns: Seq<u8>, as_text: bool) -> Seq<(Seq<char>, DiskOperationType, Seq<ParamView>)>
    decreases partns.len(),
{
    if partns.len() == 0 {
        Seq::empty()
    } else {
        rm_ops(disk, partns.drop_last(), as_text).push(
            (
                disk,
                DiskOperationType::Rm,
                if as_text {
                    seq![ParamView::Str(dec(partns.last() as nat))]
                } else {
                    seq![ParamView::Num(partns.last() as u64)]
                },
            ),
        )
    }
}

/// A `mkpart` operation: name, file system, start and end in MiB.
pub open spec fn mkpart(disk: Seq<char>, name: Seq<char>, fs: Seq<char>, start: u64, end: u64) -> (Seq<char>, DiskOperationType, Seq<ParamView>) {
    (disk, DiskOperationType::Mkpart, seq![ParamView::Str(name), ParamView::Str(fs), ParamView::Num(start), ParamView::Num(end)])
}

/// A new GPT label, then the partitions.
pub open spec fn layout_ops(disk: Seq<char>, first: (Seq<char>, Seq<char>, u64), boot_fs: Seq<char>, disksize: u64) -> Seq<(Seq<char>, DiskOperationType, Seq<ParamView>)> {
    let boot_start = first.2;
    seq![
        (disk, DiskOperationType::Label, seq![ParamView::Str("gpt"@)]),
        mkpart(disk, first.0, first.1, 1, boot_start),
        mkpart(disk, "Boot"@, boot_fs, boot_start, (boot_start + 1024) as u64),
        mkpart(disk, distro_label(), "btrfs"@, (boot_start + 1024) as u64, (disksize - 1) as u64),
    ]
}

fn push_rm_ops(ops: &mut Vec<DiskOperation>, disk: &str, partns: &Vec<u8>, as_text: bool)
    ensures
        ops_view(final(ops)@) == ops_view(old(ops)@) + rm_ops(disk@, partns@, as_text),
{
    let ghost o0 = ops_view(ops@);
    let mut i: usize = 0;
    proof {
        assert(partns@.take(0) =~= Seq::<u8>::empty());
        assert(ops_view(ops@) =~= o0 + rm_ops(disk@, partns@.take(0), as_text));
    }
    while i < partns.len()
        invariant
            i <= partns@.len(),
            ops_view(ops@) == o0 + rm_ops(disk@, partns@.take(i as int), as_text),
        decreases partns@.len() - i,
    {
        let n = partns[i];
        let param = if as_text {
            Param::Str(dec_string(n as u64))
        } else {
            Param::Num(n as u64)
        };
        let mut params: Vec<Param> = Vec::new();
        params.push(param);
        let ghost v0 = ops_view(ops@);
        ops.push(DiskOperation { disk: owned(disk), operation: DiskOperationType::Rm, params });
        proof {
            let t = partns@.take(i + 1);
            assert(t.drop_last() =~= partns@.take(i as int));
            assert(t.last() == n);
            assert(ops_view(ops@) =~= v0.push(op_view(ops@.last())));
            assert(params_view(ops@.last().params@) =~= if as_text {
                seq![ParamView::Str(dec(n as nat))]
            } else {
                seq![ParamView::Num(n as u64)]
            });
            assert(ops_view(ops@) =~= o0 + rm_ops(disk@, t, as_text));
        }
        i = i + 1;
    }
    proof {
        assert(partns@.take(partns@.len() as int) =~= partns@);
    }
}

fn str_param(s: &str) -> (r: Param)
    ensures
        crate::albius::param_view(r) == ParamView::Str(s@),
{
    Param::Str(owned(s))
}

fn push_mkpart(ops: &mut Vec<DiskOperation>, disk: &str, name: &str, fs: &str, start: u64, end: u64)
    ensures
        ops_view(final(ops)@) == ops_view(old(ops)@).push(mkpart(disk@, name@, fs@, start, end)),
{
    let mut params: Vec<Param> = Vec::new();
    params.push(str_param(name));
    params.push(str_param(fs));
    params.push(Param::Num(start));
    params.push(Param::Num(end));
    let ghost v0 = ops_view(ops@);
    ops.push(DiskOperation { disk: owned(disk), operation: DiskOperationType::Mkpart, params });
    proof {
        assert(params_view(ops@.last().params@) =~= mkpart(disk@, name@, fs@, start, end).2);
        assert(ops_view(ops@) =~= v0.push(mkpart(disk@, name@, fs@, start, end)));
    }
}

fn layout(ops: &mut Vec<DiskOperation>, disk: &str, first_name: &str, first_fs: &str, boot_start: u64, boot_fs: &str, disksize: u64)
    requires
        disksize >= 1,
        boot_start <= 2048,
    ensures
        ops_view(final(ops)@) == ops_view(old(ops)@) + layout_ops(disk@, (first_name@, first_fs@, boot_start), boot_fs@, disksize),
{
    let ghost v0 = ops_view(ops@);
    let mut params: Vec<Param> = Vec::new();
    params.push(str_param("gpt"));
    ops.push(DiskOperation { disk: owned(disk), operation: DiskOperationType::Label, params });
    let ghost v1 = ops_view(ops@);
    proof {
        assert(params_view(ops@.last().params@) =~= seq![ParamView::Str("gpt"@)]);
        assert(v1 =~= v0.push((disk@, DiskOperationType::Label, seq![ParamView::Str("gpt"@)])));
    }
    push_mkpart(ops, disk, first_name, first_fs, 1, boot_start);
    push_mkpart(ops, disk, "Boot", boot_fs, boot_start, boot_start + 1024);
    push_mkpart(ops, disk, "Ultramarine Linux", "btrfs", boot_start + 1024, disksize - 1);
    proof {
        assert(ops_view(ops@) =~= v0 + layout_ops(disk@, (first_name@, first_fs@, boot_start), boot_fs@, disksize));
    }
}

/// What a clean install needs: a disk found in the `lsblk` output has a size
/// of at least one MiB (the root partition ends one MiB before the end).
pub open spec fn clean_install_ok(lsblk_output: Seq<char>, diskpath: Seq<char>) -> bool {
    lsblk_partns_disksize(lsblk_output, diskpath) matches Ok((_, size)) ==> size >= 1
}

/// The operations of a clean install, or the error of the `lsblk` output.
pub open spec fn install_ops(
    lsblk_output: Seq<char>,
    diskpath: Seq<char>,
    as_text: bool,
    first: (Seq<char>, Seq<char>, u64),
    boot_fs: Seq<char>,
) -> Result<Seq<(Seq<char>, DiskOperationType, Seq<ParamView>)>, Seq<char>> {
    match lsblk_partns_disksize(lsblk_output, diskpath) {
        Ok((partns, size)) => Ok(rm_ops(diskpath, partns, as_text) + layout_ops(diskpath, first, boot_fs, size as u64)),
        Err(e) => Err(e),
    }
}

/// Erase the partition table and make three partitions: the ESP (512 MiB),
/// `/boot` (1 GiB, XFS), and the root (the rest, Btrfs). `lsblk_output` is the
/// output of `lsblk --bytes -o partn,path,size`.
pub fn clean_install(diskpath: &str, lsblk_output: &str) -> (r: Result<Vec<DiskOperation>, String>)
    requires
        clean_install_ok(lsblk_output@, diskpath@),
    ensures
        match install_ops(lsblk_output@, diskpath@, true, ("EFI"@, "fat32"@, 513), "xfs"@) {
            Ok(ops) => r matches Ok(v) && ops_view(v@) == ops,
            Err(e) => r matches Err(x) && x@ == e,
        },
{
    partition_ops(diskpath, lsblk_output, true, "EFI", "fat32", 513, "xfs")
}

/// Erase the partition table and make three partitions: the submarine
/// bootloader (16 MiB), `/boot` (1 GiB, ext4), and the root (the rest,
/// Btrfs).
pub fn chromebook_clean_install(diskpath: &str, lsblk_output: &str) -> (r: Result<Vec<DiskOperation>, String>)
    requires
        clean_install_ok(lsblk_output@, diskpath@),
    ensures
        match install_ops(lsblk_output@, diskpath@, false, ("Submarine"@, "fat32"@, 17), "ext4"@) {
            Ok(ops) => r matches Ok(v) && ops_view(v@) == ops,
            Err(e) => r matches Err(x) && x@ == e,
        },
{
    partition_ops(diskpath, lsblk_output, false, "Submarine", "fat32", 17, "ext4")
}

fn partition_ops(
    diskpath: &str,
    lsblk_output: &str,
    as_text: bool,
    first_name: &str,
    first_fs: &str,
    boot_start: u64,
    boot_fs: &str,
) -> (r: Result<Vec<DiskOperation>, String>)
    requires
        clean_install_ok(lsblk_output@, diskpath@),
        boot_start <= 2048,
    ensures
        match install_ops(lsblk_output@, diskpath@, as_text, (first_name@, first_fs@, boot_start), boot_fs@) {
            Ok(ops) => r matches Ok(v) && ops_view(v@) == ops,
            Err(e) => r matches Err(x) && x@ == e,
        },
{
    match _get_disk_partns_disksize(lsblk_output, diskpath) {
        Err(e) => Err(e),
        Ok((partns, disksize)) => {
            let mut ops: Vec<DiskOperation> = Vec::new();
            proof {
                assert(ops_view(ops@) =~= Seq::<(Seq<char>, DiskOperationType, Seq<ParamView>)>::empty());
            }
            push_rm_ops(&mut ops, diskpath, &partns, as_text);
            layout(&mut ops, diskpath, first_name, first_fs, boot_start, boot_fs, disksize);
            proof {
                assert(ops_view(ops@) =~= rm_ops(diskpath@, partns@, as_text) + layout_ops(
                    diskpath@,
                    (first_name@, first_fs@, boot_start),
                    boot_fs@,
                    disksize,
                ));
            }
            Ok(ops)
        },
    }
}


// ───────────────────────── dual boot ─────────────────────────

/// The partitions of the disk `disk` that `lsblk -bo partn,path,size` lists,
/// each line cut at its first space after the leading blanks: a partition
/// number (not a path) and the rest, which starts with the disk's path.
pub open spec fn dual_boot_rows(lines: Seq<Seq<char>>, disk: Seq<char>) -> Seq<(Seq<char>, Seq<char>)>
    decreases lines.len(),
{
    if lines.len() == 0 {
        Seq::empty()
    } else {
        let rest = dual_boot_rows(lines.drop_last(), disk);
        match crate::text::split_once(crate::text::trim_start(lines.last()), ' ') {
            Some((left, right)) => if !has_prefix(left, seq!['/']) && has_prefix(right, disk) {
                rest.push((left, right))
            } else {
                rest
            },
            None => rest,
        }
    }
}

/// The partition to shrink for a dual boot, found in `lsblk` output.
#[derive(Debug, Clone)]
pub struct DualBootTarget {
    /// Its partition number, as `lsblk` wrote it.
    pub partn: String,
    /// Its device path.
    pub partpath: String,
    /// Its size in MiB.
    pub size_mib: u64,
    /// Where the kernel tells its first sector: `/sys/block/{disk}/{part}/start`.
    pub start_path: String,
    /// Where the kernel tells the disk's size in sectors: `/sys/block/{disk}/size`.
    pub disk_size_path: String,
}

/// What `dual_boot_target` finds for the disk `disk`: the last partition row
/// of the disk, its path and size, and the files that hold where it starts
/// and how large the disk is; or the error.
pub open spec fn dual_boot_target_spec(out: Seq<char>, disk: Seq<char>) -> Result<
    (Seq<char>, Seq<char>, u64, Seq<char>, Seq<char>),
    Seq<char>,
> {
    let rows = dual_boot_rows(split_char(out, '\n').skip(1), disk);
    if rows.len() == 0 {
        Err("lsblk has no output"@)
    } else {
        let (partn, path_size) = rows.last();
        match crate::text::split_once(path_size, ' ') {
            None => Err("Cannot split path_size(=>note)"@),
            Some((partpath, size)) => match parse_u64(crate::text::trim_start(size)) {
                None => Err("Cannot parse size"@),
                Some(bytes) => match crate::text::rsplit_once(disk, '/') {
                    None => Err("Cannot get disk id"@),
                    Some((_, diskid)) => match crate::text::rsplit_once(partpath, '/') {
                        None => Err("Cannot get part id"@),
                        Some((_, partid)) => Ok(
                            (
                                partn,
                                partpath,
                                (bytes as nat / mib()) as u64,
                                "/sys/block/"@ + diskid + seq!['/'] + partid + "/start"@,
                                "/sys/block/"@ + diskid + "/size"@,
                            ),
                        ),
                    },
                },
            },
        }
    }
}

fn dual_boot_rows_exec(out: &str, disk: &[char]) -> (r: Vec<(Vec<char>, Vec<char>)>)
    ensures
        r@.map_values(|t: (Vec<char>, Vec<char>)| (t.0@, t.1@)) == dual_boot_rows(split_char(out@, '\n').skip(1), disk@),
{
    let lines = split_char_exec(&chars_of(out), '\n');
    let ghost ls = split_char(out@, '\n');
    let mut r: Vec<(Vec<char>, Vec<char>)> = Vec::new();
    proof {
        crate::text::lemma_split_char_len(out@, '\n');
        assert(ls.skip(1).take(0) =~= Seq::<Seq<char>>::empty());
    }
    let slash = ['/'];
    let mut i: usize = 1;
    while i < lines.len()
        invariant
            1 <= i <= lines@.len(),
            lines@.map_values(|v: Vec<char>| v@) == ls,
            ls == split_char(out@, '\n'),
            slash@ == seq!['/'],
            r@.map_values(|t: (Vec<char>, Vec<char>)| (t.0@, t.1@)) == dual_boot_rows(ls.skip(1).take(i - 1), disk@),
        decreases lines@.len() - i,
    {
        let ghost rv0 = r@.map_values(|t: (Vec<char>, Vec<char>)| (t.0@, t.1@));
        proof {
            assert(lines@.map_values(|v: Vec<char>| v@)[i as int] == lines@[i as int]@);
            let t = ls.skip(1).take(i as int);
            assert(t.drop_last() =~= ls.skip(1).take(i - 1));
            assert(t.last() == ls[i as int]);
        }
        let t = crate::text::trim_start_chars(&lines[i]);
        match crate::text::split_once_exec(&t, ' ') {
            Some((left, right)) => {
                if !starts_with(&left, &slash) && starts_with(&right, disk) {
                    let ghost row = (left@, right@);
                    r.push((left, right));
                    proof {
                        assert(r@.map_values(|t: (Vec<char>, Vec<char>)| (t.0@, t.1@)) =~= rv0.push(row));
                    }
                }
            },
            None => {},
        }
        i = i + 1;
    }
    proof {
        assert(ls.skip(1).take(i - 1) =~= ls.skip(1));
    }
    r
}

/// Finds the partition of the disk `diskpath` to shrink for a dual boot, in
/// the output of `lsblk -bo partn,path,size`: the last partition listed for
/// the disk (the one with the highest number).
pub fn dual_boot_target(lsblk_output: &str, diskpath: &str) -> (r: Result<DualBootTarget, String>)
    ensures
        match dual_boot_target_spec(lsblk_output@, diskpath@) {
            Ok((partn, partpath, size, start_path, disk_size_path)) => r matches Ok(t) && t.partn@ == partn
                && t.partpath@ == partpath && t.size_mib == size && t.start_path@ == start_path
                && t.disk_size_path@ == disk_size_path,
            Err(e) => r matches Err(x) && x@ == e,
        },
{
    let disk = chars_of(diskpath);
    let rows = dual_boot_rows_exec(lsblk_output, &disk);
    let ghost rv = rows@.map_values(|t: (Vec<char>, Vec<char>)| (t.0@, t.1@));
    if rows.len() == 0 {
        return Err(owned("lsblk has no output"));
    }
    let last = rows.len() - 1;
    proof {
        assert(rv.last() == (rows@[last as int].0@, rows@[last as int].1@));
    }
    let (partpath, size) = match crate::text::split_once_exec(&rows[last].1, ' ') {
        Some(p) => p,
        None => {
            return Err(owned("Cannot split path_size(=>note)"));
        },
    };
    let bytes = match parse_u64_exec(&crate::text::trim_start_chars(&size)) {
        Some(b) => b,
        None => {
            return Err(owned("Cannot parse size"));
        },
    };
    let diskid = match crate::text::rsplit_once_exec(&disk, '/') {
        Some((_, d)) => d,
        None => {
            return Err(owned("Cannot get disk id"));
        },
    };
    let partid = match crate::text::rsplit_once_exec(&partpath, '/') {
        Some((_, p)) => p,
        None => {
            return Err(owned("Cannot get part id"));
        },
    };
    let mut start_path = owned("/sys/block/");
    push_chars(&mut start_path, &diskid);
    start_path.push('/');
    push_chars(&mut start_path, &partid);
    push_chars(&mut start_path, &chars_of("/start"));
    let mut disk_size_path = owned("/sys/block/");
    push_chars(&mut disk_size_path, &diskid);
    push_chars(&mut disk_size_path, &chars_of("/size"));
    proof {
        assert(start_path@ =~= "/sys/block/"@ + diskid@ + seq!['/'] + partid@ + "/start"@);
        assert(disk_size_path@ =~= "/sys/block/"@ + diskid@ + "/size"@);
    }
    Ok(DualBootTarget {
        partn: string_of(&rows[last].0),
        partpath: string_of(&partpath),
        size_mib: bytes / 1048576,
        start_path,
        disk_size_path,
    })
}

/// A number of 512-byte sectors in whole MiB.
pub open spec fn sectors_mib(n: u64) -> u64 {
    n / 2048
}

/// The operations of a dual boot on the disk `disk`: the target partition
/// resized to `resize` MiB when its size differs, then `/boot` (1 GiB) and
/// the root (to one MiB before the disk's end) after it; `start_text` and
/// `disk_size_text` are the kernel's counts of 512-byte sectors for where
/// the partition starts and how large the disk is.
pub open spec fn dual_boot_ops(
    disk: Seq<char>,
    partn: Seq<char>,
    size_mib: u64,
    resize: u64,
    start_text: Seq<char>,
    disk_size_text: Seq<char>,
) -> Result<Seq<(Seq<char>, DiskOperationType, Seq<ParamView>)>, Seq<char>> {
    match parse_u64(trim(start_text)) {
        None => Err("Cannot parse part start"@),
        Some(s) => match parse_u64(trim(disk_size_text)) {
            None => Err("Cannot parse disk size"@),
            Some(z) => {
                let start = sectors_mib(s);
                let size = sectors_mib(z);
                let resize_ops: Seq<(Seq<char>, DiskOperationType, Seq<ParamView>)> = if size_mib != resize {
                    seq![(disk, DiskOperationType::Resizepart, seq![ParamView::Str(partn), ParamView::Num(resize)])]
                } else {
                    Seq::empty()
                };
                Ok(
                    resize_ops + seq![
                        (
                            disk,
                            DiskOperationType::Mkpart,
                            seq![
                                ParamView::Str("Boot"@),
                                ParamView::Num((start + resize + 1) as u64),
                                ParamView::Num((start + resize + 1025) as u64),
                            ],
                        ),
                        (
                            disk,
                            DiskOperationType::Mkpart,
                            seq![
                                ParamView::Str(distro_label()),
                                ParamView::Num((start + resize + 1025) as u64),
                                ParamView::Num((size - 1) as u64),
                            ],
                        ),
                    ],
                )
            },
        },
    }
}

fn push_op(ops: &mut Vec<DiskOperation>, disk: &str, operation: DiskOperationType, params: Vec<Param>)
    ensures
        ops_view(final(ops)@) == ops_view(old(ops)@).push((disk@, operation, params_view(params@))),
{
    let ghost v0 = ops_view(ops@);
    let ghost pv = params_view(params@);
    ops.push(DiskOperation { disk: owned(disk), operation, params });
    proof {
        assert(ops_view(ops@) =~= v0.push((disk@, operation, pv)));
    }
}

/// Shrink the last partition of the disk and make `/boot` and the root
/// after it, for a system beside the one already there (see
/// [`dual_boot_ops`]). `target` is what [`dual_boot_target`] found; the
/// starts and sizes are in MiB, as `resize` is.
pub fn dual_boot(
    diskpath: &str,
    target: &DualBootTarget,
    resize: u64,
    start_text: &str,
    disk_size_text: &str,
) -> (r: Result<Vec<DiskOperation>, String>)
    requires
        parse_u64(trim(start_text@)) matches Some(s) ==> sectors_mib(s) + resize + 1025 <= u64::MAX,
        parse_u64(trim(disk_size_text@)) matches Some(z) ==> sectors_mib(z) >= 1,
    ensures
        match dual_boot_ops(diskpath@, target.partn@, target.size_mib, resize, start_text@, disk_size_text@) {
            Ok(ops) => r matches Ok(v) && ops_view(v@) == ops,
            Err(e) => r matches Err(x) && x@ == e,
        },
{
    let s = match parse_u64_exec(&trim_chars(&chars_of(start_text))) {
        Some(s) => s,
        None => {
            return Err(owned("Cannot parse part start"));
        },
    };
    let z = match parse_u64_exec(&trim_chars(&chars_of(disk_size_text))) {
        Some(z) => z,
        None => {
            return Err(owned("Cannot parse disk size"));
        },
    };
    let start = s / 2048;
    let size = z / 2048;
    let mut ops: Vec<DiskOperation> = Vec::new();
    proof {
        assert(ops_view(ops@) =~= Seq::<(Seq<char>, DiskOperationType, Seq<ParamView>)>::empty());
    }
    if target.size_mib != resize {
        let mut params: Vec<Param> = Vec::new();
        params.push(str_param(target.partn.as_str()));
        params.push(Param::Num(resize));
        proof {
            assert(params_view(params@) =~= seq![ParamView::Str(target.partn@), ParamView::Num(resize)]);
        }
        push_op(&mut ops, diskpath, DiskOperationType::Resizepart, params);
    }
    let ghost v1 = ops_view(ops@);
    let mut boot: Vec<Param> = Vec::new();
    boot.push(str_param("Boot"));
    boot.push(Param::Num(start + resize + 1));
    boot.push(Param::Num(start + resize + 1025));
    proof {
        assert(params_view(boot@) =~= seq![
            ParamView::Str("Boot"@),
            ParamView::Num((start + resize + 1) as u64),
            ParamView::Num((start + resize + 1025) as u64),
        ]);
    }
    push_op(&mut ops, diskpath, DiskOperationType::Mkpart, boot);
    let mut root: Vec<Param> = Vec::new();
    root.push(str_param("Ultramarine Linux"));
    root.push(Param::Num(start + resize + 1025));
    root.push(Param::Num(size - 1));
    proof {
        assert(params_view(root@) =~= seq![
            ParamView::Str(distro_label()),
            ParamView::Num((start + resize + 1025) as u64),
            ParamView::Num((size - 1) as u64),
        ]);
    }
    push_op(&mut ops, diskpath, DiskOperationType::Mkpart, root);
    proof {
        assert(parse_u64(trim(start_text@)) == Some(s));
        assert(parse_u64(trim(disk_size_text@)) == Some(z));
        assert(start == sectors_mib(s) && size == sectors_mib(z));
        let want = dual_boot_ops(diskpath@, target.partn@, target.size_mib, resize, start_text@, disk_size_text@)->Ok_0;
        if target.size_mib != resize {
            assert(v1.len() == 1);
        } else {
            assert(v1.len() == 0);
        }
        assert(ops_view(ops@) =~= want);
    }
    Ok(ops)
}

/// The device of the first mount of the live system (at
/// `/run/initramfs/live` or `/`) that is a device under `/dev/`.
pub open spec fn live_mount_spec(mounts: Seq<(Seq<char>, Seq<char>)>) -> Option<Seq<char>>
    decreases mounts.len(),
{
    if mounts.len() == 0 {
        None
    } else if (mounts[0].1 == "/run/initramfs/live"@ || mounts[0].1 == "/"@) && has_prefix(mounts[0].0, "/dev/"@) {
        Some(mounts[0].0)
    } else {
        live_mount_spec(mounts.drop_first())
    }
}

/// The device the live system runs from, among the mounts (device, mount
/// point); its disk is then the one not offered.
pub fn live_mount_device(mounts: &Vec<(String, String)>) -> (r: Option<String>)
    ensures
        ostr(r) == live_mount_spec(mounts@.map_values(|p: (String, String)| (p.0@, p.1@))),
{
    let ghost mv = mounts@.map_values(|p: (String, String)| (p.0@, p.1@));
    let live = chars_of("/run/initramfs/live");
    let root = chars_of("/");
    let dev = chars_of("/dev/");
    let mut i: usize = 0;
    proof {
        assert(mv.skip(0) =~= mv);
    }
    while i < mounts.len()
        invariant
            i <= mounts@.len(),
            mv == mounts@.map_values(|p: (String, String)| (p.0@, p.1@)),
            live@ == "/run/initramfs/live"@,
            root@ == "/"@,
            dev@ == "/dev/"@,
            live_mount_spec(mv.skip(i as int)) == live_mount_spec(mv),
        decreases mounts@.len() - i,
    {
        proof {
            assert(mv.skip(i as int)[0] == mv[i as int]);
            assert(mv.skip(i as int).drop_first() =~= mv.skip(i + 1));
        }
        let d = chars_of(mounts[i].0.as_str());
        let mp = chars_of(mounts[i].1.as_str());
        if (chars_eq(&mp, &live) || chars_eq(&mp, &root)) && starts_with(&d, &dev) {
            return Some(mounts[i].0.clone());
        }
        i = i + 1;
    }
    proof {
        assert(mv.skip(i as int) =~= Seq::<(Seq<char>, Seq<char>)>::empty());
    }
    None
}

} // verus!
