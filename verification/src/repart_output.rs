//! What `systemd-repart` reports it made, and what is derived from it:
//! mount points, `/etc/crypttab` and kernel options for LUKS, `/etc/fstab`.
use crate::order::{insertion_sort, sorted_by, Ordered};
use crate::repartcfg::{fs_name, FileSystem};
use crate::systemd_ini::{
    lemma_name_lt_irreflexive, lemma_name_lt_total, lemma_name_lt_transitive, name_lt,
    name_lt_exec,
};
use crate::text::{
    chars_eq, chars_of, contains_sub, dec, dec_chars, extend_chars, has_prefix, lemma_dec_injective,
    ostr, owned, push_chars, replace_char, replace_char_exec, slice_chars, split_once,
    split_once_exec, starts_with, string_of, strs, trim_start_matches, trim_start_matches_exec,
};
use vstd::prelude::*;

verus! {

broadcast use vstd::seq_lib::group_to_multiset_ensures;

/// Encryption data for the installed system.
#[derive(Debug, Default, Clone)]
pub struct CryptData {
    /// Contents of /etc/crypttab
    pub crypttab: String,
    /// Extra cmdline options for the kernel
    pub cmdline_opts: Vec<String>,
    pub tpm: bool,
}

// ───────────────────────── mapper devices ─────────────────────────

/// The mapper devices opened so far: LUKS node → mapper path, each node once.
pub struct MapperCache {
    cache: Vec<(String, String)>,
}

pub open spec fn cache_keys(c: Seq<(String, String)>) -> Seq<Seq<char>> {
    c.map_values(|p: (String, String)| p.0@)
}

/// Some entry of `c` has the node `k`.
pub open spec fn cache_has(c: Seq<(String, String)>, k: Seq<char>) -> bool {
    exists|i: int| 0 <= i < c.len() && c[i].0@ == k
}

/// The mapper path of an entry of `c` with the node `k`.
pub open spec fn cache_get(c: Seq<(String, String)>, k: Seq<char>) -> Seq<char> {
    c[cache_index(c, k)].1@
}

/// The position of an entry of `c` with the node `k`.
pub open spec fn cache_index(c: Seq<(String, String)>, k: Seq<char>) -> int {
    choose|i: int| 0 <= i < c.len() && c[i].0@ == k
}

impl View for MapperCache {
    type V = Map<Seq<char>, Seq<char>>;

    closed spec fn view(&self) -> Map<Seq<char>, Seq<char>> {
        Map::new(|k: Seq<char>| cache_has(self.cache@, k), |k: Seq<char>| cache_get(self.cache@, k))
    }
}

impl MapperCache {
    /// No node twice.
    pub closed spec fn wf(&self) -> bool {
        cache_keys(self.cache@).no_duplicates()
    }

    /// An empty cache.
    pub fn new() -> (r: Self)
        ensures
            r.wf(),
            r@ == Map::<Seq<char>, Seq<char>>::empty(),
    {
        let r = Self { cache: Vec::new() };
        proof {
            assert(r@ =~= Map::<Seq<char>, Seq<char>>::empty());
        }
        r
    }

    fn find(&self, node: &[char]) -> (r: Option<usize>)
        requires
            self.wf(),
        ensures
            match r {
                Some(i) => i < self.cache@.len() && self.cache@[i as int].0@ == node@,
                None => forall|i: int| 0 <= i < self.cache@.len() ==> self.cache@[i].0@ != node@,
            },
    {
        let mut i: usize = 0;
        while i < self.cache.len()
            invariant
                i <= self.cache@.len(),
                forall|j: int| 0 <= j < i ==> self.cache@[j].0@ != node@,
            decreases self.cache@.len() - i,
        {
            let k = chars_of(self.cache[i].0.as_str());
            if chars_eq(&k, node) {
                return Some(i);
            }
            i = i + 1;
        }
        None
    }

    proof fn lemma_view_at(&self, i: int)
        requires
            self.wf(),
            0 <= i < self.cache@.len(),
        ensures
            self@.contains_key(self.cache@[i].0@),
            self@[self.cache@[i].0@] == self.cache@[i].1@,
    {
        let c = self.cache@;
        let k = c[i].0@;
        assert(cache_has(c, k));
        assert(self@.dom().contains(k));
        let j = cache_index(c, k);
        assert(cache_keys(c)[i] == k && cache_keys(c)[j] == k);
    }

    /// The mapper device opened for `node`, if any.
    pub fn get(&self, node: &str) -> (r: Option<&String>)
        requires
            self.wf(),
        ensures
            match r {
                Some(p) => self@.contains_key(node@) && self@[node@] == p@,
                None => !self@.contains_key(node@),
            },
    {
        let n = chars_of(node);
        match self.find(&n) {
            Some(i) => {
                proof {
                    self.lemma_view_at(i as int);
                }
                Some(&self.cache[i].1)
            },
            None => None,
        }
    }

    /// Records the mapper device opened for `node`.
    pub fn insert(&mut self, node: String, path: String)
        requires
            old(self).wf(),
        ensures
            final(self).wf(),
            final(self)@ == old(self)@.insert(node@, path@),
    {
        let n = chars_of(node.as_str());
        let ghost old_view = self@;
        let ghost nv = node@;
        let ghost pv = path@;
        match self.find(&n) {
            Some(i) => {
                let (k, _) = self.cache.remove(i);
                self.cache.insert(i, (k, path));
                proof {
                    assert(cache_keys(self.cache@) =~= cache_keys(old(self).cache@));
                    assert forall|key: Seq<char>| #![auto]
                        self@.contains_key(key) == old_view.insert(nv, pv).contains_key(key) by {
                        if old_view.insert(nv, pv).contains_key(key) {
                            if key == nv {
                                assert(self.cache@[i as int].0@ == key);
                            } else {
                                let j = choose|j: int|
                                    0 <= j < old(self).cache@.len() && old(self).cache@[j].0@
                                        == key;
                                assert(self.cache@[j].0@ == key);
                            }
                        }
                        if self@.contains_key(key) {
                            let j = choose|j: int|
                                0 <= j < self.cache@.len() && self.cache@[j].0@ == key;
                            assert(old(self).cache@[j].0@ == key);
                        }
                    }
                    assert forall|key: Seq<char>| #[trigger] self@.contains_key(key) implies self@[key]
                        == old_view.insert(nv, pv)[key] by {
                        let j = choose|j: int|
                            0 <= j < self.cache@.len() && self.cache@[j].0@ == key;
                        self.lemma_view_at(j);
                        if j != i {
                            old(self).lemma_view_at(j);
                            assert(cache_keys(self.cache@)[j] != cache_keys(self.cache@)[i as int]);
                        }
                    }
                    assert(self@ =~= old_view.insert(nv, pv));
                }
            },
            None => {
                self.cache.push((node, path));
                proof {
                    let last = self.cache@.len() - 1;
                    assert(cache_keys(self.cache@) =~= cache_keys(old(self).cache@).push(nv));
                    assert forall|a: int, b: int|
                        0 <= a < b < cache_keys(self.cache@).len() implies cache_keys(
                        self.cache@,
                    )[a] != cache_keys(self.cache@)[b] by {
                        if b == last {
                            assert(old(self).cache@[a].0@ != nv);
                        } else {
                            assert(cache_keys(old(self).cache@)[a] != cache_keys(
                                old(self).cache@,
                            )[b]);
                        }
                    }
                    assert forall|key: Seq<char>| #![auto]
                        self@.contains_key(key) == old_view.insert(nv, pv).contains_key(key) by {
                        if old_view.insert(nv, pv).contains_key(key) {
                            if key == nv {
                                assert(self.cache@[last].0@ == key);
                            } else {
                                let j = choose|j: int|
                                    0 <= j < old(self).cache@.len() && old(self).cache@[j].0@
                                        == key;
                                assert(self.cache@[j].0@ == key);
                            }
                        }
                        if self@.contains_key(key) {
                            let j = choose|j: int|
                                0 <= j < self.cache@.len() && self.cache@[j].0@ == key;
                            if j != last {
                                assert(old(self).cache@[j].0@ == key);
                            }
                        }
                    }
                    assert forall|key: Seq<char>| #[trigger] self@.contains_key(key) implies self@[key]
                        == old_view.insert(nv, pv)[key] by {
                        let j = choose|j: int|
                            0 <= j < self.cache@.len() && self.cache@[j].0@ == key;
                        self.lemma_view_at(j);
                        if j != last {
                            old(self).lemma_view_at(j);
                        }
                    }
                    assert(self@ =~= old_view.insert(nv, pv));
                }
            },
        }
    }

    /// Empties the cache and hands back the devices to close, each once.
    pub fn clear(&mut self) -> (r: Vec<(String, String)>)
        requires
            old(self).wf(),
        ensures
            final(self).wf(),
            final(self)@ == Map::<Seq<char>, Seq<char>>::empty(),
            r@.len() == old(self)@.len(),
            forall|i: int| 0 <= i < r@.len() ==> old(self)@.contains_key(#[trigger] r@[i].0@)
                && old(self)@[r@[i].0@] == r@[i].1@,
    {
        let mut out: Vec<(String, String)> = Vec::new();
        std::mem::swap(&mut out, &mut self.cache);
        proof {
            assert(self@ =~= Map::<Seq<char>, Seq<char>>::empty());
            assert forall|i: int| 0 <= i < out@.len() implies old(self)@.contains_key(
                #[trigger] out@[i].0@,
            ) && old(self)@[out@[i].0@] == out@[i].1@ by {
                old(self).lemma_view_at(i);
            }
            lemma_keys_map_len(old(self).cache@);
        }
        out
    }
}

proof fn lemma_keys_map_len(c: Seq<(String, String)>)
    requires
        cache_keys(c).no_duplicates(),
    ensures
        Map::new(|k: Seq<char>| cache_has(c, k), |k: Seq<char>| cache_get(c, k)).len() == c.len(),
{
    let m = Map::new(|k: Seq<char>| cache_has(c, k), |k: Seq<char>| cache_get(c, k));
    let keys = cache_keys(c);
    assert(m.dom() =~= keys.to_set()) by {
        assert forall|k: Seq<char>| m.dom().contains(k) <==> keys.to_set().contains(k) by {
            if m.dom().contains(k) {
                let i = choose|i: int| 0 <= i < c.len() && c[i].0@ == k;
                assert(keys[i] == k);
            }
            if keys.to_set().contains(k) {
                let i = choose|i: int| 0 <= i < keys.len() && keys[i] == k;
                assert(c[i].0@ == k);
            }
        }
    }
    keys.unique_seq_to_set();
}

/// The base of a mapper device's name for a mount point: `root` for `/`, else
/// the mount point without its leading slashes and with `-` for each `/`.
pub open spec fn mapper_base(mntpoint: Seq<char>) -> Seq<char> {
    if mntpoint == seq!['/'] {
        "root"@
    } else {
        replace_char(trim_start_matches(mntpoint, seq!['/']), '/', '-')
    }
}

/// The `counter`-th candidate: the base, then `base-1`, `base-2`, …
pub open spec fn mapper_candidate(base: Seq<char>, counter: nat) -> Seq<char> {
    if counter == 0 {
        base
    } else {
        base + seq!['-'] + dec(counter)
    }
}

/// The mapper label: the first candidate that is not already taken.
pub open spec fn is_unique_mapper_label(mntpoint: Seq<char>, taken: Seq<Seq<char>>, r: Seq<char>) -> bool {
    exists|k: nat|
        r == mapper_candidate(mapper_base(mntpoint), k) && !taken.contains(r) && forall|j: nat|
            j < k ==> taken.contains(#[trigger] mapper_candidate(mapper_base(mntpoint), j))
}

proof fn lemma_candidates_distinct(base: Seq<char>, a: nat, b: nat)
    requires
        a != b,
    ensures
        mapper_candidate(base, a) != mapper_candidate(base, b),
{
    if a != 0 && b != 0 {
        if mapper_candidate(base, a) == mapper_candidate(base, b) {
            let sa = mapper_candidate(base, a);
            let sb = mapper_candidate(base, b);
            assert(dec(a) =~= sa.skip(base.len() + 1 as int));
            assert(dec(b) =~= sb.skip(base.len() + 1 as int));
            lemma_dec_injective(a, b);
        }
    } else if a == 0 {
        assert(mapper_candidate(base, b).len() > base.len());
    } else {
        assert(mapper_candidate(base, a).len() > base.len());
    }
}

/// Distinct candidates that are all taken are no more than the taken names.
proof fn lemma_taken_bound(base: Seq<char>, taken: Seq<Seq<char>>, k: nat)
    requires
        forall|j: nat| j < k ==> taken.contains(#[trigger] mapper_candidate(base, j)),
    ensures
        k <= taken.len(),
{
    let cands = Seq::new(k, |j: int| mapper_candidate(base, j as nat));
    assert(cands.no_duplicates()) by {
        assert forall|a: int, b: int| 0 <= a < cands.len() && 0 <= b < cands.len() && a != b implies cands[a]
            != cands[b] by {
            lemma_candidates_distinct(base, a as nat, b as nat);
        }
    }
    assert(cands.to_set().subset_of(taken.to_set())) by {
        assert forall|x: Seq<char>| cands.to_set().contains(x) implies taken.to_set().contains(x) by {
            let j = choose|j: int| 0 <= j < cands.len() && cands[j] == x;
            assert(taken.contains(mapper_candidate(base, j as nat)));
        }
    }
    cands.unique_seq_to_set();
    vstd::set_lib::lemma_len_subset(cands.to_set(), taken.to_set());
    taken.lemma_cardinality_of_set();
}

fn contains_string(v: &Vec<String>, s: &[char]) -> (r: bool)
    ensures
        r == strs(v@).contains(s@),
{
    let mut i: usize = 0;
    while i < v.len()
        invariant
            i <= v@.len(),
            forall|j: int| 0 <= j < i ==> v@[j]@ != s@,
        decreases v@.len() - i,
    {
        let c = chars_of(v[i].as_str());
        if chars_eq(&c, s) {
            proof {
                assert(strs(v@)[i as int] == s@);
            }
            return true;
        }
        i = i + 1;
    }
    proof {
        if strs(v@).contains(s@) {
            let j = choose|j: int| 0 <= j < strs(v@).len() && strs(v@)[j] == s@;
            assert(v@[j]@ == s@);
        }
    }
    false
}

/// Generates a unique label for the mapper device of a mount point: `root`
/// for `/`, else the mount point without leading slashes and with `-` for
/// `/`, then `-1`, `-2`, … appended until no device of that name exists
/// (`taken` lists the names under `/dev/mapper`).
pub fn generate_unique_mapper_label(mntpoint: &str, taken: &Vec<String>) -> (r: String)
    ensures
        is_unique_mapper_label(mntpoint@, strs(taken@), r@),
{
    let m = chars_of(mntpoint);
    let root = ['/'];
    let base: Vec<char> = if chars_eq(&m, &root) {
        proof {
            assert(root@ =~= seq!['/']);
        }
        chars_of("root")
    } else {
        proof {
            assert(root@ =~= seq!['/']);
        }
        let t = trim_start_matches_exec(&m, &root);
        replace_char_exec(&t, '/', '-')
    };
    let ghost b = base@;
    let ghost tk = strs(taken@);
    let mut label = slice_chars(&base, 0, base.len());
    let mut counter: u64 = 0;
    let taken_len: usize = taken.len();
    proof {
        assert(base@.subrange(0, base@.len() as int) =~= base@);
    }
    while contains_string(taken, &label)
        invariant
            b == base@,
            b == mapper_base(mntpoint@),
            tk == strs(taken@),
            label@ == mapper_candidate(b, counter as nat),
            forall|j: nat| j < counter ==> tk.contains(#[trigger] mapper_candidate(b, j)),
            counter <= taken@.len(),
            taken_len == taken@.len(),
        decreases taken@.len() - counter,
    {
        proof {
            assert(forall|j: nat| j < counter + 1 ==> tk.contains(#[trigger] mapper_candidate(b, j)));
            lemma_taken_bound(b, tk, (counter + 1) as nat);
            assert(tk.len() == taken@.len());
        }
        counter = counter + 1;
        label = slice_chars(&base, 0, base.len());
        label.push('-');
        extend_chars(&mut label, &dec_chars(counter));
        proof {
            assert(base@.subrange(0, base@.len() as int) =~= base@);
            assert(label@ =~= mapper_candidate(b, counter as nat));
        }
    }
    string_of(&label)
}

// ───────────────────────── partitions ─────────────────────────

/// One partition that `systemd-repart` reports.
#[derive(Debug, Default, Clone)]
pub struct RepartPartition {
    pub part_type: String,
    pub label: String,
    pub uuid: String,
    pub partno: i32,
    pub file: String,
    pub node: String,
    pub offset: usize,
    pub old_size: u64,
    pub raw_size: u64,
    pub old_padding: usize,
    pub raw_padding: usize,
    pub activity: String,
}

/// The Discoverable Disk Image mount point of a partition type.
pub open spec fn ddi_mountpoint_of(part_type: Seq<char>) -> Option<Seq<char>> {
    if part_type == "xbootldr"@ {
        Some("/boot"@)
    } else if part_type == "esp"@ {
        Some("/boot/efi"@)
    } else if has_prefix(part_type, "root-"@) {
        Some("/"@)
    } else {
        None
    }
}

impl RepartPartition {
    /// Returns a Discoverable Disk Image (DDI) mountpoint if defined by checking
    /// the partition type.
    pub fn ddi_mountpoint(&self) -> (r: Option<&'static str>)
        ensures
            match r {
                Some(m) => ddi_mountpoint_of(self.part_type@) == Some(m@),
                None => ddi_mountpoint_of(self.part_type@) is None,
            },
    {
        let t = chars_of(self.part_type.as_str());
        if chars_eq(&t, &chars_of("xbootldr")) {
            Some("/boot")
        } else if chars_eq(&t, &chars_of("esp")) {
            Some("/boot/efi")
        } else if starts_with(&t, &chars_of("root-")) {
            Some("/")
        } else {
            None
        }
    }

    /// The mount points of the partition: those its definition names, else
    /// its DDI mount point, else none.
    pub fn mount_point(&self, configured: Vec<(String, Option<String>)>) -> (r: Vec<(String, Option<String>)>)
        ensures
            configured@.len() > 0 ==> r@ == configured@,
            configured@.len() == 0 ==> match ddi_mountpoint_of(self.part_type@) {
                Some(m) => r@.len() == 1 && r@[0].0@ == m && r@[0].1 is None,
                None => r@.len() == 0,
            },
    {
        if configured.len() > 0 {
            configured
        } else {
            let mut r = Vec::new();
            match self.ddi_mountpoint() {
                Some(m) => r.push((owned(m), None)),
                None => {},
            }
            r
        }
    }
}

/// The text of one fstab field for a file system: its name, or `null` when
/// the definition gives none.
pub open spec fn fs_field(fs: Option<FileSystem>) -> Seq<char> {
    match fs {
        Some(f) => fs_name(f),
        None => "null"@,
    }
}

/// `fsck` pass: 0 for btrfs and XFS, 1 for the root, 2 for the others.
pub open spec fn fsck_pass(fs: Option<FileSystem>, mntpoint: Seq<char>) -> nat {
    if fs == Some(FileSystem::Btrfs) || fs == Some(FileSystem::Xfs) {
        0
    } else if mntpoint == "/"@ {
        1
    } else {
        2
    }
}

/// The mount options, or `defaults` when there are none.
pub open spec fn mount_opts_field(opts: Option<Seq<char>>) -> Seq<char> {
    match opts {
        Some(o) => if o.len() == 0 {
            "defaults"@
        } else {
            o
        },
        None => "defaults"@,
    }
}

/// One line of `/etc/fstab` (without its newline).
pub open spec fn fstab_line(
    source: Seq<char>,
    mntpoint: Seq<char>,
    fs: Option<FileSystem>,
    opts: Option<Seq<char>>,
) -> Seq<char> {
    source + fstab_rest(mntpoint, fs, opts)
}

/// An fstab line after its device: the mount point, file system, options,
/// dump flag and fsck pass, each after a tab.
pub open spec fn fstab_rest(mntpoint: Seq<char>, fs: Option<FileSystem>, opts: Option<Seq<char>>) -> Seq<char> {
    seq!['\t'] + mntpoint + seq!['\t'] + fs_field(fs) + seq!['\t'] + mount_opts_field(opts) + seq![
        '\t',
        '0',
        '\t',
    ] + dec(fsck_pass(fs, mntpoint))
}

fn push_fstab_rest(s: &mut String, mntpoint: &str, fs: Option<FileSystem>, opts: &Option<String>)
    ensures
        final(s)@ == old(s)@ + fstab_rest(mntpoint@, fs, ostr(*opts)),
{
    let ghost s0 = s@;
    let mp = chars_of(mntpoint);
    s.push('\t');
    push_chars(s, &mp);
    s.push('\t');
    match fs {
        Some(f) => push_chars(s, &chars_of(f.as_str())),
        None => push_chars(s, &chars_of("null")),
    }
    s.push('\t');
    let o: Vec<char> = match opts {
        Some(o) => chars_of(o.as_str()),
        None => Vec::new(),
    };
    if o.len() == 0 {
        push_chars(s, &chars_of("defaults"));
    } else {
        push_chars(s, &o);
    }
    s.push('\t');
    s.push('0');
    s.push('\t');
    let root = chars_of("/");
    let pass: u64 = match fs {
        Some(FileSystem::Btrfs) | Some(FileSystem::Xfs) => 0,
        _ => if chars_eq(&mp, &root) {
            1
        } else {
            2
        },
    };
    push_chars(s, &dec_chars(pass));
    proof {
        assert(s@ =~= s0 + fstab_rest(mntpoint@, fs, ostr(*opts)));
    }
}

/// How an fstab entry names its device: `UUID=` of the opened LUKS device,
/// or `PARTUUID=` of the partition.
pub open spec fn fstab_source(encrypted_uuid: Option<Seq<char>>, partuuid: Seq<char>) -> Seq<char> {
    match encrypted_uuid {
        Some(u) => "UUID="@ + u,
        None => "PARTUUID="@ + partuuid,
    }
}

impl RepartPartition {
    /// Generate an FS Table entry for the partition: a line for `/etc/fstab`.
    /// `fs` is the file system of the partition's definition, and
    /// `encrypted_uuid` the UUID of the opened device when it is LUKS.
    pub fn fstab_entry(
        &self,
        mnt: (String, Option<String>),
        fs: Option<FileSystem>,
        encrypted_uuid: Option<String>,
    ) -> (r: String)
        ensures
            r@ == fstab_line(
                fstab_source(ostr(encrypted_uuid), self.uuid@),
                mnt.0@,
                fs,
                ostr(mnt.1),
            ),
    {
        let (mntpoint, mntpoint_opts) = mnt;
        let mut s = match &encrypted_uuid {
            Some(u) => {
                let mut s = owned("UUID=");
                push_chars(&mut s, &chars_of(u.as_str()));
                s
            },
            None => {
                let mut s = owned("PARTUUID=");
                push_chars(&mut s, &chars_of(self.uuid.as_str()));
                s
            },
        };
        push_fstab_rest(&mut s, mntpoint.as_str(), fs, &mntpoint_opts);
        proof {
            assert(s@ =~= fstab_line(
                fstab_source(ostr(encrypted_uuid), self.uuid@),
                mntpoint@,
                fs,
                ostr(mntpoint_opts),
            ));
        }
        s
    }
}

// ───────────────────────── the whole output ─────────────────────────

/// The partitions `systemd-repart` reports, in its order.
#[derive(Debug, Default)]
pub struct RepartOutput {
    pub partitions: Vec<RepartPartition>,
}

/// The first partition of the given type.
pub open spec fn first_of_type(ps: Seq<RepartPartition>, t: Seq<char>) -> Option<Seq<char>>
    decreases ps.len(),
{
    if ps.len() == 0 {
        None
    } else if ps[0].part_type@ == t {
        Some(ps[0].node@)
    } else {
        first_of_type(ps.drop_first(), t)
    }
}

/// Mount point and node of each partition that has a DDI mount point.
pub open spec fn ddi_mounts(ps: Seq<RepartPartition>) -> Seq<(Seq<char>, Seq<char>)>
    decreases ps.len(),
{
    if ps.len() == 0 {
        Seq::empty()
    } else {
        ddi_mounts(ps.drop_last()) + match ddi_mountpoint_of(ps.last().part_type@) {
            Some(m) => seq![(m, ps.last().node@)],
            None => Seq::empty(),
        }
    }
}

/// One LUKS partition: the label to open it as, the UUID of its LUKS header,
/// and whether its definition seals the key in the TPM.
pub struct LuksPartition {
    pub label: String,
    pub uuid: String,
    pub tpm: bool,
}

/// The crypttab line of one LUKS partition.
pub open spec fn crypttab_line(p: LuksPartition) -> Seq<char> {
    p.label@ + seq!['\t'] + "UUID="@ + p.uuid@ + seq!['\t'] + "none"@ + seq!['\t'] + (if p.tpm {
        "tpm2-device=auto,"@
    } else {
        Seq::empty()
    }) + "luks,discard"@ + seq!['\n']
}

pub open spec fn crypttab_text(ps: Seq<LuksPartition>) -> Seq<char>
    decreases ps.len(),
{
    if ps.len() == 0 {
        Seq::empty()
    } else {
        crypttab_text(ps.drop_last()) + crypttab_line(ps.last())
    }
}

/// `rd.luks.name=<uuid>=<label>` for each partition.
pub open spec fn luks_name_opts(ps: Seq<LuksPartition>) -> Seq<Seq<char>>
    decreases ps.len(),
{
    if ps.len() == 0 {
        Seq::empty()
    } else {
        luks_name_opts(ps.drop_last()).push("rd.luks.name="@ + ps.last().uuid@ + seq!['='] + ps.last().label@)
    }
}

pub open spec fn any_tpm(ps: Seq<LuksPartition>) -> bool {
    exists|i: int| 0 <= i < ps.len() && #[trigger] ps[i].tpm
}

/// Mount point, options, device name and file system of one fstab entry.
pub struct FstabItem {
    pub mntpoint: String,
    pub options: Option<String>,
    pub source: String,
    pub fs: Option<FileSystem>,
}

/// The order of fstab entries: the root first, then fewer slashes first,
/// then by name.
pub open spec fn slash_count(s: Seq<char>) -> nat
    decreases s.len(),
{
    if s.len() == 0 {
        0
    } else {
        slash_count(s.drop_last()) + if s.last() == '/' {
            1nat
        } else {
            0nat
        }
    }
}

pub open spec fn fstab_rank(s: Seq<char>) -> int {
    if s == seq!['/'] {
        0
    } else {
        1
    }
}

pub open spec fn fstab_before(a: Seq<char>, b: Seq<char>) -> bool {
    ||| fstab_rank(a) < fstab_rank(b)
    ||| fstab_rank(a) == fstab_rank(b) && slash_count(a) < slash_count(b)
    ||| fstab_rank(a) == fstab_rank(b) && slash_count(a) == slash_count(b) && name_lt(a, b)
}

impl Ordered for FstabItem {
    open spec fn before(a: Self, b: Self) -> bool {
        fstab_before(a.mntpoint@, b.mntpoint@)
    }

    proof fn lemma_asym(a: Self, b: Self) {
        let x = a.mntpoint@;
        let y = b.mntpoint@;
        if name_lt(x, y) && name_lt(y, x) {
            lemma_name_lt_transitive(x, y, x);
            lemma_name_lt_irreflexive(x);
        }
    }

    proof fn lemma_before_not_after(x: Self, a: Self, b: Self) {
        let (px, pa, pb) = (x.mntpoint@, a.mntpoint@, b.mntpoint@);
        if pa != pb {
            lemma_name_lt_total(pa, pb);
        }
        if name_lt(px, pa) && name_lt(pa, pb) {
            lemma_name_lt_transitive(px, pa, pb);
        }
    }

    fn is_before(&self, other: &Self) -> (r: bool) {
        let a = chars_of(self.mntpoint.as_str());
        let b = chars_of(other.mntpoint.as_str());
        let root = ['/'];
        proof {
            assert(root@ =~= seq!['/']);
        }
        let ra: u8 = if chars_eq(&a, &root) {
            0
        } else {
            1
        };
        let rb: u8 = if chars_eq(&b, &root) {
            0
        } else {
            1
        };
        if ra != rb {
            return ra < rb;
        }
        let sa = count_slashes(&a);
        let sb = count_slashes(&b);
        if sa != sb {
            sa < sb
        } else {
            name_lt_exec(&a, &b)
        }
    }
}

fn count_slashes(s: &[char]) -> (r: usize)
    ensures
        r == slash_count(s@),
{
    let mut n: usize = 0;
    let mut i: usize = 0;
    while i < s.len()
        invariant
            i <= s@.len(),
            n == slash_count(s@.take(i as int)),
            n <= i,
        decreases s@.len() - i,
    {
        proof {
            assert(s@.take(i + 1).drop_last() =~= s@.take(i as int));
        }
        if s[i] == '/' {
            n = n + 1;
        }
        i = i + 1;
    }
    proof {
        assert(s@.take(s@.len() as int) =~= s@);
    }
    n
}

/// The lines of `/etc/fstab`, each followed by a newline.
pub open spec fn fstab_text(items: Seq<FstabItem>) -> Seq<char>
    decreases items.len(),
{
    if items.len() == 0 {
        Seq::empty()
    } else {
        fstab_text(items.drop_last()) + fstab_line(
            items.last().source@,
            items.last().mntpoint@,
            items.last().fs,
            ostr(items.last().options),
        ) + seq!['\n']
    }
}


/// Appends the `/etc/fstab` line of `it`, newline included.
fn push_fstab_line(s: &mut String, it: &FstabItem)
    ensures
        final(s)@ == old(s)@ + fstab_line(it.source@, it.mntpoint@, it.fs, ostr(it.options)) + seq![
            '\n',
        ],
{
    let ghost s0 = s@;
    push_chars(s, &chars_of(it.source.as_str()));
    push_fstab_rest(s, it.mntpoint.as_str(), it.fs, &it.options);
    s.push('\n');
    proof {
        assert(s@ =~= s0 + fstab_line(it.source@, it.mntpoint@, it.fs, ostr(it.options)) + seq!['\n']);
    }
}

impl RepartOutput {
    /// Mount point → node of every partition with a DDI mount point, in order.
    pub fn mountpoints(&self) -> (r: Vec<(&'static str, String)>)
        ensures
            r@.map_values(|p: (&'static str, String)| (p.0@, p.1@)) == ddi_mounts(self.partitions@),
    {
        let mut r: Vec<(&'static str, String)> = Vec::new();
        let mut i: usize = 0;
        proof {
            assert(self.partitions@.take(0) =~= Seq::<RepartPartition>::empty());
            assert(r@.map_values(|p: (&'static str, String)| (p.0@, p.1@)) =~= Seq::<
                (Seq<char>, Seq<char>),
            >::empty());
        }
        while i < self.partitions.len()
            invariant
                i <= self.partitions@.len(),
                r@.map_values(|p: (&'static str, String)| (p.0@, p.1@)) == ddi_mounts(
                    self.partitions@.take(i as int),
                ),
            decreases self.partitions@.len() - i,
        {
            let part = &self.partitions[i];
            let ghost r0 = r@.map_values(|p: (&'static str, String)| (p.0@, p.1@));
            proof {
                assert(self.partitions@.take(i + 1).drop_last() =~= self.partitions@.take(i as int));
                assert(self.partitions@.take(i + 1).last() == *part);
            }
            match part.ddi_mountpoint() {
                Some(m) => {
                    let n = part.node.clone();
                    r.push((m, n));
                    proof {
                        assert(r@.map_values(|p: (&'static str, String)| (p.0@, p.1@)) =~= r0.push(
                            (m@, n@),
                        ));
                    }
                },
                None => {
                    proof {
                        assert(r0 + Seq::<(Seq<char>, Seq<char>)>::empty() =~= r0);
                    }
                },
            }
            i = i + 1;
        }
        proof {
            assert(self.partitions@.take(self.partitions@.len() as int) =~= self.partitions@);
        }
        r
    }

    fn first_node_of_type(&self, t: &[char]) -> (r: Option<String>)
        ensures
            ostr(r) == first_of_type(self.partitions@, t@),
    {
        let mut i: usize = 0;
        proof {
            assert(self.partitions@.skip(0) =~= self.partitions@);
        }
        while i < self.partitions.len()
            invariant
                i <= self.partitions@.len(),
                first_of_type(self.partitions@.skip(i as int), t@) == first_of_type(
                    self.partitions@,
                    t@,
                ),
            decreases self.partitions@.len() - i,
        {
            proof {
                assert(self.partitions@.skip(i as int)[0] == self.partitions@[i as int]);
                assert(self.partitions@.skip(i as int).drop_first() =~= self.partitions@.skip(
                    i + 1,
                ));
            }
            let pt = chars_of(self.partitions[i].part_type.as_str());
            if chars_eq(&pt, t) {
                return Some(self.partitions[i].node.clone());
            }
            i = i + 1;
        }
        None
    }

    /// The node of the ESP, if there is one.
    pub fn get_esp_partition(&self) -> (r: Option<String>)
        ensures
            ostr(r) == first_of_type(self.partitions@, "esp"@),
    {
        self.first_node_of_type(&chars_of("esp"))
    }

    /// The node of the XBOOTLDR partition, if there is one.
    pub fn get_xbootldr_partition(&self) -> (r: Option<String>)
        ensures
            ostr(r) == first_of_type(self.partitions@, "xbootldr"@),
    {
        self.first_node_of_type(&chars_of("xbootldr"))
    }

    /// `/etc/crypttab` and the kernel options for the LUKS partitions, in
    /// order; `None` when there are none.
    pub fn generate_cryptdata(luks: &Vec<LuksPartition>) -> (r: Option<CryptData>)
        ensures
            luks@.len() == 0 ==> r is None,
            luks@.len() > 0 ==> r is Some && r->0.crypttab@ == crypttab_text(luks@) && strs(
                r->0.cmdline_opts@,
            ) == (if any_tpm(luks@) {
                luks_name_opts(luks@).push("rd.luks.options=tpm2-device=auto"@)
            } else {
                luks_name_opts(luks@)
            }) && r->0.tpm == any_tpm(luks@),
    {
        if luks.len() == 0 {
            return None;
        }
        let mut crypttab = String::new();
        let mut cmdline_opts: Vec<String> = Vec::new();
        let mut is_tpm = false;
        let mut i: usize = 0;
        proof {
            assert(luks@.take(0) =~= Seq::<LuksPartition>::empty());
            assert(strs(cmdline_opts@) =~= Seq::<Seq<char>>::empty());
        }
        while i < luks.len()
            invariant
                i <= luks@.len(),
                crypttab@ == crypttab_text(luks@.take(i as int)),
                strs(cmdline_opts@) == luks_name_opts(luks@.take(i as int)),
                is_tpm == any_tpm(luks@.take(i as int)),
            decreases luks@.len() - i,
        {
            let p = &luks[i];
            proof {
                assert(luks@.take(i + 1).drop_last() =~= luks@.take(i as int));
                assert(luks@.take(i + 1).last() == *p);
            }
            let label = chars_of(p.label.as_str());
            let uuid = chars_of(p.uuid.as_str());
            let ghost c0 = crypttab@;
            push_chars(&mut crypttab, &label);
            crypttab.push('\t');
            push_chars(&mut crypttab, &chars_of("UUID="));
            push_chars(&mut crypttab, &uuid);
            crypttab.push('\t');
            push_chars(&mut crypttab, &chars_of("none"));
            crypttab.push('\t');
            if p.tpm {
                push_chars(&mut crypttab, &chars_of("tpm2-device=auto,"));
            }
            push_chars(&mut crypttab, &chars_of("luks,discard"));
            crypttab.push('\n');
            proof {
                assert(crypttab@ =~= c0 + crypttab_line(*p));
            }
            let mut opt = owned("rd.luks.name=");
            push_chars(&mut opt, &uuid);
            opt.push('=');
            push_chars(&mut opt, &label);
            let ghost o0 = strs(cmdline_opts@);
            let ghost ov = opt@;
            cmdline_opts.push(opt);
            proof {
                assert(strs(cmdline_opts@) =~= o0.push(ov));
                assert(ov =~= "rd.luks.name="@ + p.uuid@ + seq!['='] + p.label@);
            }
            if p.tpm {
                is_tpm = true;
            }
            proof {
                let t = luks@.take(i + 1);
                if p.tpm {
                    assert(t[i as int].tpm);
                } else if any_tpm(t) {
                    let j = choose|j: int| 0 <= j < t.len() && #[trigger] t[j].tpm;
                    assert(luks@.take(i as int)[j].tpm);
                }
                if any_tpm(luks@.take(i as int)) {
                    let j = choose|j: int| 0 <= j < i && #[trigger] luks@.take(i as int)[j].tpm;
                    assert(t[j].tpm);
                }
            }
            i = i + 1;
        }
        proof {
            assert(luks@.take(luks@.len() as int) =~= luks@);
        }
        if is_tpm {
            cmdline_opts.push(owned("rd.luks.options=tpm2-device=auto"));
        }
        Some(CryptData { crypttab, cmdline_opts, tpm: is_tpm })
    }

    /// `/etc/fstab`: the entries sorted (root first, then by depth, then by
    /// name; entries with the same mount point in their given order), one
    /// line each.
    pub fn generate_fstab(items: Vec<FstabItem>) -> (r: String)
        ensures
            exists|sorted: Seq<FstabItem>|
                sorted.to_multiset() == items@.to_multiset() && sorted_by(sorted) && (forall|z: FstabItem|
                    #[trigger] crate::order::class_of(sorted, z) == crate::order::class_of(items@, z)) && r@
                    == fstab_text(sorted),
    {
        let sorted = insertion_sort(items);
        let mut s = String::new();
        let mut i: usize = 0;
        proof {
            assert(sorted@.take(0) =~= Seq::<FstabItem>::empty());
        }
        while i < sorted.len()
            invariant
                i <= sorted@.len(),
                s@ == fstab_text(sorted@.take(i as int)),
            decreases sorted@.len() - i,
        {
            let it = &sorted[i];
            let ghost s0 = s@;
            push_fstab_line(&mut s, it);
            proof {
                assert(sorted@.take(i + 1).drop_last() =~= sorted@.take(i as int));
                assert(sorted@.take(i + 1).last() == *it);
                assert(s@ =~= s0 + fstab_line(it.source@, it.mntpoint@, it.fs, ostr(it.options))
                    + seq!['\n']);
            }
            i = i + 1;
        }
        proof {
            assert(sorted@.take(sorted@.len() as int) =~= sorted@);
        }
        s
    }
}


/// The option a value of `Encrypt=` names, if any.
pub open spec fn encrypt_of(x: Seq<char>) -> Option<crate::repartcfg::EncryptOption> {
    if x == "off"@ {
        Some(crate::repartcfg::EncryptOption::Off)
    } else if x == "key-file"@ {
        Some(crate::repartcfg::EncryptOption::KeyFile)
    } else if x == "tpm2"@ {
        Some(crate::repartcfg::EncryptOption::Tpm2)
    } else if x == "key-file+tpm2"@ {
        Some(crate::repartcfg::EncryptOption::KeyFileTpm2)
    } else {
        None
    }
}

/// Whether the partition definition `config` has its partition unlocked by
/// the TPM: the first value of `Encrypt=` in `[Partition]` (`off` when there
/// is none) is `tpm2` or `key-file+tpm2`; or why that cannot be told.
pub open spec fn config_tpm_spec(config: Seq<char>) -> Result<bool, Seq<char>> {
    let empty = crate::systemd_ini::SectionsView::empty();
    if !crate::systemd_ini::parse_ok(empty, config) {
        Err("cannot parse the partition definition"@)
    } else {
        match crate::systemd_ini::lookup(crate::systemd_ini::parse_spec(empty, config), "Partition"@, "Encrypt"@) {
            None => Ok(false),
            Some(v) => match encrypt_of(v.as_array()[0]) {
                Some(e) => Ok(e == crate::repartcfg::EncryptOption::Tpm2 || e
                    == crate::repartcfg::EncryptOption::KeyFileTpm2),
                None => Err("unknown Encrypt= value"@),
            },
        }
    }
}

/// Whether a partition definition asks for the TPM (see [`config_tpm_spec`]).
pub fn config_uses_tpm(config: &str) -> (r: Result<bool, String>)
    ensures
        match config_tpm_spec(config@) {
            Ok(b) => r == Ok::<bool, String>(b),
            Err(e) => r matches Err(x) && x@ == e,
        },
{
    let ini = crate::systemd_ini::SystemdIni::new();
    if !ini.can_parse(config) {
        return Err(owned("cannot parse the partition definition"));
    }
    let parsed = match crate::systemd_ini::SystemdIni::from_str(config) {
        Ok(p) => p,
        Err(e) => {
            return Err(e);
        },
    };
    proof {
        crate::ini_roundtrip::lemma_parsed_printable(config@);
    }
    match parsed.get("Partition", "Encrypt") {
        None => Ok(false),
        Some(v) => {
            proof {
                let sv = parsed@;
                let names = crate::systemd_ini::section_names(sv);
                let ip = crate::systemd_ini::ins_pos(names, "Partition"@) as int;
                let e = sv[ip].1;
                let q = crate::systemd_ini::ins_pos(crate::systemd_ini::entry_keys(e), "Encrypt"@) as int;
                assert(v@ == sv[ip].1[q].1);
                assert(crate::ini_roundtrip::printable_value(sv[ip].1[q].0, sv[ip].1[q].1));
            }
            let x = v.as_str();
            match crate::repartcfg::EncryptOption::from_name(x) {
                Some(e) => {
                    proof {
                        assert(encrypt_of(x@) == Some(e)) by {
                            reveal_strlit("off");
                            reveal_strlit("key-file");
                            reveal_strlit("tpm2");
                            reveal_strlit("key-file+tpm2");
                            match e {
                                crate::repartcfg::EncryptOption::Off => {},
                                crate::repartcfg::EncryptOption::KeyFile => {},
                                crate::repartcfg::EncryptOption::Tpm2 => {},
                                crate::repartcfg::EncryptOption::KeyFileTpm2 => {},
                            }
                        }
                    }
                    Ok(e.uses_tpm())
                },
                None => {
                    proof {
                        assert(crate::repartcfg::encrypt_name(crate::repartcfg::EncryptOption::Off) != x@);
                        assert(crate::repartcfg::encrypt_name(crate::repartcfg::EncryptOption::KeyFile) != x@);
                        assert(crate::repartcfg::encrypt_name(crate::repartcfg::EncryptOption::Tpm2) != x@);
                        assert(crate::repartcfg::encrypt_name(crate::repartcfg::EncryptOption::KeyFileTpm2) != x@);
                    }
                    Err(owned("unknown Encrypt= value"))
                },
            }
        },
    }
}

/// The arguments of `cryptsetup` that open the LUKS device `node` as
/// `label`, reading the passphrase from `keyfile`.
pub fn luks_open_args(node: &str, label: &str, keyfile: &str) -> (r: Vec<String>)
    ensures
        strs(r@) == seq!["open"@, node@, label@, "--batch-mode"@, "--key-file"@, keyfile@],
{
    let mut v: Vec<String> = Vec::new();
    v.push(owned("open"));
    v.push(owned(node));
    v.push(owned(label));
    v.push(owned("--batch-mode"));
    v.push(owned("--key-file"));
    v.push(owned(keyfile));
    proof {
        assert(strs(v@) =~= seq!["open"@, node@, label@, "--batch-mode"@, "--key-file"@, keyfile@]);
    }
    v
}

/// The device node of an opened mapper device.
pub fn mapper_path(label: &str) -> (r: String)
    ensures
        r@ == "/dev/mapper/"@ + label@,
{
    let mut s = owned("/dev/mapper/");
    push_chars(&mut s, &chars_of(label));
    s
}


/// In `/etc/fstab` the root comes first, and an entry never has more slashes
/// than one after it.
pub proof fn lemma_sorted_fstab_depth(s: Seq<FstabItem>, i: int, j: int)
    requires
        sorted_by(s),
        0 <= i < j < s.len(),
    ensures
        fstab_rank(s[i].mntpoint@) <= fstab_rank(s[j].mntpoint@),
        fstab_rank(s[i].mntpoint@) == fstab_rank(s[j].mntpoint@) ==> slash_count(s[i].mntpoint@) <= slash_count(
            s[j].mntpoint@,
        ),
{
    assert(!FstabItem::before(s[j], s[i]));
}

} // verus!
