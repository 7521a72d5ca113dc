//! Helpers: the kernel command line, status messages, and paths of block
//! devices under `/sys`.
use crate::text::{
    chars_eq, chars_of, contains, contains_sub, has_prefix, owned, parse_u64, parse_u64_exec, push_chars,
    rsplit_once, rsplit_once_exec, split_once, split_once_exec, starts_with, string_of, strs, trim,
    trim_chars, trim_start_matches, trim_start_matches_exec, words, words_exec,
};
use crate::l10n::{assoc_keys, assoc_put, find_key, lemma_assoc_put_unique};
use vstd::prelude::*;

verus! {

// ───────────────────────── the kernel command line ─────────────────────────

/// The arguments of the kernel command line (`/etc/kernel/cmdline`).
pub struct KernelCmdline {
    internal_vec: Vec<String>,
    pending: Vec<String>,
}

impl View for KernelCmdline {
    type V = Seq<Seq<char>>;

    closed spec fn view(&self) -> Seq<Seq<char>> {
        strs(self.internal_vec@)
    }
}

impl KernelCmdline {
    /// The arguments appended since the file was read or last written: they
    /// go to the file with the next write, and only then join the arguments.
    pub closed spec fn pending(&self) -> Seq<Seq<char>> {
        strs(self.pending@)
    }
}

/// Some argument contains `arg`.
pub open spec fn any_contains(v: Seq<Seq<char>>, arg: Seq<char>) -> bool {
    exists|i: int| 0 <= i < v.len() && contains_sub(#[trigger] v[i], arg)
}

/// The first argument that starts with `key`, or -1.
pub open spec fn first_with_prefix(v: Seq<Seq<char>>, key: Seq<char>) -> int
    decreases v.len(),
{
    if v.len() == 0 {
        -1
    } else if has_prefix(v[0], key) {
        0
    } else {
        let p = first_with_prefix(v.drop_first(), key);
        if p < 0 {
            -1
        } else {
            p + 1
        }
    }
}

proof fn lemma_first_with_prefix(v: Seq<Seq<char>>, key: Seq<char>)
    ensures
        -1 <= first_with_prefix(v, key) < v.len(),
        first_with_prefix(v, key) >= 0 ==> has_prefix(v[first_with_prefix(v, key)], key),
        first_with_prefix(v, key) < 0 ==> forall|i: int| 0 <= i < v.len() ==> !has_prefix(#[trigger] v[i], key),
        forall|i: int| 0 <= i < first_with_prefix(v, key) ==> !has_prefix(#[trigger] v[i], key),
    decreases v.len(),
{
    if v.len() > 0 && !has_prefix(v[0], key) {
        lemma_first_with_prefix(v.drop_first(), key);
        assert forall|i: int| 0 < i < v.len() implies v[i] == v.drop_first()[i - 1] by {}
    }
}

/// `append_or_replace`: nothing when an argument already contains `arg`;
/// else, for `key=value`, it replaces the first argument that starts with
/// `key`; else it is appended.
pub open spec fn append_or_replace_spec(v: Seq<Seq<char>>, arg: Seq<char>) -> Seq<Seq<char>> {
    if any_contains(v, arg) {
        v
    } else {
        match split_once(arg, '=') {
            Some((key, _)) => {
                let p = first_with_prefix(v, key);
                if p >= 0 {
                    v.update(p, arg)
                } else {
                    v.push(arg)
                }
            },
            None => v.push(arg),
        }
    }
}

/// The arguments joined by single spaces.
pub open spec fn join_spaces(v: Seq<Seq<char>>) -> Seq<char>
    decreases v.len(),
{
    if v.len() == 0 {
        Seq::empty()
    } else if v.len() == 1 {
        v[0]
    } else {
        join_spaces(v.drop_last()) + seq![' '] + v.last()
    }
}

/// The strings joined by single spaces.
fn join_strings(v: &Vec<String>) -> (r: String)
    ensures
        r@ == join_spaces(strs(v@)),
{
    let ghost sv = strs(v@);
    let mut s = String::new();
    let mut i: usize = 0;
    proof {
        assert(sv.take(0) =~= Seq::<Seq<char>>::empty());
    }
    while i < v.len()
        invariant
            i <= sv.len(),
            sv == strs(v@),
            s@ == join_spaces(sv.take(i as int)),
        decreases sv.len() - i,
    {
        let ghost s0 = s@;
        if i > 0 {
            s.push(' ');
        }
        push_chars(&mut s, &chars_of(v[i].as_str()));
        proof {
            let t = sv.take(i + 1);
            assert(t.drop_last() =~= sv.take(i as int));
            assert(t.last() == sv[i as int]);
            if i == 0 {
                assert(s@ =~= t[0]);
            } else {
                assert(s@ =~= s0 + seq![' '] + t.last());
            }
        }
        i = i + 1;
    }
    proof {
        assert(sv.take(i as int) =~= sv);
    }
    s
}

impl KernelCmdline {
    /// The command line read from the contents of the file: its
    /// whitespace-separated words.
    pub fn new(contents: &str) -> (r: Self)
        ensures
            r@ == words(contents@),
            r.pending() == Seq::<Seq<char>>::empty(),
    {
        let w = words_exec(&chars_of(contents));
        let mut v: Vec<String> = Vec::new();
        let mut i: usize = 0;
        while i < w.len()
            invariant
                i <= w@.len(),
                w@.map_values(|x: Vec<char>| x@) == words(contents@),
                strs(v@) == words(contents@).take(i as int),
            decreases w@.len() - i,
        {
            let ghost v0 = strs(v@);
            v.push(string_of(&w[i]));
            proof {
                assert(w@.map_values(|x: Vec<char>| x@)[i as int] == w@[i as int]@);
                assert(strs(v@) =~= v0.push(w@[i as int]@));
                assert(words(contents@).take(i + 1) =~= words(contents@).take(i as int).push(w@[i as int]@));
            }
            i = i + 1;
        }
        proof {
            assert(words(contents@).take(i as int) =~= words(contents@));
        }
        let r = KernelCmdline { internal_vec: v, pending: Vec::new() };
        proof {
            assert(r.pending() =~= Seq::<Seq<char>>::empty());
        }
        r
    }

    /// A copy of the arguments.
    pub fn get(&self) -> (r: Vec<String>)
        ensures
            strs(r@) == self@,
    {
        crate::text::clone_strings(&self.internal_vec)
    }

    /// Sets all kernel command line arguments.
    pub fn set(&mut self, args: &[String])
        ensures
            final(self)@ == strs(args@),
            final(self).pending() == old(self).pending(),
    {
        let mut v: Vec<String> = Vec::new();
        let mut i: usize = 0;
        while i < args.len()
            invariant
                i <= args@.len(),
                strs(v@) == strs(args@).take(i as int),
            decreases args@.len() - i,
        {
            let ghost v0 = strs(v@);
            v.push(args[i].clone());
            proof {
                assert(strs(v@) =~= v0.push(args@[i as int]@));
                assert(strs(args@).take(i + 1) =~= strs(args@).take(i as int).push(args@[i as int]@));
            }
            i = i + 1;
        }
        proof {
            assert(strs(args@).take(i as int) =~= strs(args@));
        }
        self.internal_vec = v;
    }

    /// Appends an argument to what the next write puts in the file; the
    /// arguments stay as they are until that write is committed.
    pub fn append(&mut self, arg: String)
        ensures
            final(self)@ == old(self)@,
            final(self).pending() == old(self).pending().push(arg@),
    {
        let ghost p0 = self.pending();
        self.pending.push(arg);
        proof {
            assert(self.pending() =~= p0.push(arg@));
        }
    }

    /// The text written to the file: the arguments, then those appended,
    /// joined by spaces.
    pub fn to_contents(&self) -> (r: String)
        ensures
            r@ == join_spaces(self@ + self.pending()),
    {
        let mut all = crate::text::clone_strings(&self.internal_vec);
        let tail = crate::text::clone_strings(&self.pending);
        let mut i: usize = 0;
        while i < tail.len()
            invariant
                i <= tail@.len(),
                strs(tail@) == self.pending(),
                strs(all@) == self@ + self.pending().take(i as int),
            decreases tail@.len() - i,
        {
            let ghost a0 = strs(all@);
            all.push(tail[i].clone());
            proof {
                assert(strs(all@) =~= a0.push(tail@[i as int]@));
                assert(self.pending().take(i + 1) =~= self.pending().take(i as int).push(tail@[i as int]@));
                assert(self@ + self.pending().take(i + 1) =~= (self@ + self.pending().take(i as int)).push(tail@[i as int]@));
            }
            i = i + 1;
        }
        proof {
            assert(self.pending().take(i as int) =~= self.pending());
        }
        join_strings(&all)
    }

    /// After the file was written: the appended arguments join the
    /// arguments.
    pub fn commit(&mut self)
        ensures
            final(self)@ == old(self)@ + old(self).pending(),
            final(self).pending() == Seq::<Seq<char>>::empty(),
    {
        let ghost v0 = self@;
        let ghost p0 = self.pending();
        let mut i: usize = 0;
        while i < self.pending.len()
            invariant
                i <= self.pending@.len(),
                strs(self.pending@) == p0,
                self@ == v0 + p0.take(i as int),
            decreases self.pending@.len() - i,
        {
            let ghost a0 = self@;
            let x = self.pending[i].clone();
            self.internal_vec.push(x);
            proof {
                assert(self@ =~= a0.push(p0[i as int]));
                assert(p0.take(i + 1) =~= p0.take(i as int).push(p0[i as int]));
                assert(v0 + p0.take(i + 1) =~= (v0 + p0.take(i as int)).push(p0[i as int]));
            }
            i = i + 1;
        }
        proof {
            assert(p0.take(i as int) =~= p0);
        }
        self.pending = Vec::new();
        proof {
            assert(self.pending() =~= Seq::<Seq<char>>::empty());
        }
    }

    /// Adds `arg` unless an argument contains it already; a `key=value`
    /// replaces the first argument that starts with `key`.
    pub fn append_or_replace(&mut self, arg: &str)
        ensures
            final(self)@ == append_or_replace_spec(old(self)@, arg@),
            final(self).pending() == old(self).pending(),
    {
        let a = chars_of(arg);
        let mut i: usize = 0;
        while i < self.internal_vec.len()
            invariant
                i <= self@.len(),
                self@ == strs(self.internal_vec@),
                a@ == arg@,
                self.pending() == old(self).pending(),
                forall|j: int| 0 <= j < i ==> !contains_sub(#[trigger] self@[j], arg@),
            decreases self@.len() - i,
        {
            if contains(&chars_of(self.internal_vec[i].as_str()), &a) {
                proof {
                    assert(contains_sub(self@[i as int], arg@));
                }
                return;
            }
            i = i + 1;
        }
        proof {
            assert(!any_contains(self@, arg@));
        }
        let ghost v0 = self@;
        if let Some((key, val)) = split_once_exec(&a, '=') {
            let mut j: usize = 0;
            proof {
                lemma_first_with_prefix(v0, key@);
            }
            while j < self.internal_vec.len()
                invariant
                    j <= v0.len(),
                    v0 == strs(self.internal_vec@),
                    v0 == old(self)@,
                    self.pending() == old(self).pending(),
                    !any_contains(v0, arg@),
                    a@ == arg@,
                    split_once(arg@, '=') == Some((key@, val@)),
                    forall|m: int| 0 <= m < j ==> !has_prefix(#[trigger] v0[m], key@),
                    -1 <= first_with_prefix(v0, key@) < v0.len(),
                    first_with_prefix(v0, key@) >= 0 ==> has_prefix(v0[first_with_prefix(v0, key@)], key@),
                    forall|m: int| 0 <= m < first_with_prefix(v0, key@) ==> !has_prefix(#[trigger] v0[m], key@),
                    first_with_prefix(v0, key@) < 0 ==> forall|m: int| 0 <= m < v0.len() ==> !has_prefix(#[trigger] v0[m], key@),
                decreases v0.len() - j,
            {
                if starts_with(&chars_of(self.internal_vec[j].as_str()), &key) {
                    proof {
                        assert(has_prefix(v0[j as int], key@));
                        assert(first_with_prefix(v0, key@) == j);
                    }
                    self.internal_vec.set(j, owned(arg));
                    proof {
                        assert(self@ =~= v0.update(j as int, arg@));
                    }
                    return;
                }
                j = j + 1;
            }
            proof {
                if first_with_prefix(v0, key@) >= 0 {
                    assert(!has_prefix(v0[first_with_prefix(v0, key@)], key@));
                }
            }
        }
        self.internal_vec.push(owned(arg));
        proof {
            assert(self@ =~= v0.push(arg@));
        }
    }
}

/// After `append_or_replace`, some argument contains `arg`, so a second
/// call changes nothing.
pub proof fn lemma_append_or_replace_idempotent(v: Seq<Seq<char>>, arg: Seq<char>)
    ensures
        any_contains(append_or_replace_spec(v, arg), arg),
        append_or_replace_spec(append_or_replace_spec(v, arg), arg) == append_or_replace_spec(v, arg),
{
    let r = append_or_replace_spec(v, arg);
    assert(contains_sub(arg, arg)) by {
        assert(arg.subrange(0, arg.len() as int) =~= arg);
        assert(crate::text::occurs_at(arg, arg, 0));
    }
    if !any_contains(v, arg) {
        match split_once(arg, '=') {
            Some((key, _)) => {
                let p = first_with_prefix(v, key);
                lemma_first_with_prefix(v, key);
                if p >= 0 {
                    assert(r[p] == arg);
                } else {
                    assert(r[v.len() as int] == arg);
                }
            },
            None => {
                assert(r[v.len() as int] == arg);
            },
        }
    }
}

// ───────────────────────── messages ─────────────────────────

/// A status message of the installation.
#[derive(Debug, Clone)]
pub enum InstallMessage {
    Status(String),
}

impl InstallMessage {
    /// A status message with the text `s`.
    pub fn new(s: &str) -> (r: Self)
        ensures
            r matches InstallMessage::Status(t) && t@ == s@,
    {
        InstallMessage::Status(owned(s))
    }
}


// ───────────────────────── block devices under /sys ─────────────────────────

/// The directory of a block device under `/sys/class/block`.
pub open spec fn sys_class_block(dev: Seq<char>) -> Seq<char> {
    "/sys/class/block/"@ + trim_start_matches(dev, "/dev/"@)
}

/// The directory of a block device (`/dev/sda1` or `sda1`) under
/// `/sys/class/block`.
pub fn sys_class_block_path(dev: &str) -> (r: String)
    ensures
        r@ == sys_class_block(dev@),
{
    let mut s = owned("/sys/class/block/");
    let t = trim_start_matches_exec(&chars_of(dev), &chars_of("/dev/"));
    push_chars(&mut s, &t);
    s
}

/// The number read from a device's `partition` file: the contents trimmed,
/// as a `usize`.
pub open spec fn partition_number_spec(contents: Seq<char>) -> Option<usize> {
    match parse_u64(trim(contents)) {
        Some(n) => if n <= usize::MAX {
            Some(n as usize)
        } else {
            None
        },
        None => None,
    }
}

/// The partition number in the contents of a device's `partition` file.
pub fn partition_number(contents: &str) -> (r: Option<usize>)
    ensures
        r == partition_number_spec(contents@),
{
    let t = trim_chars(&chars_of(contents));
    match parse_u64_exec(&t) {
        Some(n) => if n <= usize::MAX as u64 {
            Some(n as usize)
        } else {
            None
        },
        None => None,
    }
}

/// The device node of the directory a `/sys` path leads to: `/dev/` and its
/// last component, or the path itself when it has no `/`.
pub open spec fn whole_disk_spec(sys_path: Seq<char>) -> Seq<char> {
    match rsplit_once(sys_path, '/') {
        Some((_, tail)) => "/dev/"@ + tail,
        None => sys_path,
    }
}

/// The whole disk of a partition, from the canonical path of its parent
/// directory under `/sys` (`/sys/devices/.../sda` → `/dev/sda`).
pub fn get_whole_disk(canonical_parent: &str) -> (r: String)
    ensures
        r@ == whole_disk_spec(canonical_parent@),
{
    match rsplit_once_exec(&chars_of(canonical_parent), '/') {
        Some((_, tail)) => {
            let mut s = owned("/dev/");
            push_chars(&mut s, &tail);
            s
        },
        None => owned(canonical_parent),
    }
}


/// An argument can be written to the command line: it is not empty and has
/// no whitespace.
pub open spec fn plain_arg(a: Seq<char>) -> bool {
    a.len() > 0 && forall|j: int| 0 <= j < a.len() ==> !crate::text::is_ws(#[trigger] a[j])
}

/// Writing the command line and reading it back gives the same arguments,
/// when none is empty or holds whitespace.
pub proof fn lemma_cmdline_round_trip(v: Seq<Seq<char>>)
    requires
        forall|i: int| 0 <= i < v.len() ==> plain_arg(#[trigger] v[i]),
    ensures
        words(join_spaces(v)) == v,
    decreases v.len(),
{
    if v.len() == 0 {
        crate::text::lemma_lead_ws_exact(Seq::<char>::empty(), 0);
        assert(words(Seq::<char>::empty()) =~= Seq::<Seq<char>>::empty());
    } else if v.len() == 1 {
        assert(plain_arg(v[0]));
        crate::text::lemma_words_single(v[0]);
        assert(v =~= seq![v[0]]);
    } else {
        let init = v.drop_last();
        assert forall|i: int| 0 <= i < init.len() implies plain_arg(#[trigger] init[i]) by {
            assert(init[i] == v[i]);
        }
        lemma_cmdline_round_trip(init);
        let last = v.last();
        assert(plain_arg(v[v.len() - 1]));
        let b = seq![' '] + last;
        assert(join_spaces(v) =~= join_spaces(init) + b);
        assert(crate::text::is_ws(b[0]));
        crate::text::lemma_words_concat(join_spaces(init), b);
        crate::text::lemma_words_trim_start(b);
        crate::text::lemma_lead_ws_exact(b, 1);
        assert(crate::text::trim_start(b) =~= last);
        crate::text::lemma_words_single(last);
        assert(words(join_spaces(v)) =~= init.push(last));
        assert(init.push(last) =~= v);
    }
}

/// Every argument read from a file can be written back.
pub proof fn lemma_words_plain(s: Seq<char>)
    ensures
        forall|i: int| 0 <= i < words(s).len() ==> plain_arg(#[trigger] words(s)[i]),
    decreases s.len(),
{
    let t = crate::text::trim_start(s);
    crate::text::lemma_lead_ws_bound(s);
    if t.len() > 0 {
        crate::text::lemma_first_ws(t);
        let w = crate::text::first_ws(t);
        assert(t[0] == s[crate::text::lead_ws(s) as int]);
        lemma_words_plain(t.skip(w as int));
        let first = t.take(w as int);
        assert(plain_arg(first)) by {
            assert forall|j: int| 0 <= j < first.len() implies !crate::text::is_ws(#[trigger] first[j]) by {
                assert(first[j] == t[j]);
            }
        }
        assert forall|i: int| 0 <= i < words(s).len() implies plain_arg(#[trigger] words(s)[i]) by {
            if i > 0 {
                assert(words(s)[i] == words(t.skip(w as int))[i - 1]);
            }
        }
    }
}

impl KernelCmdline {
    /// A command line read from a file is written back as the same
    /// arguments: `new(c.to_contents())@ == c@` for `c = new(contents)`.
    pub proof fn lemma_read_write_read(contents: Seq<char>)
        ensures
            words(join_spaces(words(contents))) == words(contents),
    {
        lemma_words_plain(contents);
        lemma_cmdline_round_trip(words(contents));
    }
}


// ───────────────────────── languages with their own names ─────────────────────────

/// Locale → (name in English, name in the language itself) pairs as plain
/// values.
pub open spec fn native_pairs_view(v: Seq<(String, (String, String))>) -> Seq<(Seq<char>, (Seq<char>, Seq<char>))> {
    v.map_values(|p: (String, (String, String))| (p.0@, (p.1.0@, p.1.1@)))
}

/// The locales that have both names, each with the names found last for it,
/// each locale once, as a map from locale to names would hold them.
pub open spec fn named_natively(v: Seq<(String, Option<(String, String)>)>) -> Seq<(Seq<char>, (Seq<char>, Seq<char>))>
    decreases v.len(),
{
    if v.len() == 0 {
        Seq::empty()
    } else {
        let rest = named_natively(v.drop_last());
        match v.last().1 {
            Some((a, b)) => assoc_put(rest, v.last().0@, (a@, b@)),
            None => rest,
        }
    }
}

/// Each locale with the names found for it; those without are dropped, and
/// a locale given twice keeps the last names.
pub fn list(named: Vec<(String, Option<(String, String)>)>) -> (r: Vec<(String, (String, String))>)
    ensures
        native_pairs_view(r@) == named_natively(named@),
        assoc_keys(native_pairs_view(r@)).no_duplicates(),
{
    let mut r: Vec<(String, (String, String))> = Vec::new();
    let mut i: usize = 0;
    proof {
        assert(named@.take(0) =~= Seq::<(String, Option<(String, String)>)>::empty());
        assert(native_pairs_view(r@) =~= Seq::<(Seq<char>, (Seq<char>, Seq<char>))>::empty());
    }
    while i < named.len()
        invariant
            i <= named@.len(),
            native_pairs_view(r@) == named_natively(named@.take(i as int)),
            assoc_keys(native_pairs_view(r@)).no_duplicates(),
        decreases named@.len() - i,
    {
        let ghost r0 = native_pairs_view(r@);
        let (locale, names) = &named[i];
        proof {
            let t = named@.take(i + 1);
            assert(t.drop_last() =~= named@.take(i as int));
            assert(t.last() == named@[i as int]);
        }
        if let Some((a, b)) = names {
            proof {
                assert(r@.map_values(|p: (String, (String, String))| p.0@) =~= assoc_keys(r0));
                lemma_assoc_put_unique(r0, locale@, (a@, b@));
            }
            match find_key(&r, locale.as_str()) {
                Some(j) => {
                    r.set(j, (locale.clone(), (a.clone(), b.clone())));
                    proof {
                        assert(native_pairs_view(r@) =~= r0.update(j as int, (locale@, (a@, b@))));
                    }
                },
                None => {
                    r.push((locale.clone(), (a.clone(), b.clone())));
                    proof {
                        assert(native_pairs_view(r@) =~= r0.push((locale@, (a@, b@))));
                    }
                },
            }
        }
        i = i + 1;
    }
    proof {
        assert(named@.take(i as int) =~= named@);
    }
    r
}

/// Locale → the language's name in English and in itself, for each locale
/// that has both.
pub fn list_langs(named: Vec<(String, Option<(String, String)>)>) -> (r: Vec<(String, (String, String))>)
    ensures
        native_pairs_view(r@) == named_natively(named@),
        assoc_keys(native_pairs_view(r@)).no_duplicates(),
{
    list(named)
}


// ───────────────────────── missing files ─────────────────────────

#[verifier::external_type_specification]
#[verifier::external_body]
pub struct ExIoError(std::io::Error);

/// Whether an I/O error says that a file does not exist: what
/// `std::io::Error::kind` gives for it is `ErrorKind::NotFound`. It depends
/// on the error alone.
pub uninterp spec fn io_not_found(e: std::io::Error) -> bool;

/// `std::io::Error::kind` compared with `ErrorKind::NotFound`: the contract
/// claims only that the answer is the error's kind being `NotFound`, named
/// [`io_not_found`].
#[verifier::external_body]
fn is_not_found(e: &std::io::Error) -> (r: bool)
    ensures
        r == io_not_found(*e),
{
    e.kind() == std::io::ErrorKind::NotFound
}

/// Ignores errors about nonexisting files: such an error becomes the
/// default value; any other error, and any value, is kept.
pub fn exist_then<T: Default>(r: Result<T, std::io::Error>) -> (out: Result<T, std::io::Error>)
    ensures
        r is Ok ==> out == r,
        r matches Err(e) && !io_not_found(e) ==> out == r,
        r matches Err(e) && io_not_found(e) ==> (out matches Ok(v) && call_ensures(T::default, (), v)),
{
    let not_found = match &r {
        Ok(_) => false,
        Err(e) => is_not_found(e),
    };
    exist_then_by_kind(r, not_found)
}

/// `exist_then` once the error's kind is known: `not_found` says whether an
/// error is about a file that does not exist.
pub fn exist_then_by_kind<T: Default>(r: Result<T, std::io::Error>, not_found: bool) -> (out: Result<
    T,
    std::io::Error,
>)
    ensures
        r is Ok ==> out == r,
        r is Err && !not_found ==> out == r,
        r is Err && not_found ==> (out matches Ok(v) && call_ensures(T::default, (), v)),
{
    match r {
        Ok(x) => Ok(x),
        Err(e) => if not_found {
            Ok(T::default())
        } else {
            Err(e)
        },
    }
}

} // verus!
