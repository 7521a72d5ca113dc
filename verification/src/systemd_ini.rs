//! Systemd INI-esque configuration file parser, incomplete.
//!
//! Sections and keys are kept in the order of their names, as a map ordered
//! by key would hold them; a key given twice keeps every value, in order.
use crate::text::{
    chars_eq, chars_of, clone_strings, ends_with, find_char_exec, has_prefix, has_suffix, lines, lines_exec,
    push_chars, slice_chars, split_once, strs, split_once_exec, starts_with, string_of, trim, trim_chars,
};
use vstd::prelude::*;

verus! {

// ───────────────────────── values ─────────────────────────

/// The value of a key: one string, or all the strings the key was given.
#[derive(Debug, Clone, PartialEq, Eq)]
pub enum Value {
    String(String),
    Array(Vec<String>),
}

/// Mathematical model of a [`Value`].
pub enum ValueView {
    Str(Seq<char>),
    Arr(Seq<Seq<char>>),
}

impl View for Value {
    type V = ValueView;

    open spec fn view(&self) -> ValueView {
        match self {
            Value::String(s) => ValueView::Str(s@),
            Value::Array(a) => ValueView::Arr(strs(a@)),
        }
    }
}

impl ValueView {
    /// All strings of the value, in order.
    pub open spec fn as_array(self) -> Seq<Seq<char>> {
        match self {
            ValueView::Str(s) => seq![s],
            ValueView::Arr(a) => a,
        }
    }

    /// The value after appending `x`.
    pub open spec fn append(self, x: Seq<char>) -> ValueView {
        match self {
            ValueView::Str(s) => ValueView::Arr(seq![s, x]),
            ValueView::Arr(a) => ValueView::Arr(a.push(x)),
        }
    }

    /// `as_str` is defined: an array is not empty.
    pub open spec fn has_first(self) -> bool {
        self.as_array().len() > 0
    }
}

impl Value {
    /// The string of a single value, or the first string of an array.
    pub fn as_str(&self) -> (r: &str)
        requires
            self@.has_first(),
        ensures
            r@ == self@.as_array()[0],
    {
        match self {
            Value::String(s) => s.as_str(),
            Value::Array(arr) => {
                proof {
                    assert(strs(arr@)[0] == arr@[0]@);
                }
                arr[0].as_str()
            },
        }
    }

    /// All strings of the value, in order.
    pub fn as_array(&self) -> (r: Vec<String>)
        ensures
            strs(r@) == self@.as_array(),
    {
        match self {
            Value::String(s) => {
                let mut r = Vec::new();
                r.push(s.clone());
                proof {
                    assert(strs(r@) =~= seq![s@]);
                }
                r
            },
            Value::Array(arr) => clone_strings(arr),
        }
    }

    /// Append a value, converting the current value to an array if necessary.
    pub fn append(&mut self, value: String)
        ensures
            final(self)@ == old(self)@.append(value@),
            final(self)@.as_array() == old(self)@.as_array().push(value@),
    {
        match self {
            Value::String(old_value) => {
                let mut arr = Vec::new();
                arr.push(old_value.clone());
                let ghost v = value@;
                arr.push(value);
                proof {
                    assert(strs(arr@) =~= seq![old_value@, v]);
                }
                *self = Value::Array(arr);
            },
            Value::Array(arr) => {
                let ghost v = value@;
                let ghost a0 = arr@;
                arr.push(value);
                proof {
                    assert(strs(arr@) =~= strs(a0).push(v));
                }
            },
        }
    }
}

// ───────────────────────── name order ─────────────────────────

/// The order of names: character by character, by code point, a proper
/// prefix first (the order of `str` and `String`).
pub open spec fn name_lt(a: Seq<char>, b: Seq<char>) -> bool
    decreases a.len(),
{
    if a.len() == 0 {
        b.len() > 0
    } else if b.len() == 0 {
        false
    } else if a[0] != b[0] {
        a[0] < b[0]
    } else {
        name_lt(a.drop_first(), b.drop_first())
    }
}

pub proof fn lemma_name_lt_irreflexive(a: Seq<char>)
    ensures
        !name_lt(a, a),
    decreases a.len(),
{
    if a.len() > 0 {
        lemma_name_lt_irreflexive(a.drop_first());
    }
}

pub proof fn lemma_name_lt_transitive(a: Seq<char>, b: Seq<char>, c: Seq<char>)
    requires
        name_lt(a, b),
        name_lt(b, c),
    ensures
        name_lt(a, c),
    decreases a.len(),
{
    if a.len() > 0 && b.len() > 0 && c.len() > 0 {
        if a[0] == b[0] && b[0] == c[0] {
            lemma_name_lt_transitive(a.drop_first(), b.drop_first(), c.drop_first());
        }
    }
}

pub proof fn lemma_name_lt_total(a: Seq<char>, b: Seq<char>)
    requires
        a != b,
    ensures
        name_lt(a, b) || name_lt(b, a),
    decreases a.len(),
{
    if a.len() > 0 && b.len() > 0 {
        if a[0] == b[0] {
            if a.drop_first() == b.drop_first() {
                assert(a =~= seq![a[0]] + a.drop_first());
                assert(b =~= seq![b[0]] + b.drop_first());
            }
            lemma_name_lt_total(a.drop_first(), b.drop_first());
        }
    } else if a.len() == 0 && b.len() == 0 {
        assert(a =~= b);
    }
}

proof fn lemma_name_lt_skip(a: Seq<char>, b: Seq<char>, i: int)
    requires
        0 <= i <= a.len(),
        i <= b.len(),
        forall|j: int| 0 <= j < i ==> a[j] == b[j],
    ensures
        name_lt(a, b) == name_lt(a.skip(i), b.skip(i)),
    decreases i,
{
    if i > 0 {
        assert(a.drop_first().skip(i - 1) =~= a.skip(i));
        assert(b.drop_first().skip(i - 1) =~= b.skip(i));
        lemma_name_lt_skip(a.drop_first(), b.drop_first(), i - 1);
    } else {
        assert(a.skip(0) =~= a);
        assert(b.skip(0) =~= b);
    }
}

/// Whether `a` comes before `b`.
pub fn name_lt_exec(a: &[char], b: &[char]) -> (r: bool)
    ensures
        r == name_lt(a@, b@),
{
    let mut i: usize = 0;
    while i < a.len() && i < b.len() && a[i] == b[i]
        invariant
            i <= a@.len(),
            i <= b@.len(),
            forall|j: int| 0 <= j < i ==> a@[j] == b@[j],
        decreases a@.len() - i,
    {
        i = i + 1;
    }
    proof {
        lemma_name_lt_skip(a@, b@, i as int);
    }
    if i == a.len() {
        i < b.len()
    } else if i == b.len() {
        false
    } else {
        let ca = a[i];
        let cb = b[i];
        proof {
            assert(a@.skip(i as int)[0] == a@[i as int]);
            assert(b@.skip(i as int)[0] == b@[i as int]);
        }
        ca < cb
    }
}

// ───────────────────────── ordered association lists ─────────────────────────

/// Where `k` goes among `keys`: after the leading keys that come before it.
pub open spec fn ins_pos(keys: Seq<Seq<char>>, k: Seq<char>) -> nat
    decreases keys.len(),
{
    if keys.len() > 0 && name_lt(keys[0], k) {
        1 + ins_pos(keys.drop_first(), k)
    } else {
        0
    }
}

pub proof fn lemma_ins_pos(keys: Seq<Seq<char>>, k: Seq<char>)
    ensures
        ins_pos(keys, k) <= keys.len(),
        forall|j: int| 0 <= j < ins_pos(keys, k) ==> name_lt(#[trigger] keys[j], k),
        ins_pos(keys, k) < keys.len() ==> !name_lt(keys[ins_pos(keys, k) as int], k),
    decreases keys.len(),
{
    if keys.len() > 0 && name_lt(keys[0], k) {
        lemma_ins_pos(keys.drop_first(), k);
        assert forall|j: int| 0 <= j < ins_pos(keys, k) implies name_lt(#[trigger] keys[j], k) by {
            if j > 0 {
                assert(keys[j] == keys.drop_first()[j - 1]);
            }
        }
    }
}

pub proof fn lemma_ins_pos_exact(keys: Seq<Seq<char>>, k: Seq<char>, i: int)
    requires
        0 <= i <= keys.len(),
        forall|j: int| 0 <= j < i ==> name_lt(#[trigger] keys[j], k),
        i < keys.len() ==> !name_lt(keys[i], k),
    ensures
        ins_pos(keys, k) == i,
    decreases i,
{
    if i > 0 {
        let t = keys.drop_first();
        assert forall|j: int| 0 <= j < i - 1 implies name_lt(#[trigger] t[j], k) by {
            assert(t[j] == keys[j + 1]);
        }
        if i - 1 < t.len() {
            assert(t[i - 1] == keys[i]);
        }
        lemma_ins_pos_exact(t, k, i - 1);
    }
}

/// Strictly increasing names: sorted, no name twice.
pub open spec fn sorted_names(keys: Seq<Seq<char>>) -> bool {
    forall|i: int, j: int| 0 <= i < j < keys.len() ==> name_lt(#[trigger] keys[i], #[trigger] keys[j])
}

/// In a sorted list, a name that is there stands at its insertion position.
pub proof fn lemma_sorted_present(keys: Seq<Seq<char>>, k: Seq<char>, j: int)
    requires
        sorted_names(keys),
        0 <= j < keys.len(),
        keys[j] == k,
    ensures
        ins_pos(keys, k) == j,
{
    assert forall|m: int| 0 <= m < j implies name_lt(#[trigger] keys[m], k) by {
        assert(name_lt(keys[m], keys[j]));
    }
    lemma_name_lt_irreflexive(k);
    lemma_ins_pos_exact(keys, k, j);
}

/// Inserting a new name at its position keeps the names sorted.
pub proof fn lemma_sorted_insert(keys: Seq<Seq<char>>, k: Seq<char>)
    requires
        sorted_names(keys),
        !(ins_pos(keys, k) < keys.len() && keys[ins_pos(keys, k) as int] == k),
    ensures
        sorted_names(keys.insert(ins_pos(keys, k) as int, k)),
{
    let p = ins_pos(keys, k) as int;
    lemma_ins_pos(keys, k);
    let r = keys.insert(p, k);
    if p < keys.len() {
        lemma_name_lt_total(keys[p], k);
    }
    assert forall|i: int, j: int| 0 <= i < j < r.len() implies name_lt(
        #[trigger] r[i],
        #[trigger] r[j],
    ) by {
        if j < p {
            assert(r[i] == keys[i] && r[j] == keys[j]);
        } else if j == p {
            assert(r[i] == keys[i]);
        } else if i == p {
            assert(r[j] == keys[j - 1]);
            if j - 1 > p {
                assert(name_lt(keys[p], keys[j - 1]));
                lemma_name_lt_transitive(k, keys[p], keys[j - 1]);
            }
        } else if i < p {
            assert(r[i] == keys[i] && r[j] == keys[j - 1]);
        } else {
            assert(r[i] == keys[i - 1] && r[j] == keys[j - 1]);
        }
    }
}

// ───────────────────────── model of the file ─────────────────────────

/// The keys of a section, each with its value.
pub type EntriesView = Seq<(Seq<char>, ValueView)>;

/// The sections of a file, each with its entries.
pub type SectionsView = Seq<(Seq<char>, EntriesView)>;

pub open spec fn entry_keys(e: EntriesView) -> Seq<Seq<char>> {
    e.map_values(|p: (Seq<char>, ValueView)| p.0)
}

pub open spec fn section_names(s: SectionsView) -> Seq<Seq<char>> {
    s.map_values(|p: (Seq<char>, EntriesView)| p.0)
}

/// Whether the section `name` is there.
pub open spec fn has_section(s: SectionsView, name: Seq<char>) -> bool {
    let p = ins_pos(section_names(s), name);
    p < s.len() && s[p as int].0 == name
}

/// The sections after `[name]`: the section is added, empty, if it is new.
pub open spec fn with_section(s: SectionsView, name: Seq<char>) -> SectionsView {
    if has_section(s, name) {
        s
    } else {
        s.insert(ins_pos(section_names(s), name) as int, (name, Seq::empty()))
    }
}

/// The entries after `key=value`: the value is appended to the key's, or the
/// key is added with the value.
pub open spec fn with_entry(e: EntriesView, key: Seq<char>, value: Seq<char>) -> EntriesView {
    let p = ins_pos(entry_keys(e), key) as int;
    if p < e.len() && e[p].0 == key {
        e.update(p, (key, e[p].1.append(value)))
    } else {
        e.insert(p, (key, ValueView::Str(value)))
    }
}

/// The sections after `key=value` in the section `name`, which is there.
pub open spec fn with_value(s: SectionsView, name: Seq<char>, key: Seq<char>, value: Seq<char>) -> SectionsView {
    let p = ins_pos(section_names(s), name) as int;
    s.update(p, (name, with_entry(s[p].1, key, value)))
}


/// The entries after `key` is set to `value`: its old value, if any, is
/// replaced.
pub open spec fn with_set_entry(e: EntriesView, key: Seq<char>, value: Seq<char>) -> EntriesView {
    let p = ins_pos(entry_keys(e), key) as int;
    if p < e.len() && e[p].0 == key {
        e.update(p, (key, ValueView::Str(value)))
    } else {
        e.insert(p, (key, ValueView::Str(value)))
    }
}

/// The sections after `key` is set to `value` in the section `name`, which
/// is there.
pub open spec fn with_set(s: SectionsView, name: Seq<char>, key: Seq<char>, value: Seq<char>) -> SectionsView {
    let p = ins_pos(section_names(s), name) as int;
    s.update(p, (name, with_set_entry(s[p].1, key, value)))
}

/// The value of `key` in section `name`.
pub open spec fn lookup(s: SectionsView, name: Seq<char>, key: Seq<char>) -> Option<ValueView> {
    if has_section(s, name) {
        let e = s[ins_pos(section_names(s), name) as int].1;
        let p = ins_pos(entry_keys(e), key);
        if p < e.len() && e[p as int].0 == key {
            Some(e[p as int].1)
        } else {
            None
        }
    } else {
        None
    }
}

/// Sections and keys are strictly ordered by name.
pub open spec fn well_ordered(s: SectionsView) -> bool {
    &&& sorted_names(section_names(s))
    &&& forall|i: int| 0 <= i < s.len() ==> sorted_names(entry_keys(#[trigger] s[i].1))
}

pub open spec fn is_header(line: Seq<char>) -> bool {
    has_prefix(line, seq!['[']) && has_suffix(line, seq![']'])
}

/// The state after one line: the sections and the current section.
pub open spec fn step(st: (SectionsView, Seq<char>), raw: Seq<char>) -> (SectionsView, Seq<char>) {
    let line = trim(raw);
    if line.len() == 0 {
        st
    } else if is_header(line) {
        let name = line.subrange(1, line.len() - 1);
        (with_section(st.0, name), name)
    } else {
        match split_once(line, '=') {
            Some((k, v)) => (with_value(st.0, st.1, trim(k), trim(v)), st.1),
            None => st,
        }
    }
}

/// A line can be read: an empty line, a header, or `key=value` after a header.
pub open spec fn step_ok(st: (SectionsView, Seq<char>), raw: Seq<char>) -> bool {
    let line = trim(raw);
    line.len() == 0 || is_header(line) || (split_once(line, '=') is Some && has_section(
        st.0,
        st.1,
    ))
}

pub open spec fn steps(st: (SectionsView, Seq<char>), ls: Seq<Seq<char>>) -> (SectionsView, Seq<char>)
    decreases ls.len(),
{
    if ls.len() == 0 {
        st
    } else {
        step(steps(st, ls.drop_last()), ls.last())
    }
}

pub open spec fn steps_ok(st: (SectionsView, Seq<char>), ls: Seq<Seq<char>>) -> bool
    decreases ls.len(),
{
    if ls.len() == 0 {
        true
    } else {
        steps_ok(st, ls.drop_last()) && step_ok(steps(st, ls.drop_last()), ls.last())
    }
}

/// The sections after reading `data` into `s`.
pub open spec fn parse_spec(s: SectionsView, data: Seq<char>) -> SectionsView {
    steps((s, Seq::empty()), lines(data)).0
}

/// `data` can be read into `s`: every line that is neither empty nor a header
/// holds a `=` and comes after a header (or after `[]`, when `s` has the
/// section with the empty name).
pub open spec fn parse_ok(s: SectionsView, data: Seq<char>) -> bool {
    steps_ok((s, Seq::empty()), lines(data))
}

proof fn lemma_steps_ok_prefix(st: (SectionsView, Seq<char>), ls: Seq<Seq<char>>, k: int)
    requires
        0 <= k <= ls.len(),
        steps_ok(st, ls),
    ensures
        steps_ok(st, ls.take(k)),
        k < ls.len() ==> step_ok(steps(st, ls.take(k)), ls[k]),
    decreases ls.len() - k,
{
    if k < ls.len() {
        lemma_steps_ok_prefix(st, ls.drop_last(), k);
        if k == ls.len() - 1 {
            assert(ls.drop_last() =~= ls.take(k));
        } else {
            assert(ls.drop_last().take(k) =~= ls.take(k));
            assert(ls.drop_last()[k] == ls[k]);
        }
    } else {
        assert(ls.take(k) =~= ls);
    }
}

// ───────────────────────── the file ─────────────────────────

/// A parsed file: sections and their keys, ordered by name.
#[derive(Clone, PartialEq, Eq)]
pub struct SystemdIni {
    sections: Vec<(String, Vec<(String, Value)>)>,
}

pub open spec fn entries_view(e: Seq<(String, Value)>) -> EntriesView {
    e.map_values(|p: (String, Value)| (p.0@, p.1@))
}

pub open spec fn sections_view(s: Seq<(String, Vec<(String, Value)>)>) -> SectionsView {
    s.map_values(|p: (String, Vec<(String, Value)>)| (p.0@, entries_view(p.1@)))
}

impl View for SystemdIni {
    type V = SectionsView;

    closed spec fn view(&self) -> SectionsView {
        sections_view(self.sections@)
    }
}

/// Position of `name` among the names of `s`.
fn section_pos(s: &Vec<(String, Vec<(String, Value)>)>, name: &[char]) -> (r: usize)
    ensures
        r == ins_pos(section_names(sections_view(s@)), name@),
{
    let ghost keys = section_names(sections_view(s@));
    let mut i: usize = 0;
    while i < s.len()
        invariant
            i <= s@.len(),
            keys == section_names(sections_view(s@)),
            keys.len() == s@.len(),
            forall|j: int| 0 <= j < i ==> name_lt(#[trigger] keys[j], name@),
        decreases s@.len() - i,
    {
        let k = chars_of(s[i].0.as_str());
        proof {
            assert(keys[i as int] == s@[i as int].0@);
        }
        if !name_lt_exec(&k, name) {
            proof {
                lemma_ins_pos_exact(keys, name@, i as int);
            }
            return i;
        }
        i = i + 1;
    }
    proof {
        lemma_ins_pos_exact(keys, name@, i as int);
    }
    i
}

/// Position of `key` among the keys of `e`.
fn entry_pos(e: &Vec<(String, Value)>, key: &[char]) -> (r: usize)
    ensures
        r == ins_pos(entry_keys(entries_view(e@)), key@),
{
    let ghost keys = entry_keys(entries_view(e@));
    let mut i: usize = 0;
    while i < e.len()
        invariant
            i <= e@.len(),
            keys == entry_keys(entries_view(e@)),
            keys.len() == e@.len(),
            forall|j: int| 0 <= j < i ==> name_lt(#[trigger] keys[j], key@),
        decreases e@.len() - i,
    {
        let k = chars_of(e[i].0.as_str());
        proof {
            assert(keys[i as int] == e@[i as int].0@);
        }
        if !name_lt_exec(&k, key) {
            proof {
                lemma_ins_pos_exact(keys, key@, i as int);
            }
            return i;
        }
        i = i + 1;
    }
    proof {
        lemma_ins_pos_exact(keys, key@, i as int);
    }
    i
}

/// Whether the name of `s[i]` is `name`.
fn name_at(s: &Vec<(String, Vec<(String, Value)>)>, i: usize, name: &[char]) -> (r: bool)
    requires
        i < s@.len(),
    ensures
        r == (sections_view(s@)[i as int].0 == name@),
{
    let k = chars_of(s[i].0.as_str());
    chars_eq(&k, name)
}

fn key_at(e: &Vec<(String, Value)>, i: usize, key: &[char]) -> (r: bool)
    requires
        i < e@.len(),
    ensures
        r == (entries_view(e@)[i as int].0 == key@),
{
    let k = chars_of(e[i].0.as_str());
    chars_eq(&k, key)
}

/// Adds `value` to `key` in the entries.
fn add_entry(e: &mut Vec<(String, Value)>, key: &[char], value: &[char])
    ensures
        entries_view(final(e)@) == with_entry(entries_view(old(e)@), key@, value@),
{
    let p = entry_pos(e, key);
    let ghost ev = entries_view(e@);
    proof {
        lemma_ins_pos(entry_keys(ev), key@);
    }
    if p < e.len() && key_at(e, p, key) {
        let (k, mut v) = e.remove(p);
        let ghost vv = v@;
        v.append(string_of(value));
        proof {
            assert(vv == ev[p as int].1);
            assert(k@ == key@);
        }
        e.insert(p, (k, v));
        proof {
            assert(entries_view(e@) =~= ev.update(p as int, (key@, ev[p as int].1.append(value@))));
        }
    } else {
        let k = string_of(key);
        let v = Value::String(string_of(value));
        e.insert(p, (k, v));
        proof {
            assert(entries_view(e@) =~= ev.insert(p as int, (key@, ValueView::Str(value@))));
        }
    }
}

/// Sets `key` to `value` in the entries.
fn set_entry(e: &mut Vec<(String, Value)>, key: &[char], value: &[char])
    ensures
        entries_view(final(e)@) == with_set_entry(entries_view(old(e)@), key@, value@),
{
    let p = entry_pos(e, key);
    let ghost ev = entries_view(e@);
    proof {
        lemma_ins_pos(entry_keys(ev), key@);
    }
    let k = string_of(key);
    let v = Value::String(string_of(value));
    if p < e.len() && key_at(e, p, key) {
        e.set(p, (k, v));
        proof {
            assert(entries_view(e@) =~= ev.update(p as int, (key@, ValueView::Str(value@))));
        }
    } else {
        e.insert(p, (k, v));
        proof {
            assert(entries_view(e@) =~= ev.insert(p as int, (key@, ValueView::Str(value@))));
        }
    }
}

impl SystemdIni {
    /// An empty file.
    pub fn new() -> (r: Self)
        ensures
            r@ == SectionsView::empty(),
            well_ordered(r@),
    {
        let r = Self { sections: Vec::new() };
        proof {
            assert(r@ =~= SectionsView::empty());
        }
        r
    }

    /// Whether the section `name` is there.
    fn has_section_exec(&self, name: &[char]) -> (r: bool)
        ensures
            r == has_section(self@, name@),
    {
        let p = section_pos(&self.sections, name);
        p < self.sections.len() && name_at(&self.sections, p, name)
    }

    /// `[name]`: the section is added, empty, if it is new.
    fn add_section(&mut self, name: &[char])
        ensures
            final(self)@ == with_section(old(self)@, name@),
    {
        let p = section_pos(&self.sections, name);
        proof {
            lemma_ins_pos(section_names(self@), name@);
        }
        if p < self.sections.len() && name_at(&self.sections, p, name) {
            return;
        }
        let ghost sv = self@;
        self.sections.insert(p, (string_of(name), Vec::new()));
        proof {
            assert(entries_view(Seq::<(String, Value)>::empty()) =~= EntriesView::empty());
            assert(self@ =~= sv.insert(p as int, (name@, EntriesView::empty())));
        }
    }

    /// `key=value` in the section `name`, which is there.
    fn add_value(&mut self, name: &[char], key: &[char], value: &[char])
        requires
            has_section(old(self)@, name@),
        ensures
            final(self)@ == with_value(old(self)@, name@, key@, value@),
    {
        let p = section_pos(&self.sections, name);
        let ghost sv = self@;
        let (n, mut e) = self.sections.remove(p);
        proof {
            assert(sv[p as int] == (n@, entries_view(e@)));
        }
        add_entry(&mut e, key, value);
        self.sections.insert(p, (n, e));
        proof {
            assert(self@ =~= sv.update(p as int, (name@, with_entry(sv[p as int].1, key@, value@))));
        }
    }

    /// Sets `key` to `value` in the section `name`, which is there; an old
    /// value of the key is replaced.
    pub fn set_value(&mut self, name: &str, key: &str, value: &str)
        requires
            has_section(old(self)@, name@),
        ensures
            final(self)@ == with_set(old(self)@, name@, key@, value@),
    {
        let n = chars_of(name);
        let p = section_pos(&self.sections, &n);
        let ghost sv = self@;
        let (nm, mut e) = self.sections.remove(p);
        proof {
            assert(sv[p as int] == (nm@, entries_view(e@)));
        }
        set_entry(&mut e, &chars_of(key), &chars_of(value));
        self.sections.insert(p, (nm, e));
        proof {
            assert(self@ =~= sv.update(p as int, (name@, with_set_entry(sv[p as int].1, key@, value@))));
        }
    }

    /// Whether the section `name` is there.
    pub fn has_section(&self, name: &str) -> (r: bool)
        ensures
            r == has_section(self@, name@),
    {
        self.has_section_exec(&chars_of(name))
    }

    /// Reads one line, given the current section.
    fn read_line(&mut self, current: &mut Vec<char>, raw: &[char])
        requires
            step_ok((old(self)@, old(current)@), raw@),
        ensures
            (final(self)@, final(current)@) == step((old(self)@, old(current)@), raw@),
    {
        let line = trim_chars(raw);
        if line.len() == 0 {
            return;
        }
        let open = ['['];
        let close = [']'];
        let is_head = starts_with(&line, &open) && ends_with(&line, &close);
        proof {
            assert(open@ =~= seq!['[']);
            assert(close@ =~= seq![']']);
        }
        if is_head {
            let name = slice_chars(&line, 1, line.len() - 1);
            self.add_section(&name);
            *current = name;
        } else {
            match split_once_exec(&line, '=') {
                Some((k, v)) => {
                    let k = trim_chars(&k);
                    let v = trim_chars(&v);
                    self.add_value(current, &k, &v);
                },
                None => {},
            }
        }
    }

    /// Whether `data` can be read into this file (see [`parse_ok`]).
    pub fn can_parse(&self, data: &str) -> (r: bool)
        ensures
            r == parse_ok(self@, data@),
    {
        let chars = chars_of(data);
        let ls = lines_exec(&chars);
        let ghost lv = ls@.map_values(|v: Vec<char>| v@);
        let mut scratch = self.clone_ini();
        let mut current: Vec<char> = Vec::new();
        let mut i: usize = 0;
        proof {
            assert(lv.take(0) =~= Seq::<Seq<char>>::empty());
        }
        while i < ls.len()
            invariant
                i <= ls@.len(),
                lv == ls@.map_values(|v: Vec<char>| v@),
                lv == lines(data@),
                steps_ok((self@, Seq::empty()), lv.take(i as int)),
                (scratch@, current@) == steps((self@, Seq::empty()), lv.take(i as int)),
            decreases ls@.len() - i,
        {
            let ok = scratch.line_ok(&current, &ls[i]);
            proof {
                assert(lv[i as int] == ls@[i as int]@);
                assert(lv.take(i + 1).drop_last() =~= lv.take(i as int));
            }
            if !ok {
                proof {
                    lemma_not_ok_extends((self@, Seq::empty()), lv, i as int);
                }
                return false;
            }
            scratch.read_line(&mut current, &ls[i]);
            i = i + 1;
        }
        proof {
            assert(lv.take(i as int) =~= lv);
        }
        true
    }

    /// Whether one line can be read (see [`step_ok`]).
    fn line_ok(&self, current: &Vec<char>, raw: &[char]) -> (r: bool)
        ensures
            r == step_ok((self@, current@), raw@),
    {
        let line = trim_chars(raw);
        if line.len() == 0 {
            return true;
        }
        let open = ['['];
        let close = [']'];
        proof {
            assert(open@ =~= seq!['[']);
            assert(close@ =~= seq![']']);
        }
        if starts_with(&line, &open) && ends_with(&line, &close) {
            return true;
        }
        match find_char_exec(&line, '=') {
            Some(_) => self.has_section_exec(current),
            None => false,
        }
    }

    /// A copy of this file.
    pub fn clone_ini(&self) -> (r: Self)
        ensures
            r@ == self@,
    {
        let mut sections: Vec<(String, Vec<(String, Value)>)> = Vec::new();
        let mut i: usize = 0;
        while i < self.sections.len()
            invariant
                i <= self.sections@.len(),
                sections_view(sections@) == sections_view(self.sections@.take(i as int)),
            decreases self.sections@.len() - i,
        {
            let n = self.sections[i].0.clone();
            let e = clone_entries(&self.sections[i].1);
            let ghost s0 = sections@;
            let ghost ev = entries_view(e@);
            sections.push((n, e));
            proof {
                assert(self.sections@.take(i + 1) =~= self.sections@.take(i as int).push(
                    self.sections@[i as int],
                ));
                assert(sections_view(sections@) =~= sections_view(s0).push((n@, ev)));
                assert(sections_view(self.sections@.take(i + 1)) =~= sections_view(
                    self.sections@.take(i as int),
                ).push((self.sections@[i as int].0@, entries_view(self.sections@[i as int].1@))));
            }
            i = i + 1;
        }
        proof {
            assert(self.sections@.take(self.sections@.len() as int) =~= self.sections@);
        }
        Self { sections }
    }

    /// Reads `data`, line by line: a `[name]` line starts (or adds) a section,
    /// a `key=value` line adds the value to the key in the current section;
    /// both sides are trimmed and empty lines are skipped.
    pub fn parse(&mut self, data: &str)
        requires
            parse_ok(old(self)@, data@),
        ensures
            final(self)@ == parse_spec(old(self)@, data@),
            well_ordered(old(self)@) ==> well_ordered(final(self)@),
    {
        let chars = chars_of(data);
        let ls = lines_exec(&chars);
        let ghost lv = ls@.map_values(|v: Vec<char>| v@);
        let ghost s0 = self@;
        let mut current: Vec<char> = Vec::new();
        let mut i: usize = 0;
        proof {
            assert(lv.take(0) =~= Seq::<Seq<char>>::empty());
        }
        while i < ls.len()
            invariant
                i <= ls@.len(),
                lv == ls@.map_values(|v: Vec<char>| v@),
                lv == lines(data@),
                steps_ok((s0, Seq::empty()), lv),
                (self@, current@) == steps((s0, Seq::empty()), lv.take(i as int)),
                well_ordered(s0) ==> well_ordered(self@),
            decreases ls@.len() - i,
        {
            proof {
                lemma_steps_ok_prefix((s0, Seq::empty()), lv, i as int);
                assert(lv[i as int] == ls@[i as int]@);
                assert(lv.take(i + 1).drop_last() =~= lv.take(i as int));
                if well_ordered(self@) {
                    lemma_step_well_ordered((self@, current@), lv[i as int]);
                }
            }
            self.read_line(&mut current, &ls[i]);
            i = i + 1;
        }
        proof {
            assert(lv.take(i as int) =~= lv);
        }
    }

    /// Reads a whole file (see [`Self::parse`]).
    pub fn from_str(s: &str) -> (r: Result<Self, String>)
        requires
            parse_ok(SectionsView::empty(), s@),
        ensures
            r matches Ok(ini) && ini@ == parse_spec(SectionsView::empty(), s@) && well_ordered(ini@),
    {
        let mut ini = Self::new();
        ini.parse(s);
        Ok(ini)
    }

    /// The value of `key` in section `section`.
    pub fn get(&self, section: &str, key: &str) -> (r: Option<&Value>)
        ensures
            match r {
                Some(v) => lookup(self@, section@, key@) == Some(v@),
                None => lookup(self@, section@, key@) is None,
            },
    {
        let name = chars_of(section);
        let k = chars_of(key);
        let p = section_pos(&self.sections, &name);
        if p < self.sections.len() && name_at(&self.sections, p, &name) {
            let e = &self.sections[p].1;
            let q = entry_pos(e, &k);
            proof {
                assert(self@[p as int].1 == entries_view(e@));
            }
            if q < e.len() && key_at(e, q, &k) {
                proof {
                    assert(entries_view(e@)[q as int].1 == e@[q as int].1@);
                }
                Some(&e[q].1)
            } else {
                None
            }
        } else {
            None
        }
    }
}

fn clone_value(v: &Value) -> (r: Value)
    ensures
        r@ == v@,
{
    match v {
        Value::String(s) => Value::String(s.clone()),
        Value::Array(a) => Value::Array(clone_strings(a)),
    }
}

fn clone_entries(e: &Vec<(String, Value)>) -> (r: Vec<(String, Value)>)
    ensures
        entries_view(r@) == entries_view(e@),
{
    let mut r: Vec<(String, Value)> = Vec::new();
    let mut i: usize = 0;
    while i < e.len()
        invariant
            i <= e@.len(),
            entries_view(r@) == entries_view(e@.take(i as int)),
        decreases e@.len() - i,
    {
        let k = e[i].0.clone();
        let v = clone_value(&e[i].1);
        let ghost r0 = r@;
        r.push((k, v));
        proof {
            assert(e@.take(i + 1) =~= e@.take(i as int).push(e@[i as int]));
            assert(entries_view(r@) =~= entries_view(r0).push((k@, v@)));
            assert(entries_view(e@.take(i + 1)) =~= entries_view(e@.take(i as int)).push(
                (e@[i as int].0@, e@[i as int].1@),
            ));
        }
        i = i + 1;
    }
    proof {
        assert(e@.take(e@.len() as int) =~= e@);
    }
    r
}

proof fn lemma_not_ok_extends(st: (SectionsView, Seq<char>), ls: Seq<Seq<char>>, i: int)
    requires
        0 <= i < ls.len(),
        !step_ok(steps(st, ls.take(i)), ls[i]),
    ensures
        !steps_ok(st, ls),
    decreases ls.len() - i,
{
    if i == ls.len() - 1 {
        assert(ls.drop_last() =~= ls.take(i));
    } else {
        assert(ls.drop_last().take(i) =~= ls.take(i));
        assert(ls.drop_last()[i] == ls[i]);
        lemma_not_ok_extends(st, ls.drop_last(), i);
    }
}

// ───────────────────────── printing ─────────────────────────

/// `key=x` and a newline.
pub open spec fn line_of(key: Seq<char>, x: Seq<char>) -> Seq<char> {
    key + seq!['='] + x + seq!['\n']
}

/// One `key=x` line for each string of an array.
pub open spec fn array_text(key: Seq<char>, a: Seq<Seq<char>>) -> Seq<char>
    decreases a.len(),
{
    if a.len() == 0 {
        Seq::empty()
    } else {
        array_text(key, a.drop_last()) + line_of(key, a.last())
    }
}

/// The lines of one key.
pub open spec fn value_text(key: Seq<char>, v: ValueView) -> Seq<char> {
    match v {
        ValueView::Str(x) => line_of(key, x),
        ValueView::Arr(a) => array_text(key, a),
    }
}

/// The lines of the keys of a section.
pub open spec fn entries_text(e: EntriesView) -> Seq<char>
    decreases e.len(),
{
    if e.len() == 0 {
        Seq::empty()
    } else {
        entries_text(e.drop_last()) + value_text(e.last().0, e.last().1)
    }
}

/// A `[name]` line and a newline.
pub open spec fn header_of(name: Seq<char>) -> Seq<char> {
    seq!['['] + name + seq![']', '\n']
}

/// The text of a file: each section's header, then its keys.
pub open spec fn ini_text(s: SectionsView) -> Seq<char>
    decreases s.len(),
{
    if s.len() == 0 {
        Seq::empty()
    } else {
        ini_text(s.drop_last()) + header_of(s.last().0) + entries_text(s.last().1)
    }
}

/// Writes one `key=x` line for each string of `arr`.
fn write_array(out: &mut String, key: &[char], arr: &Vec<String>)
    ensures
        final(out)@ == old(out)@ + array_text(key@, strs(arr@)),
{
    let mut i: usize = 0;
    proof {
        assert(strs(arr@).take(0) =~= Seq::<Seq<char>>::empty());
        assert(old(out)@ + Seq::<char>::empty() =~= old(out)@);
    }
    while i < arr.len()
        invariant
            i <= arr@.len(),
            out@ == old(out)@ + array_text(key@, strs(arr@).take(i as int)),
        decreases arr@.len() - i,
    {
        let x = chars_of(arr[i].as_str());
        let ghost before = out@;
        write_line(out, key, &x);
        proof {
            let a = strs(arr@);
            assert(a.take(i + 1).drop_last() =~= a.take(i as int));
            assert(a.take(i + 1).last() == x@);
            assert(out@ =~= old(out)@ + array_text(key@, a.take(i + 1)));
        }
        i = i + 1;
    }
    proof {
        assert(strs(arr@).take(arr@.len() as int) =~= strs(arr@));
    }
}

fn write_line(out: &mut String, key: &[char], x: &[char])
    ensures
        final(out)@ == old(out)@ + line_of(key@, x@),
{
    push_chars(out, key);
    out.push('=');
    push_chars(out, x);
    out.push('\n');
    proof {
        assert(out@ =~= old(out)@ + line_of(key@, x@));
    }
}

fn write_entries(out: &mut String, e: &Vec<(String, Value)>)
    ensures
        final(out)@ == old(out)@ + entries_text(entries_view(e@)),
{
    let ghost ev = entries_view(e@);
    let mut i: usize = 0;
    proof {
        assert(ev.take(0) =~= EntriesView::empty());
        assert(old(out)@ + Seq::<char>::empty() =~= old(out)@);
    }
    while i < e.len()
        invariant
            i <= e@.len(),
            ev == entries_view(e@),
            out@ == old(out)@ + entries_text(ev.take(i as int)),
        decreases e@.len() - i,
    {
        let k = chars_of(e[i].0.as_str());
        let ghost before = out@;
        match &e[i].1 {
            Value::String(x) => {
                let xs = chars_of(x.as_str());
                write_line(out, &k, &xs);
            },
            Value::Array(arr) => {
                write_array(out, &k, arr);
            },
        }
        proof {
            assert(ev.take(i + 1).drop_last() =~= ev.take(i as int));
            assert(ev.take(i + 1).last() == (k@, e@[i as int].1@));
            assert(out@ =~= old(out)@ + entries_text(ev.take(i + 1)));
        }
        i = i + 1;
    }
    proof {
        assert(ev.take(e@.len() as int) =~= ev);
    }
}

impl SystemdIni {
    /// The text of the file: for each section `[name]`, then one `key=value`
    /// line per string of each key, every line ending in a newline.
    pub fn to_text(&self) -> (r: String)
        ensures
            r@ == ini_text(self@),
    {
        let mut out = String::new();
        let ghost sv = self@;
        let mut i: usize = 0;
        proof {
            assert(sv.take(0) =~= SectionsView::empty());
        }
        while i < self.sections.len()
            invariant
                i <= self.sections@.len(),
                sv == sections_view(self.sections@),
                out@ == ini_text(sv.take(i as int)),
            decreases self.sections@.len() - i,
        {
            let name = chars_of(self.sections[i].0.as_str());
            let ghost before = out@;
            out.push('[');
            push_chars(&mut out, &name);
            out.push(']');
            out.push('\n');
            write_entries(&mut out, &self.sections[i].1);
            proof {
                assert(sv.take(i + 1).drop_last() =~= sv.take(i as int));
                assert(sv.take(i + 1).last() == (name@, entries_view(self.sections@[i as int].1@)));
                assert(out@ =~= ini_text(sv.take(i + 1)));
            }
            i = i + 1;
        }
        proof {
            assert(sv.take(self.sections@.len() as int) =~= sv);
        }
        out
    }
}

// ───────────────────────── laws ─────────────────────────

/// Adding a section keeps the file well ordered.
pub proof fn lemma_with_section_well_ordered(s: SectionsView, name: Seq<char>)
    requires
        well_ordered(s),
    ensures
        well_ordered(with_section(s, name)),
{
    if !has_section(s, name) {
        let p = ins_pos(section_names(s), name) as int;
        lemma_ins_pos(section_names(s), name);
        lemma_sorted_insert(section_names(s), name);
        let r = s.insert(p, (name, EntriesView::empty()));
        assert(section_names(r) =~= section_names(s).insert(p, name));
        assert forall|i: int| 0 <= i < r.len() implies sorted_names(entry_keys(#[trigger] r[i].1)) by {
            if i < p {
                assert(r[i] == s[i]);
            } else if i > p {
                assert(r[i] == s[i - 1]);
            } else {
                assert(entry_keys(r[i].1) =~= Seq::<Seq<char>>::empty());
            }
        }
    }
}

/// Adding a value keeps the file well ordered.
pub proof fn lemma_with_value_well_ordered(s: SectionsView, name: Seq<char>, key: Seq<char>, value: Seq<char>)
    requires
        well_ordered(s),
        has_section(s, name),
    ensures
        well_ordered(with_value(s, name, key, value)),
{
    let p = ins_pos(section_names(s), name) as int;
    let e = s[p].1;
    let r = with_value(s, name, key, value);
    let q = ins_pos(entry_keys(e), key) as int;
    lemma_ins_pos(entry_keys(e), key);
    assert(sorted_names(entry_keys(e)));
    let ne = with_entry(e, key, value);
    if q < e.len() && e[q].0 == key {
        assert(entry_keys(ne) =~= entry_keys(e));
    } else {
        lemma_sorted_insert(entry_keys(e), key);
        assert(entry_keys(ne) =~= entry_keys(e).insert(q, key));
    }
    assert(section_names(r) =~= section_names(s));
    assert forall|i: int| 0 <= i < r.len() implies sorted_names(entry_keys(#[trigger] r[i].1)) by {
        if i != p {
            assert(r[i] == s[i]);
        }
    }
}

proof fn lemma_step_well_ordered(st: (SectionsView, Seq<char>), raw: Seq<char>)
    requires
        well_ordered(st.0),
        step_ok(st, raw),
    ensures
        well_ordered(step(st, raw).0),
{
    let line = trim(raw);
    if line.len() == 0 {
    } else if is_header(line) {
        lemma_with_section_well_ordered(st.0, line.subrange(1, line.len() - 1));
    } else {
        match split_once(line, '=') {
            Some((k, v)) => {
                lemma_with_value_well_ordered(st.0, st.1, trim(k), trim(v));
            },
            None => {},
        }
    }
}

/// What a read gives back of a write: after `key=value` in section `name`,
/// that key holds its old strings and then `value`, or only `value` if it is
/// new; every other key of every section is unchanged.
pub proof fn lemma_lookup_after_value(
    s: SectionsView,
    name: Seq<char>,
    key: Seq<char>,
    value: Seq<char>,
    name2: Seq<char>,
    key2: Seq<char>,
)
    requires
        well_ordered(s),
        has_section(s, name),
    ensures
        lookup(with_value(s, name, key, value), name2, key2) == if name2 == name && key2 == key {
            match lookup(s, name, key) {
                Some(v) => Some(v.append(value)),
                None => Some(ValueView::Str(value)),
            }
        } else {
            lookup(s, name2, key2)
        },
        lookup(with_value(s, name, key, value), name, key).unwrap().as_array() == match lookup(
            s,
            name,
            key,
        ) {
            Some(v) => v.as_array(),
            None => Seq::empty(),
        }.push(value),
{
    let r = with_value(s, name, key, value);
    let names = section_names(s);
    let p = ins_pos(names, name) as int;
    lemma_ins_pos(names, name);
    assert(section_names(r) =~= names);
    let e = s[p].1;
    let keys = entry_keys(e);
    let q = ins_pos(keys, key) as int;
    lemma_ins_pos(keys, key);
    let ne = with_entry(e, key, value);
    assert(r[p].1 == ne);
    assert(sorted_names(keys));
    if q < e.len() && e[q].0 == key {
        assert(entry_keys(ne) =~= keys);
    } else {
        lemma_sorted_insert(keys, key);
        assert(entry_keys(ne) =~= keys.insert(q, key));
    }
    lemma_ins_pos(entry_keys(ne), key);
    // the key itself
    assert(ne[q].0 == key);
    assert(sorted_names(entry_keys(ne)));
    lemma_sorted_present(entry_keys(ne), key, q);
    // another key of the same section
    if key2 != key {
        let q2 = ins_pos(keys, key2) as int;
        lemma_ins_pos(keys, key2);
        if q2 < e.len() && e[q2].0 == key2 {
            let j = if q < e.len() && e[q].0 == key {
                q2
            } else if q2 < q {
                q2
            } else {
                q2 + 1
            };
            assert(ne[j].0 == key2);
            assert(ne[j].1 == e[q2].1);
            lemma_sorted_present(entry_keys(ne), key2, j);
        } else {
            let q3 = ins_pos(entry_keys(ne), key2) as int;
            lemma_ins_pos(entry_keys(ne), key2);
            if q3 < ne.len() && ne[q3].0 == key2 {
                let j = if q < e.len() && e[q].0 == key {
                    q3
                } else if q3 < q {
                    q3
                } else {
                    q3 - 1
                };
                assert(e[j].0 == key2);
                lemma_sorted_present(keys, key2, j);
                assert(false);
            }
        }
    }
    // another section
    if name2 != name {
        let p2 = ins_pos(names, name2) as int;
        lemma_ins_pos(names, name2);
        if p2 < s.len() && s[p2].0 == name2 {
            assert(p2 != p);
            assert(r[p2] == s[p2]);
        }
    }
}


/// Setting a value keeps the file well ordered.
pub proof fn lemma_with_set_well_ordered(s: SectionsView, name: Seq<char>, key: Seq<char>, value: Seq<char>)
    requires
        well_ordered(s),
        has_section(s, name),
    ensures
        well_ordered(with_set(s, name, key, value)),
{
    let p = ins_pos(section_names(s), name) as int;
    let e = s[p].1;
    let r = with_set(s, name, key, value);
    let q = ins_pos(entry_keys(e), key) as int;
    lemma_ins_pos(entry_keys(e), key);
    let ne = with_set_entry(e, key, value);
    if q < e.len() && e[q].0 == key {
        assert(entry_keys(ne) =~= entry_keys(e));
    } else {
        lemma_sorted_insert(entry_keys(e), key);
        assert(entry_keys(ne) =~= entry_keys(e).insert(q, key));
    }
    assert(section_names(r) =~= section_names(s));
    assert forall|i: int| 0 <= i < r.len() implies sorted_names(entry_keys(#[trigger] r[i].1)) by {
        if i != p {
            assert(r[i] == s[i]);
        }
    }
}

/// What a read gives back of a set: after setting `key` to `value` in
/// section `name`, that key holds `value` alone; every other key of every
/// section is unchanged.
pub proof fn lemma_lookup_after_set(
    s: SectionsView,
    name: Seq<char>,
    key: Seq<char>,
    value: Seq<char>,
    name2: Seq<char>,
    key2: Seq<char>,
)
    requires
        well_ordered(s),
        has_section(s, name),
    ensures
        lookup(with_set(s, name, key, value), name2, key2) == if name2 == name && key2 == key {
            Some(ValueView::Str(value))
        } else {
            lookup(s, name2, key2)
        },
{
    let r = with_set(s, name, key, value);
    let names = section_names(s);
    let p = ins_pos(names, name) as int;
    lemma_ins_pos(names, name);
    assert(section_names(r) =~= names);
    let e = s[p].1;
    let keys = entry_keys(e);
    let q = ins_pos(keys, key) as int;
    lemma_ins_pos(keys, key);
    let ne = with_set_entry(e, key, value);
    assert(r[p].1 == ne);
    assert(sorted_names(keys));
    let replaced = q < e.len() && e[q].0 == key;
    if replaced {
        assert(entry_keys(ne) =~= keys);
    } else {
        lemma_sorted_insert(keys, key);
        assert(entry_keys(ne) =~= keys.insert(q, key));
    }
    // the key itself
    assert(ne[q].0 == key);
    assert(sorted_names(entry_keys(ne)));
    lemma_sorted_present(entry_keys(ne), key, q);
    // another key of the same section
    if key2 != key {
        let q2 = ins_pos(keys, key2) as int;
        lemma_ins_pos(keys, key2);
        if q2 < e.len() && e[q2].0 == key2 {
            let j = if replaced {
                q2
            } else if q2 < q {
                q2
            } else {
                q2 + 1
            };
            assert(ne[j].0 == key2);
            assert(ne[j].1 == e[q2].1);
            lemma_sorted_present(entry_keys(ne), key2, j);
        } else {
            let q3 = ins_pos(entry_keys(ne), key2) as int;
            lemma_ins_pos(entry_keys(ne), key2);
            if q3 < ne.len() && ne[q3].0 == key2 {
                let j = if replaced {
                    q3
                } else if q3 < q {
                    q3
                } else {
                    q3 - 1
                };
                assert(e[j].0 == key2);
                lemma_sorted_present(keys, key2, j);
                assert(false);
            }
        }
    }
    // another section
    if name2 != name {
        let p2 = ins_pos(names, name2) as int;
        lemma_ins_pos(names, name2);
        if p2 < s.len() && s[p2].0 == name2 {
            assert(p2 != p);
            assert(r[p2] == s[p2]);
        }
    }
}

} // verus!
