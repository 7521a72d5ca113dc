//! Reading back a printed file: the text that `SystemdIni::to_text` writes
//! parses to the same sections, keys and values, for every file whose names
//! and values survive being written on one line.
use crate::systemd_ini::{
    array_text, entries_text, entry_keys, has_section, header_of, ini_text, ins_pos, is_header,
    lemma_ins_pos, lemma_ins_pos_exact, lemma_name_lt_irreflexive, lemma_with_section_well_ordered,
    lemma_with_value_well_ordered, line_of, name_lt, parse_ok, parse_spec,
    section_names, sorted_names, step, step_ok, steps, steps_ok, value_text,
    well_ordered, with_entry, with_section, with_value, EntriesView, SectionsView, ValueView,
};
use crate::text::{
    clean_line, find_char, has_prefix, has_suffix, is_ws, joined_lines, lemma_find_char, lemma_lines_no_newline,
    lemma_trim_facts, lemma_find_char_exact, lemma_joined_concat, lemma_lines_joined,
    lemma_trim_trimmed, lines, split_once, trim, trimmed,
};
use vstd::prelude::*;

verus! {

/// `key=x`, without its newline.
pub open spec fn entry_line(key: Seq<char>, x: Seq<char>) -> Seq<char> {
    key + seq!['='] + x
}

/// `[name]`, without its newline.
pub open spec fn header_line(name: Seq<char>) -> Seq<char> {
    seq!['['] + name + seq![']']
}

/// A key and one of its strings can be written as one `key=x` line and read
/// back: neither has whitespace at its ends or a newline, the key has no `=`,
/// and the line does not look like a `[header]`.
pub open spec fn printable_pair(key: Seq<char>, x: Seq<char>) -> bool {
    &&& trimmed(key)
    &&& trimmed(x)
    &&& !key.contains('=')
    &&& !key.contains('\n')
    &&& !x.contains('\n')
    &&& !is_header(entry_line(key, x))
}

/// Every string of the value is printable with the key, and an array holds
/// at least two strings (one string reads back as a single value).
pub open spec fn printable_value(key: Seq<char>, v: ValueView) -> bool {
    match v {
        ValueView::Str(x) => printable_pair(key, x),
        ValueView::Arr(a) => a.len() >= 2 && forall|i: int|
            0 <= i < a.len() ==> printable_pair(key, #[trigger] a[i]),
    }
}

/// A file that reads back as it was written: well ordered, no section name
/// holds a newline, and every value is printable with its key.
pub open spec fn printable(s: SectionsView) -> bool {
    &&& well_ordered(s)
    &&& forall|i: int| 0 <= i < s.len() ==> !(#[trigger] s[i]).0.contains('\n')
    &&& forall|i: int, j: int|
        0 <= i < s.len() && 0 <= j < s[i].1.len() ==> printable_value(
            (#[trigger] s[i].1[j]).0,
            s[i].1[j].1,
        )
}

// ───────────────────────── the printed lines ─────────────────────────

pub open spec fn array_lines(key: Seq<char>, a: Seq<Seq<char>>) -> Seq<Seq<char>>
    decreases a.len(),
{
    if a.len() == 0 {
        Seq::empty()
    } else {
        array_lines(key, a.drop_last()).push(entry_line(key, a.last()))
    }
}

pub open spec fn value_lines(key: Seq<char>, v: ValueView) -> Seq<Seq<char>> {
    match v {
        ValueView::Str(x) => seq![entry_line(key, x)],
        ValueView::Arr(a) => array_lines(key, a),
    }
}

pub open spec fn entries_lines(e: EntriesView) -> Seq<Seq<char>>
    decreases e.len(),
{
    if e.len() == 0 {
        Seq::empty()
    } else {
        entries_lines(e.drop_last()) + value_lines(e.last().0, e.last().1)
    }
}

pub open spec fn ini_lines(s: SectionsView) -> Seq<Seq<char>>
    decreases s.len(),
{
    if s.len() == 0 {
        Seq::empty()
    } else {
        ini_lines(s.drop_last()).push(header_line(s.last().0)) + entries_lines(s.last().1)
    }
}

proof fn lemma_joined_one(l: Seq<char>)
    ensures
        joined_lines(seq![l]) == l + seq!['\n'],
{
    let one = seq![l];
    assert(one.drop_last() =~= Seq::<Seq<char>>::empty());
    assert(joined_lines(one.drop_last()) =~= Seq::<char>::empty());
    assert(joined_lines(one) =~= l + seq!['\n']);
}

proof fn lemma_joined_push(ls: Seq<Seq<char>>, l: Seq<char>)
    ensures
        joined_lines(ls.push(l)) == joined_lines(ls) + l + seq!['\n'],
{
    assert(ls.push(l).drop_last() =~= ls);
}

proof fn lemma_array_text(key: Seq<char>, a: Seq<Seq<char>>)
    ensures
        array_text(key, a) == joined_lines(array_lines(key, a)),
    decreases a.len(),
{
    if a.len() > 0 {
        lemma_array_text(key, a.drop_last());
        lemma_joined_push(array_lines(key, a.drop_last()), entry_line(key, a.last()));
        assert(line_of(key, a.last()) =~= entry_line(key, a.last()) + seq!['\n']);
        assert(array_text(key, a) =~= joined_lines(array_lines(key, a)));
    }
}

proof fn lemma_value_text(key: Seq<char>, v: ValueView)
    ensures
        value_text(key, v) == joined_lines(value_lines(key, v)),
{
    match v {
        ValueView::Str(x) => {
            lemma_joined_one(entry_line(key, x));
            assert(line_of(key, x) =~= entry_line(key, x) + seq!['\n']);
        },
        ValueView::Arr(a) => {
            lemma_array_text(key, a);
        },
    }
}

proof fn lemma_entries_text(e: EntriesView)
    ensures
        entries_text(e) == joined_lines(entries_lines(e)),
    decreases e.len(),
{
    if e.len() > 0 {
        lemma_entries_text(e.drop_last());
        lemma_value_text(e.last().0, e.last().1);
        lemma_joined_concat(entries_lines(e.drop_last()), value_lines(e.last().0, e.last().1));
    }
}

proof fn lemma_ini_text(s: SectionsView)
    ensures
        ini_text(s) == joined_lines(ini_lines(s)),
    decreases s.len(),
{
    if s.len() > 0 {
        let head = ini_lines(s.drop_last()).push(header_line(s.last().0));
        lemma_ini_text(s.drop_last());
        lemma_entries_text(s.last().1);
        lemma_joined_push(ini_lines(s.drop_last()), header_line(s.last().0));
        lemma_joined_concat(head, entries_lines(s.last().1));
        assert(header_of(s.last().0) =~= header_line(s.last().0) + seq!['\n']);
        assert(ini_text(s) =~= joined_lines(ini_lines(s)));
    }
}


// ───────────────────────── every printed line is clean ─────────────────────────

pub open spec fn all_clean(ls: Seq<Seq<char>>) -> bool {
    forall|i: int| 0 <= i < ls.len() ==> clean_line(#[trigger] ls[i])
}

proof fn lemma_clean_concat(a: Seq<Seq<char>>, b: Seq<Seq<char>>)
    requires
        all_clean(a),
        all_clean(b),
    ensures
        all_clean(a + b),
{
    assert forall|i: int| 0 <= i < (a + b).len() implies clean_line(#[trigger] (a + b)[i]) by {
        if i < a.len() {
            assert((a + b)[i] == a[i]);
        } else {
            assert((a + b)[i] == b[i - a.len()]);
        }
    }
}

proof fn lemma_clean_push(a: Seq<Seq<char>>, l: Seq<char>)
    requires
        all_clean(a),
        clean_line(l),
    ensures
        all_clean(a.push(l)),
{
    assert forall|i: int| 0 <= i < a.push(l).len() implies clean_line(#[trigger] a.push(l)[i]) by {
        if i < a.len() {
            assert(a.push(l)[i] == a[i]);
        }
    }
}

proof fn lemma_no_char(x: Seq<char>, c: char, j: int)
    requires
        !x.contains(c),
        0 <= j < x.len(),
    ensures
        x[j] != c,
{
    if x[j] == c {
        assert(x.contains(c));
    }
}

proof fn lemma_clean_header(n: Seq<char>)
    requires
        !n.contains('\n'),
    ensures
        clean_line(header_line(n)),
{
    let l = header_line(n);
    assert forall|j: int| 0 <= j < l.len() implies #[trigger] l[j] != '\n' by {
        if 1 <= j < l.len() - 1 {
            assert(l[j] == n[j - 1]);
            lemma_no_char(n, '\n', j - 1);
        }
    }
}

proof fn lemma_clean_entry(k: Seq<char>, x: Seq<char>)
    requires
        printable_pair(k, x),
    ensures
        clean_line(entry_line(k, x)),
{
    let l = entry_line(k, x);
    assert forall|j: int| 0 <= j < l.len() implies #[trigger] l[j] != '\n' by {
        if j < k.len() {
            assert(l[j] == k[j]);
            lemma_no_char(k, '\n', j);
        } else if j > k.len() {
            assert(l[j] == x[j - k.len() - 1]);
            lemma_no_char(x, '\n', j - k.len() - 1);
        }
    }
    if x.len() > 0 {
        assert(l.last() == x.last());
    }
}

proof fn lemma_clean_array(k: Seq<char>, a: Seq<Seq<char>>)
    requires
        forall|i: int| 0 <= i < a.len() ==> printable_pair(k, #[trigger] a[i]),
    ensures
        all_clean(array_lines(k, a)),
    decreases a.len(),
{
    if a.len() > 0 {
        assert forall|i: int| 0 <= i < a.drop_last().len() implies printable_pair(
            k,
            #[trigger] a.drop_last()[i],
        ) by {
            assert(a.drop_last()[i] == a[i]);
        }
        lemma_clean_array(k, a.drop_last());
        assert(printable_pair(k, a[a.len() - 1]));
        lemma_clean_entry(k, a.last());
        lemma_clean_push(array_lines(k, a.drop_last()), entry_line(k, a.last()));
    }
}

proof fn lemma_clean_value(k: Seq<char>, v: ValueView)
    requires
        printable_value(k, v),
    ensures
        all_clean(value_lines(k, v)),
{
    match v {
        ValueView::Str(x) => {
            lemma_clean_entry(k, x);
            lemma_clean_push(Seq::empty(), entry_line(k, x));
            assert(Seq::<Seq<char>>::empty().push(entry_line(k, x)) =~= seq![entry_line(k, x)]);
        },
        ValueView::Arr(a) => {
            lemma_clean_array(k, a);
        },
    }
}

proof fn lemma_clean_entries(e: EntriesView)
    requires
        forall|j: int| 0 <= j < e.len() ==> printable_value((#[trigger] e[j]).0, e[j].1),
    ensures
        all_clean(entries_lines(e)),
    decreases e.len(),
{
    if e.len() > 0 {
        let d = e.drop_last();
        assert forall|j: int| 0 <= j < d.len() implies printable_value((#[trigger] d[j]).0, d[j].1) by {
            assert(d[j] == e[j]);
        }
        lemma_clean_entries(d);
        assert(printable_value(e[e.len() - 1].0, e[e.len() - 1].1));
        lemma_clean_value(e.last().0, e.last().1);
        lemma_clean_concat(entries_lines(d), value_lines(e.last().0, e.last().1));
    }
}

proof fn lemma_printable_prefix(s: SectionsView)
    requires
        printable(s),
        s.len() > 0,
    ensures
        printable(s.drop_last()),
{
    let d = s.drop_last();
    assert(section_names(d) =~= section_names(s).drop_last());
    assert forall|i: int, j: int| 0 <= i < j < section_names(d).len() implies name_lt(
        #[trigger] section_names(d)[i],
        #[trigger] section_names(d)[j],
    ) by {
        assert(section_names(d)[i] == section_names(s)[i]);
        assert(section_names(d)[j] == section_names(s)[j]);
    }
    assert forall|i: int| 0 <= i < d.len() implies sorted_names(entry_keys(#[trigger] d[i].1)) by {
        assert(d[i] == s[i]);
    }
    assert forall|i: int| 0 <= i < d.len() implies !(#[trigger] d[i]).0.contains('\n') by {
        assert(d[i] == s[i]);
    }
    assert forall|i: int, j: int| 0 <= i < d.len() && 0 <= j < d[i].1.len() implies printable_value(
        (#[trigger] d[i].1[j]).0,
        d[i].1[j].1,
    ) by {
        assert(d[i] == s[i]);
        assert(printable_value(s[i].1[j].0, s[i].1[j].1));
    }
}

proof fn lemma_clean_ini(s: SectionsView)
    requires
        printable(s),
    ensures
        all_clean(ini_lines(s)),
    decreases s.len(),
{
    if s.len() > 0 {
        let last = s.len() - 1;
        lemma_printable_prefix(s);
        lemma_clean_ini(s.drop_last());
        assert(!s[last].0.contains('\n'));
        lemma_clean_header(s.last().0);
        lemma_clean_push(ini_lines(s.drop_last()), header_line(s.last().0));
        assert forall|j: int| 0 <= j < s[last].1.len() implies printable_value(
            (#[trigger] s[last].1[j]).0,
            s[last].1[j].1,
        ) by {
            assert(printable_value(s[last].1[j].0, s[last].1[j].1));
        }
        lemma_clean_entries(s.last().1);
        lemma_clean_concat(
            ini_lines(s.drop_last()).push(header_line(s.last().0)),
            entries_lines(s.last().1),
        );
    }
}

// ───────────────────────── reading the printed lines ─────────────────────────

proof fn lemma_steps_push(st: (SectionsView, Seq<char>), ls: Seq<Seq<char>>, l: Seq<char>)
    ensures
        steps(st, ls.push(l)) == step(steps(st, ls), l),
        steps_ok(st, ls.push(l)) == (steps_ok(st, ls) && step_ok(steps(st, ls), l)),
{
    assert(ls.push(l).drop_last() =~= ls);
}

proof fn lemma_steps_concat(st: (SectionsView, Seq<char>), a: Seq<Seq<char>>, b: Seq<Seq<char>>)
    ensures
        steps(st, a + b) == steps(steps(st, a), b),
        steps_ok(st, a + b) == (steps_ok(st, a) && steps_ok(steps(st, a), b)),
    decreases b.len(),
{
    if b.len() == 0 {
        assert(a + b =~= a);
    } else {
        assert((a + b).drop_last() =~= a + b.drop_last());
        assert((a + b).last() == b.last());
        lemma_steps_concat(st, a, b.drop_last());
    }
}

/// A `[name]` line starts the section `name`.
proof fn lemma_header_step(st: (SectionsView, Seq<char>), n: Seq<char>)
    ensures
        step(st, header_line(n)) == (with_section(st.0, n), n),
        step_ok(st, header_line(n)),
{
    let l = header_line(n);
    assert(l[0] == '[');
    assert(l.last() == ']');
    lemma_trim_trimmed(l);
    assert(l.take(1) =~= seq!['[']);
    assert(l.skip(l.len() - 1) =~= seq![']']);
    assert(is_header(l));
    assert(l.subrange(1, l.len() - 1) =~= n);
}

/// A `key=x` line adds `x` to `key` in the current section.
proof fn lemma_entry_step(st: (SectionsView, Seq<char>), k: Seq<char>, x: Seq<char>)
    requires
        printable_pair(k, x),
    ensures
        step(st, entry_line(k, x)) == (with_value(st.0, st.1, k, x), st.1),
        step_ok(st, entry_line(k, x)) == has_section(st.0, st.1),
{
    let l = entry_line(k, x);
    if k.len() > 0 {
        assert(l[0] == k[0]);
    } else {
        assert(l[0] == '=');
    }
    if x.len() > 0 {
        assert(l.last() == x.last());
    } else {
        assert(l.last() == '=');
    }
    lemma_trim_trimmed(l);
    assert forall|j: int| 0 <= j < k.len() implies l[j] != '=' by {
        assert(l[j] == k[j]);
        lemma_no_char(k, '=', j);
    }
    assert(l[k.len() as int] == '=');
    lemma_find_char_exact(l, '=', k.len() as int);
    assert(l.take(k.len() as int) =~= k);
    assert(l.skip(k.len() as int + 1) =~= x);
    assert(split_once(l, '=') == Some((k, x)));
    lemma_trim_trimmed(k);
    lemma_trim_trimmed(x);
}

/// With every name before `n`, the section `n` added last stands last.
proof fn lemma_last_section(t: SectionsView, n: Seq<char>, w: EntriesView)
    requires
        forall|j: int| 0 <= j < t.len() ==> name_lt((#[trigger] t[j]).0, n),
    ensures
        ins_pos(section_names(t.push((n, w))), n) == t.len(),
        has_section(t.push((n, w)), n),
{
    let names = section_names(t.push((n, w)));
    assert forall|j: int| 0 <= j < t.len() implies name_lt(#[trigger] names[j], n) by {
        assert(names[j] == t[j].0);
    }
    assert(names[t.len() as int] == n);
    lemma_name_lt_irreflexive(n);
    lemma_ins_pos_exact(names, n, t.len() as int);
}

/// A key after every key of `e` is added at the end.
proof fn lemma_entry_new(e: EntriesView, k: Seq<char>, x: Seq<char>)
    requires
        forall|j: int| 0 <= j < e.len() ==> name_lt((#[trigger] e[j]).0, k),
    ensures
        with_entry(e, k, x) == e.push((k, ValueView::Str(x))),
{
    let keys = entry_keys(e);
    assert forall|j: int| 0 <= j < e.len() implies name_lt(#[trigger] keys[j], k) by {
        assert(keys[j] == e[j].0);
    }
    lemma_ins_pos_exact(keys, k, e.len() as int);
    assert(e.insert(e.len() as int, (k, ValueView::Str(x))) =~= e.push((k, ValueView::Str(x))));
}

/// The last key, given again, gets the new string appended.
proof fn lemma_entry_again(e: EntriesView, k: Seq<char>, v: ValueView, x: Seq<char>)
    requires
        forall|j: int| 0 <= j < e.len() ==> name_lt((#[trigger] e[j]).0, k),
    ensures
        with_entry(e.push((k, v)), k, x) == e.push((k, v.append(x))),
{
    let f = e.push((k, v));
    let keys = entry_keys(f);
    assert forall|j: int| 0 <= j < e.len() implies name_lt(#[trigger] keys[j], k) by {
        assert(keys[j] == e[j].0);
    }
    assert(keys[e.len() as int] == k);
    lemma_name_lt_irreflexive(k);
    lemma_ins_pos_exact(keys, k, e.len() as int);
    assert(f.update(e.len() as int, (k, v.append(x))) =~= e.push((k, v.append(x))));
}

/// What strings written one per line under one key read back as: a single
/// string alone, an array otherwise.
spec fn read_back(a: Seq<Seq<char>>) -> ValueView {
    if a.len() == 1 {
        ValueView::Str(a[0])
    } else {
        ValueView::Arr(a)
    }
}

proof fn lemma_array_steps(
    t: SectionsView,
    n: Seq<char>,
    e: EntriesView,
    k: Seq<char>,
    a: Seq<Seq<char>>,
    j: int,
)
    requires
        1 <= j <= a.len(),
        forall|i: int| 0 <= i < t.len() ==> name_lt((#[trigger] t[i]).0, n),
        forall|i: int| 0 <= i < e.len() ==> name_lt((#[trigger] e[i]).0, k),
        forall|i: int| 0 <= i < a.len() ==> printable_pair(k, #[trigger] a[i]),
    ensures
        steps((t.push((n, e)), n), array_lines(k, a.take(j))) == (
        t.push((n, e.push((k, read_back(a.take(j)))))),
        n,
        ),
        steps_ok((t.push((n, e)), n), array_lines(k, a.take(j))),
    decreases j,
{
    let st = (t.push((n, e)), n);
    let b = a.take(j);
    assert(b.drop_last() =~= a.take(j - 1));
    assert(b.last() == a[j - 1]);
    assert(printable_pair(k, a[j - 1]));
    let l = entry_line(k, a[j - 1]);
    if j == 1 {
        assert(array_lines(k, b.drop_last()) =~= Seq::<Seq<char>>::empty());
        lemma_steps_push(st, Seq::empty(), l);
        lemma_entry_step(st, k, a[0]);
        lemma_last_section(t, n, e);
        lemma_entry_new(e, k, a[0]);
        let w = e.push((k, ValueView::Str(a[0])));
        assert(st.0.update(t.len() as int, (n, w)) =~= t.push((n, w)));
    } else {
        lemma_array_steps(t, n, e, k, a, j - 1);
        let v = read_back(a.take(j - 1));
        let st1 = (t.push((n, e.push((k, v)))), n);
        lemma_steps_push(st, array_lines(k, a.take(j - 1)), l);
        lemma_entry_step(st1, k, a[j - 1]);
        lemma_last_section(t, n, e.push((k, v)));
        lemma_entry_again(e, k, v, a[j - 1]);
        if j == 2 {
            assert(seq![a[0], a[1]] =~= b);
        } else {
            assert(a.take(j - 1).push(a[j - 1]) =~= b);
        }
        assert(v.append(a[j - 1]) == read_back(b));
        let w = e.push((k, read_back(b)));
        assert(st1.0.update(t.len() as int, (n, w)) =~= t.push((n, w)));
    }
}

proof fn lemma_value_steps(t: SectionsView, n: Seq<char>, e: EntriesView, k: Seq<char>, v: ValueView)
    requires
        forall|i: int| 0 <= i < t.len() ==> name_lt((#[trigger] t[i]).0, n),
        forall|i: int| 0 <= i < e.len() ==> name_lt((#[trigger] e[i]).0, k),
        printable_value(k, v),
    ensures
        steps((t.push((n, e)), n), value_lines(k, v)) == (t.push((n, e.push((k, v)))), n),
        steps_ok((t.push((n, e)), n), value_lines(k, v)),
{
    let st = (t.push((n, e)), n);
    match v {
        ValueView::Str(x) => {
            assert(seq![entry_line(k, x)] =~= Seq::<Seq<char>>::empty().push(entry_line(k, x)));
            lemma_steps_push(st, Seq::empty(), entry_line(k, x));
            lemma_entry_step(st, k, x);
            lemma_last_section(t, n, e);
            lemma_entry_new(e, k, x);
            let w = e.push((k, v));
            assert(st.0.update(t.len() as int, (n, w)) =~= t.push((n, w)));
        },
        ValueView::Arr(a) => {
            lemma_array_steps(t, n, e, k, a, a.len() as int);
            assert(a.take(a.len() as int) =~= a);
        },
    }
}

proof fn lemma_entries_steps(t: SectionsView, n: Seq<char>, e: EntriesView)
    requires
        forall|i: int| 0 <= i < t.len() ==> name_lt((#[trigger] t[i]).0, n),
        sorted_names(entry_keys(e)),
        forall|j: int| 0 <= j < e.len() ==> printable_value((#[trigger] e[j]).0, e[j].1),
    ensures
        steps((t.push((n, EntriesView::empty())), n), entries_lines(e)) == (t.push((n, e)), n),
        steps_ok((t.push((n, EntriesView::empty())), n), entries_lines(e)),
    decreases e.len(),
{
    let st = (t.push((n, EntriesView::empty())), n);
    if e.len() == 0 {
        assert(e =~= EntriesView::empty());
    } else {
        let d = e.drop_last();
        let keys = entry_keys(e);
        assert forall|i: int, j: int| 0 <= i < j < entry_keys(d).len() implies name_lt(
            #[trigger] entry_keys(d)[i],
            #[trigger] entry_keys(d)[j],
        ) by {
            assert(entry_keys(d)[i] == keys[i]);
            assert(entry_keys(d)[j] == keys[j]);
        }
        assert forall|j: int| 0 <= j < d.len() implies printable_value((#[trigger] d[j]).0, d[j].1) by {
            assert(d[j] == e[j]);
        }
        lemma_entries_steps(t, n, d);
        let last = e.len() - 1;
        assert forall|i: int| 0 <= i < d.len() implies name_lt((#[trigger] d[i]).0, e.last().0) by {
            assert(keys[i] == d[i].0);
            assert(keys[last] == e.last().0);
        }
        assert(printable_value(e[last].0, e[last].1));
        lemma_steps_concat(st, entries_lines(d), value_lines(e.last().0, e.last().1));
        lemma_value_steps(t, n, d, e.last().0, e.last().1);
        assert(d.push((e.last().0, e.last().1)) =~= e);
    }
}

proof fn lemma_ini_steps(s: SectionsView)
    requires
        printable(s),
    ensures
        steps((SectionsView::empty(), Seq::empty()), ini_lines(s)).0 == s,
        steps_ok((SectionsView::empty(), Seq::empty()), ini_lines(s)),
    decreases s.len(),
{
    let init = (SectionsView::empty(), Seq::<char>::empty());
    if s.len() == 0 {
        assert(s =~= SectionsView::empty());
    } else {
        let d = s.drop_last();
        let last = s.len() - 1;
        let n = s.last().0;
        let e = s.last().1;
        lemma_printable_prefix(s);
        lemma_ini_steps(d);
        let h = header_line(n);
        lemma_steps_push(init, ini_lines(d), h);
        lemma_steps_concat(init, ini_lines(d).push(h), entries_lines(e));
        let mid = steps(init, ini_lines(d));
        lemma_header_step(mid, n);
        let names = section_names(s);
        assert forall|i: int| 0 <= i < d.len() implies name_lt((#[trigger] d[i]).0, n) by {
            assert(names[i] == d[i].0);
            assert(names[last] == n);
        }
        let dn = section_names(d);
        assert forall|i: int| 0 <= i < d.len() implies name_lt(#[trigger] dn[i], n) by {
            assert(dn[i] == d[i].0);
        }
        lemma_ins_pos_exact(dn, n, d.len() as int);
        assert(with_section(d, n) =~= d.push((n, EntriesView::empty())));
        assert(sorted_names(entry_keys(s[last].1)));
        assert forall|j: int| 0 <= j < e.len() implies printable_value((#[trigger] e[j]).0, e[j].1) by {
            assert(printable_value(s[last].1[j].0, s[last].1[j].1));
        }
        lemma_entries_steps(d, n, e);
        assert(d.push((n, e)) =~= s);
    }
}

/// Reading back a printed file: for a file whose names and values can be
/// written on one line (see [`printable`]), the text of
/// [`crate::systemd_ini::SystemdIni::to_text`] can be read, and reads back as
/// the same sections, keys and values.
pub proof fn lemma_parse_printed(s: SectionsView)
    requires
        printable(s),
    ensures
        parse_ok(SectionsView::empty(), ini_text(s)),
        parse_spec(SectionsView::empty(), ini_text(s)) == s,
{
    lemma_ini_text(s);
    lemma_clean_ini(s);
    lemma_lines_joined(ini_lines(s));
    lemma_ini_steps(s);
}

// ───────────────────────── what is read is printable ─────────────────────────

proof fn lemma_printable_value_append(k: Seq<char>, v: ValueView, x: Seq<char>)
    requires
        printable_value(k, v),
        printable_pair(k, x),
    ensures
        printable_value(k, v.append(x)),
{
    match v {
        ValueView::Str(y) => {
            let a = seq![y, x];
            assert forall|i: int| 0 <= i < a.len() implies printable_pair(k, #[trigger] a[i]) by {
                if i == 0 {
                    assert(a[i] == y);
                } else {
                    assert(a[i] == x);
                }
            }
        },
        ValueView::Arr(a) => {
            let b = a.push(x);
            assert forall|i: int| 0 <= i < b.len() implies printable_pair(k, #[trigger] b[i]) by {
                if i < a.len() {
                    assert(b[i] == a[i]);
                }
            }
        },
    }
}

proof fn lemma_with_entry_printable(e: EntriesView, k: Seq<char>, x: Seq<char>)
    requires
        forall|j: int| 0 <= j < e.len() ==> printable_value((#[trigger] e[j]).0, e[j].1),
        printable_pair(k, x),
    ensures
        forall|j: int|
            0 <= j < with_entry(e, k, x).len() ==> printable_value(
                (#[trigger] with_entry(e, k, x)[j]).0,
                with_entry(e, k, x)[j].1,
            ),
{
    let keys = entry_keys(e);
    let q = ins_pos(keys, k) as int;
    lemma_ins_pos(keys, k);
    let r = with_entry(e, k, x);
    if q < e.len() && e[q].0 == k {
        assert(printable_value(e[q].0, e[q].1));
        lemma_printable_value_append(k, e[q].1, x);
        assert forall|j: int| 0 <= j < r.len() implies printable_value((#[trigger] r[j]).0, r[j].1) by {
            if j != q {
                assert(r[j] == e[j]);
            }
        }
    } else {
        assert forall|j: int| 0 <= j < r.len() implies printable_value((#[trigger] r[j]).0, r[j].1) by {
            if j < q {
                assert(r[j] == e[j]);
            } else if j > q {
                assert(r[j] == e[j - 1]);
            }
        }
    }
}

proof fn lemma_with_value_printable(s: SectionsView, name: Seq<char>, k: Seq<char>, x: Seq<char>)
    requires
        printable(s),
        has_section(s, name),
        printable_pair(k, x),
    ensures
        printable(with_value(s, name, k, x)),
{
    lemma_with_value_well_ordered(s, name, k, x);
    let p = ins_pos(section_names(s), name) as int;
    let e = s[p].1;
    let r = with_value(s, name, k, x);
    assert forall|j: int| 0 <= j < e.len() implies printable_value((#[trigger] e[j]).0, e[j].1) by {
        assert(printable_value(s[p].1[j].0, s[p].1[j].1));
    }
    lemma_with_entry_printable(e, k, x);
    assert(section_names(s)[p] == s[p].0);
    assert forall|i: int| 0 <= i < r.len() implies !(#[trigger] r[i]).0.contains('\n') by {
        if i != p {
            assert(r[i] == s[i]);
        } else {
            assert(r[i].0 == s[p].0);
        }
    }
    assert forall|i: int, j: int| 0 <= i < r.len() && 0 <= j < r[i].1.len() implies printable_value(
        (#[trigger] r[i].1[j]).0,
        r[i].1[j].1,
    ) by {
        if i != p {
            assert(r[i] == s[i]);
            assert(printable_value(s[i].1[j].0, s[i].1[j].1));
        } else {
            assert(r[i].1 == with_entry(e, k, x));
        }
    }
}

proof fn lemma_with_section_printable(s: SectionsView, name: Seq<char>)
    requires
        printable(s),
        !name.contains('\n'),
    ensures
        printable(with_section(s, name)),
{
    lemma_with_section_well_ordered(s, name);
    if !has_section(s, name) {
        let p = ins_pos(section_names(s), name) as int;
        lemma_ins_pos(section_names(s), name);
        let r = with_section(s, name);
        assert forall|i: int| 0 <= i < r.len() implies !(#[trigger] r[i]).0.contains('\n') by {
            if i < p {
                assert(r[i] == s[i]);
            } else if i > p {
                assert(r[i] == s[i - 1]);
            }
        }
        assert forall|i: int, j: int| 0 <= i < r.len() && 0 <= j < r[i].1.len() implies printable_value(
            (#[trigger] r[i].1[j]).0,
            r[i].1[j].1,
        ) by {
            if i < p {
                assert(r[i] == s[i]);
                assert(printable_value(s[i].1[j].0, s[i].1[j].1));
            } else if i > p {
                assert(r[i] == s[i - 1]);
                assert(printable_value(s[i - 1].1[j].0, s[i - 1].1[j].1));
            }
        }
    }
}

/// A run of characters of a string without `c` holds no `c`.
proof fn lemma_no_char_in_run(x: Seq<char>, y: Seq<char>, off: int, c: char)
    requires
        !x.contains(c),
        0 <= off,
        off + y.len() <= x.len(),
        forall|j: int| 0 <= j < y.len() ==> #[trigger] y[j] == x[j + off],
    ensures
        !y.contains(c),
{
    if y.contains(c) {
        let j = choose|j: int| 0 <= j < y.len() && y[j] == c;
        assert(x[j + off] == c);
        assert(x.contains(c));
    }
}

proof fn lemma_no_char_of_trim(x: Seq<char>, c: char)
    requires
        !x.contains(c),
    ensures
        !trim(x).contains(c),
{
    lemma_trim_facts(x);
    lemma_no_char_in_run(x, trim(x), crate::text::lead_ws(x) as int, c);
}

/// The key and value of a `key=value` line that is not a header can be
/// written back on one line.
proof fn lemma_read_pair_printable(line: Seq<char>)
    requires
        trimmed(line),
        !line.contains('\n'),
        !is_header(line),
        split_once(line, '=') is Some,
    ensures
        printable_pair(trim(split_once(line, '=').unwrap().0), trim(split_once(line, '=').unwrap().1)),
{
    let i = find_char(line, '=');
    lemma_find_char(line, '=');
    let k0 = line.take(i);
    let v0 = line.skip(i + 1);
    let k = trim(k0);
    let v = trim(v0);
    lemma_trim_facts(k0);
    lemma_trim_facts(v0);
    lemma_no_char_in_run(line, k0, 0, '\n');
    lemma_no_char_in_run(line, v0, i + 1, '\n');
    assert(!k0.contains('=')) by {
        if k0.contains('=') {
            let j = choose|j: int| 0 <= j < k0.len() && k0[j] == '=';
            assert(line[j] == '=');
        }
    }
    lemma_no_char_of_trim(k0, '=');
    lemma_no_char_of_trim(k0, '\n');
    lemma_no_char_of_trim(v0, '\n');
    let l = entry_line(k, v);
    if is_header(l) {
        assert(l.take(1)[0] == l[0]);
        assert(l.skip(l.len() - 1)[0] == l.last());
        assert(l[0] == '[');
        assert(l.last() == ']');
        if k.len() == 0 {
            assert(l[0] == '=');
        }
        if v.len() == 0 {
            assert(l.last() == '=');
        }
        assert(k[0] == '[');
        assert(v.last() == ']');
        assert(k0[0] == line[0]);
        assert(v0.last() == line.last());
        assert(line[0] == '[');
        assert(line.last() == ']');
        assert(line.take(1) =~= seq!['[']);
        assert(line.skip(line.len() - 1) =~= seq![']']);
        assert(is_header(line));
    }
}

proof fn lemma_step_printable(st: (SectionsView, Seq<char>), raw: Seq<char>)
    requires
        printable(st.0),
        !raw.contains('\n'),
        step_ok(st, raw),
    ensures
        printable(step(st, raw).0),
{
    let line = trim(raw);
    lemma_trim_facts(raw);
    lemma_no_char_of_trim(raw, '\n');
    if line.len() == 0 {
    } else if is_header(line) {
        let name = line.subrange(1, line.len() - 1);
        assert(line.take(1)[0] == line[0]);
        assert(line.skip(line.len() - 1)[0] == line[line.len() - 1]);
        assert(line.len() >= 2);
        assert forall|j: int| 0 <= j < name.len() implies #[trigger] name[j] == line[j + 1] by {}
        lemma_no_char_in_run(line, name, 1, '\n');
        lemma_with_section_printable(st.0, name);
    } else {
        lemma_read_pair_printable(line);
        let (k0, v0) = split_once(line, '=').unwrap();
        lemma_with_value_printable(st.0, st.1, trim(k0), trim(v0));
    }
}

proof fn lemma_steps_printable(st: (SectionsView, Seq<char>), ls: Seq<Seq<char>>)
    requires
        printable(st.0),
        forall|i: int| 0 <= i < ls.len() ==> !(#[trigger] ls[i]).contains('\n'),
        steps_ok(st, ls),
    ensures
        printable(steps(st, ls).0),
    decreases ls.len(),
{
    if ls.len() > 0 {
        let d = ls.drop_last();
        assert forall|i: int| 0 <= i < d.len() implies !(#[trigger] d[i]).contains('\n') by {
            assert(d[i] == ls[i]);
        }
        lemma_steps_printable(st, d);
        assert(!ls[ls.len() - 1].contains('\n'));
        lemma_step_printable(steps(st, d), ls.last());
    }
}

/// Every file read from text can be written back on single lines: what
/// `parse` makes of any text it accepts, into an empty file, is
/// [`printable`].
pub proof fn lemma_parsed_printable(data: Seq<char>)
    requires
        parse_ok(SectionsView::empty(), data),
    ensures
        printable(parse_spec(SectionsView::empty(), data)),
{
    let ls = lines(data);
    lemma_lines_no_newline(data);
    assert forall|i: int| 0 <= i < ls.len() implies !(#[trigger] ls[i]).contains('\n') by {
        if ls[i].contains('\n') {
            let j = choose|j: int| 0 <= j < ls[i].len() && ls[i][j] == '\n';
            assert(ls[i][j] != '\n');
        }
    }
    lemma_steps_printable((SectionsView::empty(), Seq::empty()), ls);
}

/// Reading back a printed file, for every file read from text: the text of
/// [`crate::systemd_ini::SystemdIni::to_text`] of what `data` parses to can
/// be read, and reads back as the same sections, keys and values.
pub proof fn lemma_parse_print_parse(data: Seq<char>)
    requires
        parse_ok(SectionsView::empty(), data),
    ensures
        parse_ok(SectionsView::empty(), ini_text(parse_spec(SectionsView::empty(), data))),
        parse_spec(SectionsView::empty(), ini_text(parse_spec(SectionsView::empty(), data)))
            == parse_spec(SectionsView::empty(), data),
{
    lemma_parsed_printable(data);
    lemma_parse_printed(parse_spec(SectionsView::empty(), data));
}

} // verus!
