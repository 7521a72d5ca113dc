//! Character-level string utilities with exact specifications.
//!
//! Strings are modelled as `Seq<char>`; the executable functions work on
//! `Vec<char>` and on `&str`/`String` through their views.
use vstd::prelude::*;
use vstd::std_specs::iter::IteratorSpec;

verus! {

/// `String::push` appends one character.
pub assume_specification[ std::string::String::push ](s: &mut std::string::String, ch: char)
    ensures
        final(s)@ == old(s)@.push(ch),
;

// ───────────────────────── conversions ─────────────────────────

/// The views of a sequence of strings.
pub open spec fn strs(v: Seq<String>) -> Seq<Seq<char>> {
    v.map_values(|s: String| s@)
}

/// The views of an optional string.
pub open spec fn ostr(o: Option<String>) -> Option<Seq<char>> {
    match o {
        Some(s) => Some(s@),
        None => None,
    }
}

/// The views of an optional vector of strings.
pub open spec fn ostrs(o: Option<Vec<String>>) -> Option<Seq<Seq<char>>> {
    match o {
        Some(v) => Some(strs(v@)),
        None => None,
    }
}

/// Copies a vector of strings.
pub fn clone_strings(v: &Vec<String>) -> (r: Vec<String>)
    ensures
        strs(r@) == strs(v@),
{
    let mut r: Vec<String> = Vec::new();
    let mut i: usize = 0;
    while i < v.len()
        invariant
            i <= v@.len(),
            strs(r@) == strs(v@.take(i as int)),
        decreases v@.len() - i,
    {
        let ghost r0 = r@;
        let c = v[i].clone();
        r.push(c);
        proof {
            assert(v@.take(i + 1) =~= v@.take(i as int).push(v@[i as int]));
            assert(strs(r@) =~= strs(r0).push(c@));
            assert(strs(v@.take(i + 1)) =~= strs(v@.take(i as int)).push(v@[i as int]@));
        }
        i = i + 1;
    }
    proof {
        assert(v@.take(v@.len() as int) =~= v@);
    }
    r
}

/// Copies an optional string.
pub fn clone_opt_string(o: &Option<String>) -> (r: Option<String>)
    ensures
        ostr(r) == ostr(*o),
        r == *o,
{
    match o {
        Some(s) => Some(s.clone()),
        None => None,
    }
}

/// Copies an optional vector of strings.
pub fn clone_opt_strings(o: &Option<Vec<String>>) -> (r: Option<Vec<String>>)
    ensures
        ostrs(r) == ostrs(*o),
{
    match o {
        Some(v) => Some(clone_strings(v)),
        None => None,
    }
}

/// Copies a vector of copyable values.
pub fn copy_vec<T: Copy>(v: &Vec<T>) -> (r: Vec<T>)
    ensures
        r@ == v@,
{
    let mut r: Vec<T> = Vec::new();
    let mut i: usize = 0;
    while i < v.len()
        invariant
            i <= v@.len(),
            r@ == v@.take(i as int),
        decreases v@.len() - i,
    {
        r.push(v[i]);
        proof {
            assert(v@.take(i + 1) =~= v@.take(i as int).push(v@[i as int]));
        }
        i = i + 1;
    }
    proof {
        assert(v@.take(v@.len() as int) =~= v@);
    }
    r
}

/// An owned copy of a string slice.
pub fn owned(s: &str) -> (r: String)
    ensures
        r@ == s@,
{
    s.to_owned()
}

/// The characters of a string slice, in order.
pub fn chars_of(s: &str) -> (v: Vec<char>)
    ensures
        v@ == s@,
{
    let mut v: Vec<char> = Vec::new();
    proof {
        broadcast use vstd::string::group_string_axioms;
    }
    for c in it: s.chars()
        invariant
            v@ == it.seq().take(it.index() as int),
            it.seq() == s@,
    {
        v.push(c);
    }
    v
}

/// Builds a `String` from a sequence of characters.
pub fn string_of(v: &[char]) -> (s: String)
    ensures
        s@ == v@,
{
    let mut s = String::new();
    let mut i: usize = 0;
    while i < v.len()
        invariant
            i <= v@.len(),
            s@ == v@.subrange(0, i as int),
        decreases v@.len() - i,
    {
        s.push(v[i]);
        proof {
            assert(v@.subrange(0, i + 1) == v@.subrange(0, i as int).push(v@[i as int]));
        }
        i = i + 1;
    }
    proof {
        assert(v@.subrange(0, v@.len() as int) == v@);
    }
    s
}

/// Appends the characters of `t` to `s`.
pub fn push_chars(s: &mut String, t: &[char])
    ensures
        final(s)@ == old(s)@ + t@,
{
    let mut i: usize = 0;
    while i < t.len()
        invariant
            i <= t@.len(),
            s@ == old(s)@ + t@.subrange(0, i as int),
        decreases t@.len() - i,
    {
        s.push(t[i]);
        proof {
            assert(t@.subrange(0, i + 1) == t@.subrange(0, i as int).push(t@[i as int]));
            assert(old(s)@ + t@.subrange(0, i + 1) == (old(s)@ + t@.subrange(0, i as int)).push(
                t@[i as int],
            ));
        }
        i = i + 1;
    }
    proof {
        assert(t@.subrange(0, t@.len() as int) == t@);
    }
}

/// Appends the characters of `t` to the character vector `s`.
pub fn extend_chars(s: &mut Vec<char>, t: &[char])
    ensures
        final(s)@ == old(s)@ + t@,
{
    let mut i: usize = 0;
    while i < t.len()
        invariant
            i <= t@.len(),
            s@ == old(s)@ + t@.subrange(0, i as int),
        decreases t@.len() - i,
    {
        s.push(t[i]);
        proof {
            assert(t@.subrange(0, i + 1) == t@.subrange(0, i as int).push(t@[i as int]));
            assert(old(s)@ + t@.subrange(0, i + 1) == (old(s)@ + t@.subrange(0, i as int)).push(
                t@[i as int],
            ));
        }
        i = i + 1;
    }
    proof {
        assert(t@.subrange(0, t@.len() as int) == t@);
    }
}

/// A copy of `s[from..to]`.
pub fn slice_chars(s: &[char], from: usize, to: usize) -> (r: Vec<char>)
    requires
        from <= to <= s@.len(),
    ensures
        r@ == s@.subrange(from as int, to as int),
{
    let mut r: Vec<char> = Vec::new();
    let mut i = from;
    while i < to
        invariant
            from <= i <= to <= s@.len(),
            r@ == s@.subrange(from as int, i as int),
        decreases to - i,
    {
        r.push(s[i]);
        proof {
            assert(s@.subrange(from as int, i + 1) == s@.subrange(from as int, i as int).push(
                s@[i as int],
            ));
        }
        i = i + 1;
    }
    r
}

/// Whether two character sequences are equal.
pub fn chars_eq(a: &[char], b: &[char]) -> (r: bool)
    ensures
        r == (a@ == b@),
{
    if a.len() != b.len() {
        return false;
    }
    let mut i: usize = 0;
    while i < a.len()
        invariant
            a@.len() == b@.len(),
            i <= a@.len(),
            forall|j: int| 0 <= j < i ==> a@[j] == b@[j],
        decreases a@.len() - i,
    {
        if a[i] != b[i] {
            return false;
        }
        i = i + 1;
    }
    proof {
        assert(a@ =~= b@);
    }
    true
}

// ───────────────────────── whitespace ─────────────────────────

/// Unicode `White_Space`, the property `char::is_whitespace` tests.
pub open spec fn is_ws(c: char) -> bool {
    let n = c as u32;
    ||| 0x09 <= n <= 0x0d
    ||| n == 0x20
    ||| n == 0x85
    ||| n == 0xa0
    ||| n == 0x1680
    ||| 0x2000 <= n <= 0x200a
    ||| n == 0x2028
    ||| n == 0x2029
    ||| n == 0x202f
    ||| n == 0x205f
    ||| n == 0x3000
}

/// Whether `c` is Unicode whitespace.
pub fn is_whitespace(c: char) -> (b: bool)
    ensures
        b == is_ws(c),
{
    let n = c as u32;
    (0x09 <= n && n <= 0x0d) || n == 0x20 || n == 0x85 || n == 0xa0 || n == 0x1680 || (0x2000
        <= n && n <= 0x200a) || n == 0x2028 || n == 0x2029 || n == 0x202f || n == 0x205f || n
        == 0x3000
}

/// Number of leading whitespace characters.
pub open spec fn lead_ws(s: Seq<char>) -> nat
    decreases s.len(),
{
    if s.len() > 0 && is_ws(s[0]) {
        1 + lead_ws(s.drop_first())
    } else {
        0
    }
}

/// Number of trailing whitespace characters.
pub open spec fn trail_ws(s: Seq<char>) -> nat
    decreases s.len(),
{
    if s.len() > 0 && is_ws(s.last()) {
        1 + trail_ws(s.drop_last())
    } else {
        0
    }
}

/// `str::trim_start`: drops leading whitespace.
pub open spec fn trim_start(s: Seq<char>) -> Seq<char> {
    s.skip(lead_ws(s) as int)
}

/// `str::trim_end`: drops trailing whitespace.
pub open spec fn trim_end(s: Seq<char>) -> Seq<char> {
    s.take(s.len() - trail_ws(s))
}

/// `str::trim`: drops leading and trailing whitespace.
pub open spec fn trim(s: Seq<char>) -> Seq<char> {
    trim_end(trim_start(s))
}

pub proof fn lemma_lead_ws_bound(s: Seq<char>)
    ensures
        lead_ws(s) <= s.len(),
        forall|j: int| 0 <= j < lead_ws(s) ==> is_ws(#[trigger] s[j]),
        lead_ws(s) < s.len() ==> !is_ws(s[lead_ws(s) as int]),
    decreases s.len(),
{
    if s.len() > 0 && is_ws(s[0]) {
        lemma_lead_ws_bound(s.drop_first());
        assert forall|j: int| 0 <= j < lead_ws(s) implies is_ws(#[trigger] s[j]) by {
            if j > 0 {
                assert(s[j] == s.drop_first()[j - 1]);
            }
        }
    }
}

pub proof fn lemma_trail_ws_bound(s: Seq<char>)
    ensures
        trail_ws(s) <= s.len(),
        forall|j: int| s.len() - trail_ws(s) <= j < s.len() ==> is_ws(#[trigger] s[j]),
        trail_ws(s) < s.len() ==> !is_ws(s[s.len() - trail_ws(s) - 1]),
    decreases s.len(),
{
    if s.len() > 0 && is_ws(s.last()) {
        lemma_trail_ws_bound(s.drop_last());
        assert forall|j: int| s.len() - trail_ws(s) <= j < s.len() implies is_ws(#[trigger] s[j]) by {
            if j < s.len() - 1 {
                assert(s[j] == s.drop_last()[j]);
            }
        }
    }
}

/// A leading run of `i` whitespace characters followed by a non-whitespace one
/// (or the end) is exactly the leading whitespace.
pub proof fn lemma_lead_ws_exact(s: Seq<char>, i: int)
    requires
        0 <= i <= s.len(),
        forall|j: int| 0 <= j < i ==> is_ws(#[trigger] s[j]),
        i < s.len() ==> !is_ws(s[i]),
    ensures
        lead_ws(s) == i,
    decreases i,
{
    if i > 0 {
        let t = s.drop_first();
        assert forall|j: int| 0 <= j < i - 1 implies is_ws(#[trigger] t[j]) by {
            assert(t[j] == s[j + 1]);
        }
        if i - 1 < t.len() {
            assert(t[i - 1] == s[i]);
        }
        lemma_lead_ws_exact(t, i - 1);
    }
}

pub proof fn lemma_trail_ws_exact(s: Seq<char>, i: int)
    requires
        0 <= i <= s.len(),
        forall|j: int| s.len() - i <= j < s.len() ==> is_ws(#[trigger] s[j]),
        i < s.len() ==> !is_ws(s[s.len() - i - 1]),
    ensures
        trail_ws(s) == i,
    decreases i,
{
    if i > 0 {
        let t = s.drop_last();
        assert forall|j: int| t.len() - (i - 1) <= j < t.len() implies is_ws(#[trigger] t[j]) by {
            assert(t[j] == s[j]);
        }
        if i - 1 < t.len() {
            assert(t[t.len() - (i - 1) - 1] == s[s.len() - i - 1]);
        }
        lemma_trail_ws_exact(t, i - 1);
    }
}

/// `str::trim_start` on characters.
pub fn trim_start_chars(s: &[char]) -> (r: Vec<char>)
    ensures
        r@ == trim_start(s@),
{
    let mut i: usize = 0;
    while i < s.len() && is_whitespace(s[i])
        invariant
            i <= s@.len(),
            forall|j: int| 0 <= j < i ==> is_ws(#[trigger] s@[j]),
        decreases s@.len() - i,
    {
        i = i + 1;
    }
    proof {
        lemma_lead_ws_exact(s@, i as int);
        assert(s@.skip(i as int) =~= s@.subrange(i as int, s@.len() as int));
    }
    let n = s.len();
    slice_chars(s, i, n)
}

/// `str::trim` on characters.
pub fn trim_chars(s: &[char]) -> (r: Vec<char>)
    ensures
        r@ == trim(s@),
{
    let mut i: usize = 0;
    while i < s.len() && is_whitespace(s[i])
        invariant
            i <= s@.len(),
            forall|j: int| 0 <= j < i ==> is_ws(#[trigger] s@[j]),
        decreases s@.len() - i,
    {
        i = i + 1;
    }
    proof {
        lemma_lead_ws_exact(s@, i as int);
    }
    let ghost t = s@.skip(i as int);
    let mut k: usize = s.len();
    while k > i && is_whitespace(s[k - 1])
        invariant
            i <= k <= s@.len(),
            forall|j: int| k <= j < s@.len() ==> is_ws(#[trigger] s@[j]),
        decreases k,
    {
        k = k - 1;
    }
    proof {
        assert forall|j: int| t.len() - (s@.len() - k) <= j < t.len() implies is_ws(
            #[trigger] t[j],
        ) by {
            assert(t[j] == s@[j + i]);
        }
        if s@.len() - k < t.len() {
            assert(t[t.len() - (s@.len() - k) - 1] == s@[k - 1]);
        }
        lemma_trail_ws_exact(t, s@.len() - k);
        assert(trim(s@) =~= s@.subrange(i as int, k as int));
    }
    slice_chars(s, i, k)
}

// ───────────────────────── prefixes and searching ─────────────────────────

/// `s` starts with `p`.
pub open spec fn has_prefix(s: Seq<char>, p: Seq<char>) -> bool {
    p.len() <= s.len() && s.take(p.len() as int) == p
}

/// `s` ends with `p`.
pub open spec fn has_suffix(s: Seq<char>, p: Seq<char>) -> bool {
    p.len() <= s.len() && s.skip(s.len() - p.len()) == p
}

/// `p` occurs in `s` at position `i`.
pub open spec fn occurs_at(s: Seq<char>, p: Seq<char>, i: int) -> bool {
    0 <= i && i + p.len() <= s.len() && s.subrange(i, i + p.len()) == p
}

/// `str::contains` with a string pattern.
pub open spec fn contains_sub(s: Seq<char>, p: Seq<char>) -> bool {
    exists|i: int| occurs_at(s, p, i)
}

/// `str::starts_with`.
pub fn starts_with(s: &[char], p: &[char]) -> (r: bool)
    ensures
        r == has_prefix(s@, p@),
{
    if p.len() > s.len() {
        return false;
    }
    let mut i: usize = 0;
    while i < p.len()
        invariant
            p@.len() <= s@.len(),
            i <= p@.len(),
            forall|j: int| 0 <= j < i ==> s@[j] == p@[j],
        decreases p@.len() - i,
    {
        if s[i] != p[i] {
            proof {
                assert(s@.take(p@.len() as int)[i as int] != p@[i as int]);
            }
            return false;
        }
        i = i + 1;
    }
    proof {
        assert(s@.take(p@.len() as int) =~= p@);
    }
    true
}

/// `str::ends_with`.
pub fn ends_with(s: &[char], p: &[char]) -> (r: bool)
    ensures
        r == has_suffix(s@, p@),
{
    if p.len() > s.len() {
        return false;
    }
    let n = s.len();
    let off = n - p.len();
    let mut i: usize = 0;
    while i < p.len()
        invariant
            n == s@.len(),
            p@.len() <= s@.len(),
            off == s@.len() - p@.len(),
            i <= p@.len(),
            forall|j: int| 0 <= j < i ==> s@[off + j] == p@[j],
        decreases p@.len() - i,
    {
        if s[off + i] != p[i] {
            proof {
                assert(s@.skip(off as int)[i as int] != p@[i as int]);
            }
            return false;
        }
        i = i + 1;
    }
    proof {
        assert(s@.skip(off as int) =~= p@);
    }
    true
}

/// Whether `p` occurs in `s` at position `i`.
pub fn matches_at(s: &[char], p: &[char], i: usize) -> (r: bool)
    ensures
        r == occurs_at(s@, p@, i as int),
{
    let n = s.len();
    if i > n || p.len() > n - i {
        return false;
    }
    let mut j: usize = 0;
    while j < p.len()
        invariant
            n == s@.len(),
            i + p@.len() <= s@.len(),
            j <= p@.len(),
            forall|k: int| 0 <= k < j ==> s@[i + k] == p@[k],
        decreases p@.len() - j,
    {
        if s[i + j] != p[j] {
            proof {
                assert(s@.subrange(i as int, i + p@.len())[j as int] != p@[j as int]);
            }
            return false;
        }
        j = j + 1;
    }
    proof {
        assert(s@.subrange(i as int, i + p@.len()) =~= p@);
    }
    true
}

/// `str::contains`.
pub fn contains(s: &[char], p: &[char]) -> (r: bool)
    ensures
        r == contains_sub(s@, p@),
{
    let n = s.len();
    let mut i: usize = 0;
    while i < n
        invariant
            n == s@.len(),
            i <= n,
            forall|k: int| 0 <= k < i ==> !occurs_at(s@, p@, k),
        decreases n - i,
    {
        if matches_at(s, p, i) {
            return true;
        }
        i = i + 1;
    }
    if matches_at(s, p, n) {
        return true;
    }
    proof {
        assert forall|k: int| !occurs_at(s@, p@, k) by {
            if 0 <= k && k + p@.len() <= s@.len() {
                assert(k < i || k == i);
            }
        }
    }
    false
}

/// Index of the first `c` in `s`, or `-1`.
pub open spec fn find_char(s: Seq<char>, c: char) -> int
    decreases s.len(),
{
    if s.len() == 0 {
        -1
    } else if s[0] == c {
        0
    } else {
        let r = find_char(s.drop_first(), c);
        if r < 0 {
            -1
        } else {
            r + 1
        }
    }
}

pub proof fn lemma_find_char(s: Seq<char>, c: char)
    ensures
        -1 <= find_char(s, c) < s.len(),
        find_char(s, c) >= 0 ==> s[find_char(s, c)] == c,
        forall|j: int| 0 <= j < s.len() && (find_char(s, c) < 0 || j < find_char(s, c)) ==> s[j]
            != c,
    decreases s.len(),
{
    if s.len() > 0 && s[0] != c {
        lemma_find_char(s.drop_first(), c);
        assert forall|j: int|
            0 <= j < s.len() && (find_char(s, c) < 0 || j < find_char(s, c)) implies s[j] != c by {
            if j > 0 {
                assert(s[j] == s.drop_first()[j - 1]);
            }
        }
    }
}

/// Characterization of the first occurrence.
pub proof fn lemma_find_char_exact(s: Seq<char>, c: char, i: int)
    requires
        0 <= i <= s.len(),
        forall|j: int| 0 <= j < i ==> s[j] != c,
        i < s.len() ==> s[i] == c,
    ensures
        find_char(s, c) == (if i < s.len() { i } else { -1 }),
{
    lemma_find_char(s, c);
    if find_char(s, c) >= 0 {
        assert(s[find_char(s, c)] == c);
    }
}

/// Position of the first `c` in `s`.
pub fn find_char_exec(s: &[char], c: char) -> (r: Option<usize>)
    ensures
        match r {
            Some(i) => find_char(s@, c) == i as int && i < s@.len(),
            None => find_char(s@, c) == -1,
        },
{
    let n = s.len();
    let mut i: usize = 0;
    while i < n
        invariant
            n == s@.len(),
            i <= s@.len(),
            forall|j: int| 0 <= j < i ==> s@[j] != c,
        decreases s@.len() - i,
    {
        if s[i] == c {
            proof {
                lemma_find_char_exact(s@, c, i as int);
            }
            return Some(i);
        }
        i = i + 1;
    }
    proof {
        lemma_find_char_exact(s@, c, i as int);
    }
    None
}

/// `str::split_once` with a character separator.
pub open spec fn split_once(s: Seq<char>, c: char) -> Option<(Seq<char>, Seq<char>)> {
    let i = find_char(s, c);
    if i < 0 {
        None
    } else {
        Some((s.take(i), s.skip(i + 1)))
    }
}

/// `str::split_once` with a character separator.
pub fn split_once_exec(s: &[char], c: char) -> (r: Option<(Vec<char>, Vec<char>)>)
    ensures
        match r {
            Some((a, b)) => split_once(s@, c) == Some((a@, b@)),
            None => split_once(s@, c) is None,
        },
{
    proof {
        lemma_find_char(s@, c);
    }
    match find_char_exec(s, c) {
        Some(i) => {
            let a = slice_chars(s, 0, i);
            let n = s.len();
            let b = slice_chars(s, i + 1, n);
            proof {
                assert(a@ =~= s@.take(i as int));
                assert(b@ =~= s@.skip(i + 1));
            }
            Some((a, b))
        },
        None => None,
    }
}

/// `str::rsplit_once` with a character separator: splits at the last `c`.
pub open spec fn rsplit_once(s: Seq<char>, c: char) -> Option<(Seq<char>, Seq<char>)> {
    if exists|i: int| 0 <= i < s.len() && s[i] == c {
        let i = choose|i: int|
            0 <= i < s.len() && s[i] == c && forall|j: int| i < j < s.len() ==> s[j] != c;
        Some((s.take(i), s.skip(i + 1)))
    } else {
        None
    }
}

/// `str::rsplit_once` with a character separator.
pub fn rsplit_once_exec(s: &[char], c: char) -> (r: Option<(Vec<char>, Vec<char>)>)
    ensures
        match r {
            Some((a, b)) => rsplit_once(s@, c) == Some((a@, b@)),
            None => rsplit_once(s@, c) is None,
        },
{
    let mut k: usize = s.len();
    while k > 0
        invariant
            k <= s@.len(),
            forall|j: int| k <= j < s@.len() ==> s@[j] != c,
        decreases k,
    {
        if s[k - 1] == c {
            let i = k - 1;
            let a = slice_chars(s, 0, i);
            let b = slice_chars(s, k, s.len());
            proof {
                let w = choose|w: int|
                    0 <= w < s@.len() && s@[w] == c && forall|j: int|
                        w < j < s@.len() ==> s@[j] != c;
                assert(0 <= i < s@.len() && s@[i as int] == c && forall|j: int|
                    i < j < s@.len() ==> s@[j] != c);
                assert(w == i);
                assert(a@ =~= s@.take(i as int));
                assert(b@ =~= s@.skip(i + 1));
            }
            return Some((a, b));
        }
        k = k - 1;
    }
    None
}

/// Replaces every `from` by `to`.
pub open spec fn replace_char(s: Seq<char>, from: char, to: char) -> Seq<char> {
    s.map_values(|x: char| if x == from { to } else { x })
}

/// `str::replace` with single characters.
pub fn replace_char_exec(s: &[char], from: char, to: char) -> (r: Vec<char>)
    ensures
        r@ == replace_char(s@, from, to),
{
    let mut r: Vec<char> = Vec::new();
    let mut i: usize = 0;
    while i < s.len()
        invariant
            i <= s@.len(),
            r@ == replace_char(s@.take(i as int), from, to),
        decreases s@.len() - i,
    {
        let x = if s[i] == from {
            to
        } else {
            s[i]
        };
        r.push(x);
        i = i + 1;
        proof {
            assert(replace_char(s@.take(i as int), from, to) =~= replace_char(
                s@.take(i - 1),
                from,
                to,
            ).push(x));
        }
    }
    proof {
        assert(s@.take(s@.len() as int) =~= s@);
    }
    r
}

/// `str::trim_start_matches` with a string pattern: strips `p` as often as
/// it is a prefix (an empty pattern strips nothing).
pub open spec fn trim_start_matches(s: Seq<char>, p: Seq<char>) -> Seq<char>
    decreases s.len(),
{
    if p.len() > 0 && has_prefix(s, p) {
        trim_start_matches(s.skip(p.len() as int), p)
    } else {
        s
    }
}

/// `str::trim_start_matches` with a string pattern.
pub fn trim_start_matches_exec(s: &[char], p: &[char]) -> (r: Vec<char>)
    ensures
        r@ == trim_start_matches(s@, p@),
{
    if p.len() == 0 {
        return slice_chars(s, 0, s.len());
    }
    let n = s.len();
    let mut i: usize = 0;
    proof {
        assert(s@.skip(0) =~= s@);
    }
    while p.len() <= n - i && matches_at(s, p, i)
        invariant
            n == s@.len(),
            p@.len() > 0,
            i <= s@.len(),
            trim_start_matches(s@.skip(i as int), p@) == trim_start_matches(s@, p@),
        decreases s@.len() - i,
    {
        proof {
            let t = s@.skip(i as int);
            assert(t.take(p@.len() as int) =~= s@.subrange(i as int, i + p@.len()));
            assert(t.skip(p@.len() as int) =~= s@.skip(i + p@.len()));
        }
        i = i + p.len();
    }
    proof {
        let t = s@.skip(i as int);
        if has_prefix(t, p@) {
            assert(t.take(p@.len() as int) =~= s@.subrange(i as int, i + p@.len()));
        }
    }
    slice_chars(s, i, s.len())
}

/// Drops `p` from the front of `s` once, if it is there.
pub open spec fn strip_prefix_or_self(s: Seq<char>, p: Seq<char>) -> Seq<char> {
    if has_prefix(s, p) {
        s.skip(p.len() as int)
    } else {
        s
    }
}

// ───────────────────────── decimal numbers ─────────────────────────

/// The character of a decimal digit.
pub open spec fn digit_char(d: nat) -> char {
    if d == 0 {
        '0'
    } else if d == 1 {
        '1'
    } else if d == 2 {
        '2'
    } else if d == 3 {
        '3'
    } else if d == 4 {
        '4'
    } else if d == 5 {
        '5'
    } else if d == 6 {
        '6'
    } else if d == 7 {
        '7'
    } else if d == 8 {
        '8'
    } else {
        '9'
    }
}

/// Whether `c` is an ASCII decimal digit.
pub open spec fn is_digit(c: char) -> bool {
    '0' <= c && c <= '9'
}

/// The value of a decimal digit character.
pub open spec fn digit_value(c: char) -> nat {
    ((c as u32) - ('0' as u32)) as nat
}

/// The decimal representation of `n`, as `Display` writes it.
pub open spec fn dec(n: nat) -> Seq<char>
    decreases n,
{
    if n < 10 {
        seq![digit_char(n)]
    } else {
        dec(n / 10).push(digit_char(n % 10))
    }
}

/// The value of a string of decimal digits.
pub open spec fn digits_value(s: Seq<char>) -> nat
    decreases s.len(),
{
    if s.len() == 0 {
        0
    } else {
        digits_value(s.drop_last()) * 10 + digit_value(s.last())
    }
}

/// All characters are decimal digits.
pub open spec fn all_digits(s: Seq<char>) -> bool {
    forall|i: int| 0 <= i < s.len() ==> is_digit(#[trigger] s[i])
}

/// `<u64 as FromStr>::from_str`: an optional `+`, then at least one digit,
/// and a value that fits.
pub open spec fn parse_u64(s: Seq<char>) -> Option<u64> {
    let d = if s.len() > 0 && s[0] == '+' {
        s.drop_first()
    } else {
        s
    };
    if d.len() > 0 && all_digits(d) && digits_value(d) <= u64::MAX {
        Some(digits_value(d) as u64)
    } else {
        None
    }
}

proof fn lemma_digit_char(d: nat)
    requires
        d < 10,
    ensures
        is_digit(digit_char(d)),
        digit_value(digit_char(d)) == d,
{
}

/// Decimal formatting is undone by decimal reading.
pub proof fn lemma_dec_value(n: nat)
    ensures
        all_digits(dec(n)),
        digits_value(dec(n)) == n,
        dec(n).len() > 0,
        dec(n)[0] != '+',
    decreases n,
{
    if n < 10 {
        lemma_digit_char(n);
        assert(dec(n).drop_last() =~= Seq::<char>::empty());
        assert(digits_value(dec(n)) == digits_value(dec(n).drop_last()) * 10 + digit_value(dec(n).last()));
        assert(digits_value(Seq::<char>::empty()) == 0);
    } else {
        lemma_dec_value(n / 10);
        lemma_digit_char(n % 10);
        let s = dec(n);
        assert(s.drop_last() =~= dec(n / 10));
        assert(n == (n / 10) * 10 + n % 10) by (nonlinear_arith);
        assert(s.last() == digit_char(n % 10));
        assert(digits_value(s) == digits_value(s.drop_last()) * 10 + digit_value(s.last()));
        assert forall|i: int| 0 <= i < s.len() implies is_digit(#[trigger] s[i]) by {
            if i < s.len() - 1 {
                assert(s[i] == dec(n / 10)[i]);
            }
        }
        assert(s[0] == dec(n / 10)[0]);
    }
}

/// Reading back a formatted number gives the number.
pub proof fn lemma_parse_dec(n: u64)
    ensures
        parse_u64(dec(n as nat)) == Some(n),
{
    lemma_dec_value(n as nat);
}

/// Decimal formatting is injective.
pub proof fn lemma_dec_injective(a: nat, b: nat)
    requires
        dec(a) == dec(b),
    ensures
        a == b,
{
    lemma_dec_value(a);
    lemma_dec_value(b);
}

fn digit_char_exec(d: u64) -> (c: char)
    requires
        d < 10,
    ensures
        c == digit_char(d as nat),
{
    if d == 0 {
        '0'
    } else if d == 1 {
        '1'
    } else if d == 2 {
        '2'
    } else if d == 3 {
        '3'
    } else if d == 4 {
        '4'
    } else if d == 5 {
        '5'
    } else if d == 6 {
        '6'
    } else if d == 7 {
        '7'
    } else if d == 8 {
        '8'
    } else {
        '9'
    }
}

proof fn lemma_dec_unfold(n: nat)
    requires
        n >= 10,
    ensures
        dec(n) == dec(n / 10).push(digit_char(n % 10)),
{
}

/// Decimal digits of `n`.
pub fn dec_chars(n: u64) -> (r: Vec<char>)
    ensures
        r@ == dec(n as nat),
    decreases n,
{
    if n < 10 {
        let mut r = Vec::new();
        r.push(digit_char_exec(n));
        proof {
            assert(r@ =~= seq![digit_char(n as nat)]);
        }
        r
    } else {
        let mut r = dec_chars(n / 10);
        r.push(digit_char_exec(n % 10));
        proof {
            lemma_dec_unfold(n as nat);
        }
        r
    }
}

/// Decimal representation of `n` as a `String`.
pub fn dec_string(n: u64) -> (r: String)
    ensures
        r@ == dec(n as nat),
{
    let v = dec_chars(n);
    string_of(&v)
}

/// `<u64 as FromStr>::from_str`.
pub fn parse_u64_exec(s: &[char]) -> (r: Option<u64>)
    ensures
        r == parse_u64(s@),
{
    let start: usize = if s.len() > 0 && s[0] == '+' {
        1
    } else {
        0
    };
    let ghost d = if s@.len() > 0 && s@[0] == '+' {
        s@.drop_first()
    } else {
        s@
    };
    proof {
        assert(d =~= s@.skip(start as int));
    }
    if start == s.len() {
        return None;
    }
    let mut acc: u64 = 0;
    let mut i = start;
    while i < s.len()
        invariant
            start <= i <= s@.len(),
            d == s@.skip(start as int),
            d == (if s@.len() > 0 && s@[0] == '+' {
                s@.drop_first()
            } else {
                s@
            }),
            all_digits(s@.subrange(start as int, i as int)),
            acc as nat == digits_value(s@.subrange(start as int, i as int)),
        decreases s@.len() - i,
    {
        let c = s[i];
        if !('0' <= c && c <= '9') {
            proof {
                assert(d[i - start] == c);
                assert(!is_digit(d[i - start]));
                assert(!all_digits(d));
                assert(parse_u64(s@) == None::<u64>);
            }
            return None;
        }
        let v = (c as u32 - '0' as u32) as u64;
        proof {
            let t = s@.subrange(start as int, i + 1);
            assert(t.drop_last() =~= s@.subrange(start as int, i as int));
            assert(t.last() == c);
        }
        if acc > (u64::MAX - v) / 10 {
            proof {
                let t = s@.subrange(start as int, i + 1);
                assert(digits_value(t) == acc * 10 + v);
                assert(acc * 10 + v > u64::MAX) by (nonlinear_arith)
                    requires
                        acc > (u64::MAX - v) / 10,
                        v <= 9,
                ;
                assert(d.take((i + 1 - start) as int) =~= t);
                if all_digits(d) {
                    lemma_digits_value_prefix_monotone(d, (i + 1 - start) as int);
                    assert(digits_value(d) > u64::MAX);
                }
                assert(parse_u64(s@) == None::<u64>);
            }
            return None;
        }
        acc = acc * 10 + v;
        i = i + 1;
    }
    proof {
        assert(s@.subrange(start as int, i as int) =~= d);
    }
    Some(acc)
}

/// A prefix of a digit string is worth at most the whole string.
pub proof fn lemma_digits_value_prefix_monotone(s: Seq<char>, k: int)
    requires
        0 <= k <= s.len(),
        all_digits(s),
    ensures
        digits_value(s.take(k)) <= digits_value(s),
    decreases s.len() - k,
{
    if k < s.len() {
        lemma_digits_value_prefix_monotone(s, k + 1);
        let t = s.take(k + 1);
        assert(t.drop_last() =~= s.take(k));
        assert(is_digit(s[k]));
    } else {
        assert(s.take(k) =~= s);
    }
}

// ───────────────────────── splitting ─────────────────────────

/// `str::split` with a character separator (always at least one piece).
pub open spec fn split_char(s: Seq<char>, c: char) -> Seq<Seq<char>>
    decreases s.len(),
{
    let i = find_char(s, c);
    if i < 0 {
        seq![s]
    } else {
        proof {
            lemma_find_char(s, c);
        }
        seq![s.take(i)] + split_char(s.skip(i + 1), c)
    }
}

/// Drops one trailing `'\r'`.
pub open spec fn strip_cr(s: Seq<char>) -> Seq<char> {
    if s.len() > 0 && s.last() == '\r' {
        s.drop_last()
    } else {
        s
    }
}

/// `str::lines`: pieces between `'\n'`, a `'\r'` before a `'\n'` dropped, and
/// no final empty line.
pub open spec fn lines(s: Seq<char>) -> Seq<Seq<char>> {
    let parts = split_char(s, '\n');
    let body = parts.drop_last().map_values(|p: Seq<char>| strip_cr(p));
    if parts.last().len() == 0 {
        body
    } else {
        body.push(parts.last())
    }
}

pub proof fn lemma_split_char_len(s: Seq<char>, c: char)
    ensures
        split_char(s, c).len() >= 1,
    decreases s.len(),
{
    let i = find_char(s, c);
    lemma_find_char(s, c);
    if i >= 0 {
        lemma_split_char_len(s.skip(i + 1), c);
    }
}

/// `str::split` with a character separator.
pub fn split_char_exec(s: &[char], c: char) -> (r: Vec<Vec<char>>)
    ensures
        r@.map_values(|v: Vec<char>| v@) == split_char(s@, c),
{
    let mut r: Vec<Vec<char>> = Vec::new();
    let mut start: usize = 0;
    let mut i: usize = 0;
    proof {
        assert(s@.skip(0) =~= s@);
        assert(r@.map_values(|v: Vec<char>| v@) + split_char(s@, c) =~= split_char(s@, c));
    }
    while i < s.len()
        invariant
            start <= i <= s@.len(),
            forall|j: int| start <= j < i ==> s@[j] != c,
            r@.map_values(|v: Vec<char>| v@) + split_char(s@.skip(start as int), c) == split_char(
                s@,
                c,
            ),
        decreases s@.len() - i,
    {
        if s[i] == c {
            let piece = slice_chars(s, start, i);
            proof {
                let t = s@.skip(start as int);
                lemma_find_char_exact(t, c, (i - start) as int);
                assert(t.take((i - start) as int) =~= piece@);
                assert(t.skip((i - start) + 1) =~= s@.skip(i + 1));
                assert(r@.push(piece).map_values(|v: Vec<char>| v@) =~= r@.map_values(
                    |v: Vec<char>| v@,
                ).push(piece@));
                assert(split_char(t, c) == seq![piece@] + split_char(s@.skip(i + 1), c));
                assert(r@.map_values(|v: Vec<char>| v@).push(piece@) + split_char(
                    s@.skip(i + 1),
                    c,
                ) =~= r@.map_values(|v: Vec<char>| v@) + (seq![piece@] + split_char(
                    s@.skip(i + 1),
                    c,
                )));
            }
            r.push(piece);
            start = i + 1;
        }
        i = i + 1;
    }
    let piece = slice_chars(s, start, s.len());
    proof {
        let t = s@.skip(start as int);
        assert forall|j: int| 0 <= j < t.len() implies t[j] != c by {
            assert(t[j] == s@[start + j]);
        }
        lemma_find_char_exact(t, c, t.len() as int);
        assert(piece@ =~= t);
        assert(r@.push(piece).map_values(|v: Vec<char>| v@) =~= r@.map_values(|v: Vec<char>| v@)
            + seq![piece@]);
    }
    r.push(piece);
    r
}

/// `str::lines`.
pub fn lines_exec(s: &[char]) -> (r: Vec<Vec<char>>)
    ensures
        r@.map_values(|v: Vec<char>| v@) == lines(s@),
{
    let parts = split_char_exec(s, '\n');
    proof {
        lemma_split_char_len(s@, '\n');
    }
    let ghost pv = parts@.map_values(|v: Vec<char>| v@);
    let n = parts.len();
    let mut r: Vec<Vec<char>> = Vec::new();
    let mut i: usize = 0;
    while i + 1 < n
        invariant
            n == parts@.len(),
            n >= 1,
            pv == parts@.map_values(|v: Vec<char>| v@),
            pv == split_char(s@, '\n'),
            i + 1 <= n,
            r@.map_values(|v: Vec<char>| v@) == pv.take(i as int).map_values(
                |p: Seq<char>| strip_cr(p),
            ),
        decreases n - i,
    {
        let p = &parts[i];
        let piece = if p.len() > 0 && p[p.len() - 1] == '\r' {
            slice_chars(p, 0, p.len() - 1)
        } else {
            slice_chars(p, 0, p.len())
        };
        proof {
            assert(pv[i as int] == p@);
            assert(piece@ =~= strip_cr(p@));
            assert(pv.take(i + 1) =~= pv.take(i as int).push(p@));
            assert(r@.push(piece).map_values(|v: Vec<char>| v@) =~= r@.map_values(|v: Vec<char>| v@).push(
                piece@,
            ));
            assert(pv.take(i + 1).map_values(|p: Seq<char>| strip_cr(p)) =~= pv.take(
                i as int,
            ).map_values(|p: Seq<char>| strip_cr(p)).push(strip_cr(p@)));
        }
        r.push(piece);
        i = i + 1;
    }
    proof {
        assert(pv.take(i as int) =~= pv.drop_last());
    }
    let last = &parts[n - 1];
    proof {
        assert(pv.last() == last@);
    }
    if last.len() == 0 {
        r
    } else {
        let piece = slice_chars(last, 0, last.len());
        proof {
            assert(piece@ =~= last@);
            assert(r@.push(piece).map_values(|v: Vec<char>| v@) =~= r@.map_values(|v: Vec<char>| v@).push(
                piece@,
            ));
        }
        r.push(piece);
        r
    }
}

/// Index of the first whitespace character, or the length.
pub open spec fn first_ws(s: Seq<char>) -> nat
    decreases s.len(),
{
    if s.len() == 0 || is_ws(s[0]) {
        0
    } else {
        1 + first_ws(s.drop_first())
    }
}

/// `str::split_whitespace`: the maximal runs of non-whitespace characters.
pub open spec fn words(s: Seq<char>) -> Seq<Seq<char>>
    decreases s.len(),
{
    let t = trim_start(s);
    if t.len() == 0 {
        seq![]
    } else {
        let w = first_ws(t);
        proof {
            lemma_lead_ws_bound(s);
            lemma_first_ws(t);
        }
        seq![t.take(w as int)] + words(t.skip(w as int))
    }
}

pub proof fn lemma_first_ws(s: Seq<char>)
    ensures
        first_ws(s) <= s.len(),
        forall|j: int| 0 <= j < first_ws(s) ==> !is_ws(#[trigger] s[j]),
        first_ws(s) < s.len() ==> is_ws(s[first_ws(s) as int]),
        s.len() > 0 && !is_ws(s[0]) ==> first_ws(s) > 0,
    decreases s.len(),
{
    if s.len() > 0 && !is_ws(s[0]) {
        lemma_first_ws(s.drop_first());
        assert forall|j: int| 0 <= j < first_ws(s) implies !is_ws(#[trigger] s[j]) by {
            if j > 0 {
                assert(s[j] == s.drop_first()[j - 1]);
            }
        }
    }
}

pub proof fn lemma_first_ws_exact(s: Seq<char>, i: int)
    requires
        0 <= i <= s.len(),
        forall|j: int| 0 <= j < i ==> !is_ws(#[trigger] s[j]),
        i < s.len() ==> is_ws(s[i]),
    ensures
        first_ws(s) == i,
    decreases i,
{
    if i > 0 {
        let t = s.drop_first();
        assert forall|j: int| 0 <= j < i - 1 implies !is_ws(#[trigger] t[j]) by {
            assert(t[j] == s[j + 1]);
        }
        if i - 1 < t.len() {
            assert(t[i - 1] == s[i]);
        }
        lemma_first_ws_exact(t, i - 1);
    }
}

/// `str::split_whitespace`.
pub fn words_exec(s: &[char]) -> (r: Vec<Vec<char>>)
    ensures
        r@.map_values(|v: Vec<char>| v@) == words(s@),
{
    let mut r: Vec<Vec<char>> = Vec::new();
    let mut i: usize = 0;
    proof {
        assert(s@.skip(0) =~= s@);
        assert(r@.map_values(|v: Vec<char>| v@) + words(s@) =~= words(s@));
    }
    loop
        invariant
            i <= s@.len(),
            r@.map_values(|v: Vec<char>| v@) + words(s@.skip(i as int)) == words(s@),
        decreases s@.len() - i,
    {
        let ghost u = s@.skip(i as int);
        let mut j = i;
        while j < s.len() && is_whitespace(s[j])
            invariant
                i <= j <= s@.len(),
                u == s@.skip(i as int),
                forall|k: int| i <= k < j ==> is_ws(#[trigger] s@[k]),
            decreases s@.len() - j,
        {
            j = j + 1;
        }
        proof {
            assert forall|k: int| 0 <= k < j - i implies is_ws(#[trigger] u[k]) by {
                assert(u[k] == s@[i + k]);
            }
            if j < s@.len() {
                assert(u[j - i] == s@[j as int]);
            }
            lemma_lead_ws_exact(u, j - i);
            assert(trim_start(u) =~= s@.skip(j as int));
        }
        if j == s.len() {
            proof {
                assert(words(u) == Seq::<Seq<char>>::empty());
                assert(r@.map_values(|v: Vec<char>| v@) + Seq::<Seq<char>>::empty() =~= r@.map_values(
                    |v: Vec<char>| v@,
                ));
            }
            return r;
        }
        let mut k = j;
        while k < s.len() && !is_whitespace(s[k])
            invariant
                j <= k <= s@.len(),
                forall|m: int| j <= m < k ==> !is_ws(#[trigger] s@[m]),
            decreases s@.len() - k,
        {
            k = k + 1;
        }
        let w = slice_chars(s, j, k);
        proof {
            let t = s@.skip(j as int);
            assert forall|m: int| 0 <= m < k - j implies !is_ws(#[trigger] t[m]) by {
                assert(t[m] == s@[j + m]);
            }
            if k < s@.len() {
                assert(t[k - j] == s@[k as int]);
            }
            lemma_first_ws_exact(t, k - j);
            assert(t.take(k - j) =~= w@);
            assert(t.skip(k - j) =~= s@.skip(k as int));
            assert(words(u) == seq![w@] + words(s@.skip(k as int)));
            assert(r@.push(w).map_values(|v: Vec<char>| v@) =~= r@.map_values(|v: Vec<char>| v@).push(
                w@,
            ));
            assert(r@.map_values(|v: Vec<char>| v@).push(w@) + words(s@.skip(k as int))
                =~= r@.map_values(|v: Vec<char>| v@) + (seq![w@] + words(s@.skip(k as int))));
        }
        r.push(w);
        i = k;
    }
}


// ───────────────────────── paths ─────────────────────────

/// `Path::join` with a relative path: a separator is put between the two
/// unless the first is empty or already ends with one.
pub open spec fn path_join(base: Seq<char>, rel: Seq<char>) -> Seq<char> {
    if base.len() == 0 || base.last() == '/' {
        base + rel
    } else {
        base + seq!['/'] + rel
    }
}

/// `Path::join` with a relative path.
pub fn path_join_exec(base: &str, rel: &str) -> (r: String)
    ensures
        r@ == path_join(base@, rel@),
{
    let b = chars_of(base);
    let mut s = string_of(&b);
    if b.len() > 0 && b[b.len() - 1] != '/' {
        s.push('/');
    }
    push_chars(&mut s, &chars_of(rel));
    s
}


/// Reading words depends only on what follows the leading whitespace.
pub proof fn lemma_words_trim_start(x: Seq<char>)
    ensures
        words(x) == words(trim_start(x)),
{
    let t = trim_start(x);
    lemma_lead_ws_bound(x);
    lemma_lead_ws_exact(t, 0);
    assert(t.skip(0) =~= t);
}

/// Whitespace between two texts separates their words.
pub proof fn lemma_words_concat(a: Seq<char>, b: Seq<char>)
    requires
        b.len() == 0 || is_ws(b[0]),
    ensures
        words(a + b) == words(a) + words(b),
    decreases a.len(),
{
    let ab = a + b;
    lemma_lead_ws_bound(a);
    lemma_lead_ws_bound(b);
    let la = lead_ws(a);
    if la == a.len() {
        // a is all whitespace
        assert forall|j: int| 0 <= j < a.len() + lead_ws(b) implies is_ws(#[trigger] ab[j]) by {
            if j < a.len() {
                assert(ab[j] == a[j]);
            } else {
                assert(ab[j] == b[j - a.len()]);
            }
        }
        if a.len() + lead_ws(b) < ab.len() {
            assert(ab[(a.len() + lead_ws(b)) as int] == b[lead_ws(b) as int]);
        }
        lemma_lead_ws_exact(ab, (a.len() + lead_ws(b)) as int);
        assert(trim_start(ab) =~= trim_start(b));
        lemma_words_trim_start(ab);
        lemma_words_trim_start(b);
        assert(trim_start(a).len() == 0);
        assert(words(a) =~= Seq::<Seq<char>>::empty());
        assert(words(a) + words(b) =~= words(b));
    } else {
        assert forall|j: int| 0 <= j < la implies is_ws(#[trigger] ab[j]) by {
            assert(ab[j] == a[j]);
        }
        assert(ab[la as int] == a[la as int]);
        lemma_lead_ws_exact(ab, la as int);
        let ta = trim_start(a);
        assert(trim_start(ab) =~= ta + b);
        let t = ta + b;
        lemma_first_ws(ta);
        lemma_first_ws(t);
        let w1 = first_ws(ta) as int;
        assert forall|j: int| 0 <= j < w1 implies !is_ws(#[trigger] t[j]) by {
            assert(t[j] == ta[j]);
        }
        if w1 < ta.len() {
            assert(t[w1] == ta[w1]);
        } else if w1 < t.len() {
            assert(t[w1] == b[0]);
        }
        lemma_first_ws_exact(t, w1 as int);
        assert(w1 > 0);
        let rest = ta.skip(w1 as int);
        assert(t.take(w1 as int) =~= ta.take(w1 as int));
        assert(t.skip(w1 as int) =~= rest + b);
        lemma_words_concat(rest, b);
        assert(words(ab) == seq![ta.take(w1 as int)] + words(rest + b));
        assert(words(a) == seq![ta.take(w1 as int)] + words(rest));
        assert(words(ab) =~= words(a) + words(b));
    }
}

/// A non-empty run of non-whitespace characters is one word.
pub proof fn lemma_words_single(w: Seq<char>)
    requires
        w.len() > 0,
        forall|j: int| 0 <= j < w.len() ==> !is_ws(#[trigger] w[j]),
    ensures
        words(w) == seq![w],
{
    lemma_lead_ws_exact(w, 0);
    assert(trim_start(w) =~= w);
    lemma_first_ws_exact(w, w.len() as int);
    assert(w.take(w.len() as int) =~= w);
    lemma_lead_ws_exact(w.skip(w.len() as int), 0);
    assert(words(w.skip(w.len() as int)) =~= Seq::<Seq<char>>::empty());
}


// ───────────────────────── text made of lines ─────────────────────────

/// `x` has no whitespace at either end.
pub open spec fn trimmed(x: Seq<char>) -> bool {
    x.len() == 0 || (!is_ws(x[0]) && !is_ws(x.last()))
}

/// Trimming a string that has no whitespace at either end leaves it.
pub proof fn lemma_trim_trimmed(x: Seq<char>)
    requires
        trimmed(x),
    ensures
        trim(x) == x,
{
    lemma_lead_ws_exact(x, 0);
    assert(trim_start(x) =~= x);
    lemma_trail_ws_exact(x, 0);
    assert(trim_end(x) =~= x);
}

/// Each line followed by a newline.
pub open spec fn joined_lines(ls: Seq<Seq<char>>) -> Seq<char>
    decreases ls.len(),
{
    if ls.len() == 0 {
        Seq::empty()
    } else {
        joined_lines(ls.drop_last()) + ls.last() + seq!['\n']
    }
}

/// A line that `str::lines` gives back as it is: no newline in it, and no
/// carriage return at its end.
pub open spec fn clean_line(l: Seq<char>) -> bool {
    &&& forall|j: int| 0 <= j < l.len() ==> #[trigger] l[j] != '\n'
    &&& (l.len() == 0 || l.last() != '\r')
}

pub proof fn lemma_joined_concat(a: Seq<Seq<char>>, b: Seq<Seq<char>>)
    ensures
        joined_lines(a + b) == joined_lines(a) + joined_lines(b),
    decreases b.len(),
{
    if b.len() == 0 {
        assert(a + b =~= a);
        assert(joined_lines(a) + joined_lines(b) =~= joined_lines(a));
    } else {
        assert((a + b).drop_last() =~= a + b.drop_last());
        assert((a + b).last() == b.last());
        lemma_joined_concat(a, b.drop_last());
        assert(joined_lines(a + b) =~= joined_lines(a) + joined_lines(b));
    }
}

proof fn lemma_joined_front(ls: Seq<Seq<char>>)
    requires
        ls.len() > 0,
    ensures
        joined_lines(ls) == ls[0] + seq!['\n'] + joined_lines(ls.drop_first()),
{
    assert(ls =~= seq![ls[0]] + ls.drop_first());
    lemma_joined_concat(seq![ls[0]], ls.drop_first());
    let one = seq![ls[0]];
    assert(one.drop_last() =~= Seq::<Seq<char>>::empty());
    assert(joined_lines(one.drop_last()) =~= Seq::<char>::empty());
    assert(one.last() == ls[0]);
    assert(joined_lines(one) =~= ls[0] + seq!['\n']);
}

/// Splitting at the first `c`, which ends the line `l`.
pub proof fn lemma_split_char_line(l: Seq<char>, c: char, rest: Seq<char>)
    requires
        forall|j: int| 0 <= j < l.len() ==> #[trigger] l[j] != c,
    ensures
        split_char(l + seq![c] + rest, c) == seq![l] + split_char(rest, c),
{
    let s = l + seq![c] + rest;
    assert forall|j: int| 0 <= j < l.len() implies s[j] != c by {
        assert(s[j] == l[j]);
    }
    assert(s[l.len() as int] == c);
    lemma_find_char_exact(s, c, l.len() as int);
    assert(s.take(l.len() as int) =~= l);
    assert(s.skip(l.len() as int + 1) =~= rest);
}

proof fn lemma_split_joined(ls: Seq<Seq<char>>)
    requires
        forall|i: int| 0 <= i < ls.len() ==> clean_line(#[trigger] ls[i]),
    ensures
        split_char(joined_lines(ls), '\n') == ls.push(Seq::<char>::empty()),
    decreases ls.len(),
{
    if ls.len() == 0 {
        assert(find_char(Seq::<char>::empty(), '\n') == -1);
        assert(joined_lines(ls) =~= Seq::<char>::empty());
        assert(ls.push(Seq::<char>::empty()) =~= seq![Seq::<char>::empty()]);
    } else {
        let t = ls.drop_first();
        assert forall|i: int| 0 <= i < t.len() implies clean_line(#[trigger] t[i]) by {
            assert(t[i] == ls[i + 1]);
        }
        lemma_split_joined(t);
        lemma_joined_front(ls);
        assert(clean_line(ls[0]));
        lemma_split_char_line(ls[0], '\n', joined_lines(t));
        assert(seq![ls[0]] + t.push(Seq::<char>::empty()) =~= ls.push(Seq::<char>::empty()));
    }
}

/// `str::lines` gives back the lines that were joined, when each is clean.
pub proof fn lemma_lines_joined(ls: Seq<Seq<char>>)
    requires
        forall|i: int| 0 <= i < ls.len() ==> clean_line(#[trigger] ls[i]),
    ensures
        lines(joined_lines(ls)) == ls,
{
    lemma_split_joined(ls);
    let parts = ls.push(Seq::<char>::empty());
    assert(parts.drop_last() =~= ls);
    assert forall|i: int| 0 <= i < ls.len() implies strip_cr(#[trigger] ls[i]) == ls[i] by {
        assert(clean_line(ls[i]));
    }
    assert(ls.map_values(|p: Seq<char>| strip_cr(p)) =~= ls);
}

/// What `trim` keeps: a run of the string's characters with no whitespace
/// at either end, which starts (ends) where the string does when the string
/// starts (ends) with a character that is not whitespace.
pub proof fn lemma_trim_facts(x: Seq<char>)
    ensures
        trimmed(trim(x)),
        lead_ws(x) + trim(x).len() <= x.len(),
        forall|j: int| 0 <= j < trim(x).len() ==> #[trigger] trim(x)[j] == x[j + lead_ws(x)],
        trim(x).len() > 0 && !is_ws(x[0]) ==> trim(x)[0] == x[0],
        trim(x).len() > 0 && !is_ws(x.last()) ==> trim(x).last() == x.last(),
{
    let a = lead_ws(x) as int;
    lemma_lead_ws_bound(x);
    let t = x.skip(a);
    let b = trail_ws(t) as int;
    lemma_trail_ws_bound(t);
    let r = trim(x);
    assert(r =~= t.take(t.len() - b));
    assert forall|j: int| 0 <= j < r.len() implies #[trigger] r[j] == x[j + a] by {
        assert(r[j] == t[j]);
    }
    if r.len() > 0 {
        assert(r[0] == x[a]);
        assert(r.last() == t[t.len() - b - 1]);
        if !is_ws(x[0]) && a > 0 {
            assert(is_ws(x[0]));
        }
        if !is_ws(x.last()) {
            assert(t.last() == x.last());
            if b > 0 {
                assert(is_ws(t[t.len() - 1]));
            }
        }
    }
}

/// No piece of `split_char(s, c)` holds `c`.
pub proof fn lemma_split_char_pieces(s: Seq<char>, c: char)
    ensures
        forall|i: int, j: int|
            0 <= i < split_char(s, c).len() && 0 <= j < split_char(s, c)[i].len() ==> #[trigger] split_char(s, c)[i][j] != c,
    decreases s.len(),
{
    let k = find_char(s, c);
    lemma_find_char(s, c);
    if k >= 0 {
        let rest = s.skip(k + 1);
        lemma_split_char_pieces(rest, c);
        let p = split_char(s, c);
        assert(p == seq![s.take(k)] + split_char(rest, c));
        assert forall|i: int, j: int| 0 <= i < p.len() && 0 <= j < p[i].len() implies #[trigger] p[i][j] != c by {
            if i == 0 {
                assert(p[0] == s.take(k));
                assert(p[0][j] == s[j]);
            } else {
                assert(p[i] == split_char(rest, c)[i - 1]);
            }
        }
    }
}

/// No line of `lines(s)` holds a newline.
pub proof fn lemma_lines_no_newline(s: Seq<char>)
    ensures
        forall|i: int, j: int| 0 <= i < lines(s).len() && 0 <= j < lines(s)[i].len() ==> #[trigger] lines(s)[i][j] != '\n',
{
    let parts = split_char(s, '\n');
    lemma_split_char_pieces(s, '\n');
    lemma_split_char_len(s, '\n');
    let body = parts.drop_last().map_values(|p: Seq<char>| strip_cr(p));
    let l = lines(s);
    assert forall|i: int, j: int| 0 <= i < l.len() && 0 <= j < l[i].len() implies #[trigger] l[i][j] != '\n' by {
        if i < body.len() {
            assert(l[i] == body[i]);
            assert(body[i] == strip_cr(parts[i]));
            assert(l[i][j] == parts[i][j]);
        } else {
            assert(l[i] == parts.last());
            assert(l[i][j] == parts[parts.len() - 1][j]);
        }
    }
}

} // verus!
