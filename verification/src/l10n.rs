//! Locales and time zones: the names offered for each locale, and time zones
//! grouped by region.
use crate::text::{chars_of, owned, replace_char, replace_char_exec, split_once, split_once_exec, string_of, strs};
use vstd::prelude::*;

verus! {

/// The names of all time zones chrono-tz knows (`chrono_tz::TZ_VARIANTS`,
/// each by `Tz::name`), in its order. The contract claims what that table
/// shows: 597 zones, no name twice, `UTC` among them; it does not list the
/// names themselves.
#[verifier::external_body]
pub fn list_timezones() -> (r: Vec<String>)
    ensures
        r@.len() == 597,
        strs(r@).no_duplicates(),
        strs(r@).contains("UTC"@),
{
    chrono_tz::TZ_VARIANTS.iter().map(|tz| tz.name().to_owned()).collect()
}

/// Locale → name pairs as plain values.
pub open spec fn pairs_view(v: Seq<(String, String)>) -> Seq<(Seq<char>, Seq<char>)> {
    v.map_values(|p: (String, String)| (p.0@, p.1@))
}

/// The keys of an association list.
pub open spec fn assoc_keys<V>(m: Seq<(Seq<char>, V)>) -> Seq<Seq<char>> {
    m.map_values(|p: (Seq<char>, V)| p.0)
}

/// The last position of `k` among `keys`, or `-1`.
pub open spec fn key_pos(keys: Seq<Seq<char>>, k: Seq<char>) -> int
    decreases keys.len(),
{
    if keys.len() == 0 {
        -1
    } else if keys.last() == k {
        keys.len() - 1
    } else {
        key_pos(keys.drop_last(), k)
    }
}

/// The association list after `k` is mapped to `x`, as a map is after an
/// insert: the old entry of `k` gets `x`, or `(k, x)` is added at the end.
pub open spec fn assoc_put<V>(m: Seq<(Seq<char>, V)>, k: Seq<char>, x: V) -> Seq<(Seq<char>, V)> {
    let i = key_pos(assoc_keys(m), k);
    if i >= 0 {
        m.update(i, (k, x))
    } else {
        m.push((k, x))
    }
}

pub proof fn lemma_key_pos(keys: Seq<Seq<char>>, k: Seq<char>)
    ensures
        -1 <= key_pos(keys, k) < keys.len(),
        key_pos(keys, k) >= 0 ==> keys[key_pos(keys, k)] == k,
        key_pos(keys, k) < 0 ==> forall|j: int| 0 <= j < keys.len() ==> keys[j] != k,
    decreases keys.len(),
{
    if keys.len() > 0 && keys.last() != k {
        lemma_key_pos(keys.drop_last(), k);
        if key_pos(keys, k) < 0 {
            assert forall|j: int| 0 <= j < keys.len() implies keys[j] != k by {
                if j < keys.len() - 1 {
                    assert(keys[j] == keys.drop_last()[j]);
                }
            }
        }
    }
}

/// Putting a key keeps every key once.
pub proof fn lemma_assoc_put_unique<V>(m: Seq<(Seq<char>, V)>, k: Seq<char>, x: V)
    requires
        assoc_keys(m).no_duplicates(),
    ensures
        assoc_keys(assoc_put(m, k, x)).no_duplicates(),
{
    let keys = assoc_keys(m);
    lemma_key_pos(keys, k);
    let i = key_pos(keys, k);
    let r = assoc_keys(assoc_put(m, k, x));
    if i >= 0 {
        assert(r =~= keys.update(i, k));
    } else {
        assert(r =~= keys.push(k));
    }
    assert forall|a: int, b: int| 0 <= a < r.len() && 0 <= b < r.len() && a != b implies r[a] != r[b] by {
        if i >= 0 {
            if a != i && b != i {
                assert(r[a] == keys[a] && r[b] == keys[b]);
            } else if a == i {
                assert(r[b] == keys[b]);
            } else {
                assert(r[a] == keys[a]);
            }
        } else {
            if a < keys.len() && b < keys.len() {
                assert(r[a] == keys[a] && r[b] == keys[b]);
            } else if a < keys.len() {
                assert(r[a] == keys[a]);
            } else {
                assert(r[b] == keys[b]);
            }
        }
    }
}

/// The last entry of `v` whose key is `k`, or none.
pub fn find_key<V>(v: &Vec<(String, V)>, k: &str) -> (r: Option<usize>)
    ensures
        match r {
            Some(i) => key_pos(v@.map_values(|p: (String, V)| p.0@), k@) == i && i < v@.len(),
            None => key_pos(v@.map_values(|p: (String, V)| p.0@), k@) == -1,
        },
{
    let ghost keys = v@.map_values(|p: (String, V)| p.0@);
    let kc = chars_of(k);
    let mut j: usize = v.len();
    proof {
        assert(keys.take(j as int) =~= keys);
    }
    while j > 0
        invariant
            j <= v@.len(),
            keys == v@.map_values(|p: (String, V)| p.0@),
            kc@ == k@,
            key_pos(keys, k@) == key_pos(keys.take(j as int), k@),
        decreases j,
    {
        proof {
            let t = keys.take(j as int);
            assert(t.last() == v@[j - 1].0@);
            assert(t.drop_last() =~= keys.take(j - 1));
        }
        if crate::text::chars_eq(&chars_of(v[j - 1].0.as_str()), &kc) {
            return Some(j - 1);
        }
        j = j - 1;
    }
    None
}

/// The locales that have a name, each with the name found last for it, each
/// locale once, as a map from locale to name would hold them.
pub open spec fn named_locales(v: Seq<(String, Option<String>)>) -> Seq<(Seq<char>, Seq<char>)>
    decreases v.len(),
{
    if v.len() == 0 {
        Seq::empty()
    } else {
        let rest = named_locales(v.drop_last());
        match v.last().1 {
            Some(n) => assoc_put(rest, v.last().0@, n@),
            None => rest,
        }
    }
}

/// Each locale with the name found for it; those without one are dropped,
/// and a locale given twice keeps the last name. `named` holds each locale
/// with what the lookup gave.
pub fn _list(named: Vec<(String, Option<String>)>) -> (r: Vec<(String, String)>)
    ensures
        pairs_view(r@) == named_locales(named@),
        assoc_keys(pairs_view(r@)).no_duplicates(),
{
    let mut r: Vec<(String, String)> = Vec::new();
    let mut i: usize = 0;
    proof {
        assert(named@.take(0) =~= Seq::<(String, Option<String>)>::empty());
        assert(pairs_view(r@) =~= Seq::<(Seq<char>, Seq<char>)>::empty());
    }
    while i < named.len()
        invariant
            i <= named@.len(),
            pairs_view(r@) == named_locales(named@.take(i as int)),
            assoc_keys(pairs_view(r@)).no_duplicates(),
        decreases named@.len() - i,
    {
        let ghost r0 = pairs_view(r@);
        let (locale, name) = &named[i];
        proof {
            let t = named@.take(i + 1);
            assert(t.drop_last() =~= named@.take(i as int));
            assert(t.last() == named@[i as int]);
        }
        if let Some(n) = name {
            proof {
                assert(r@.map_values(|p: (String, String)| p.0@) =~= assoc_keys(r0));
                lemma_assoc_put_unique(r0, locale@, n@);
            }
            match find_key(&r, locale.as_str()) {
                Some(j) => {
                    r.set(j, (locale.clone(), n.clone()));
                    proof {
                        assert(pairs_view(r@) =~= r0.update(j as int, (locale@, n@)));
                    }
                },
                None => {
                    r.push((locale.clone(), n.clone()));
                    proof {
                        assert(pairs_view(r@) =~= r0.push((locale@, n@)));
                    }
                },
            }
        }
        i = i + 1;
    }
    proof {
        assert(named@.take(i as int) =~= named@);
    }
    r
}

/// Locale → name of its region, for each locale that has one.
pub fn list_regions(named: Vec<(String, Option<String>)>) -> (r: Vec<(String, String)>)
    ensures
        pairs_view(r@) == named_locales(named@),
        assoc_keys(pairs_view(r@)).no_duplicates(),
{
    _list(named)
}

/// Locale → name of its language in English, for each locale that has one.
pub fn list_langs(named: Vec<(String, Option<String>)>) -> (r: Vec<(String, String)>)
    ensures
        pairs_view(r@) == named_locales(named@),
        assoc_keys(pairs_view(r@)).no_duplicates(),
{
    _list(named)
}

// ───────────────────────── time zones by region ─────────────────────────

/// Time zones grouped for the region page.
pub struct TimezoneGroups {
    /// The buttons of the first column, in order: each region once, and the
    /// zones that belong to no region.
    pub regions: Vec<String>,
    /// Each region with its zones, in order of appearance.
    pub timezones: Vec<(String, Vec<String>)>,
}

/// The groups as plain values.
pub open spec fn groups_view(g: TimezoneGroups) -> (Seq<Seq<char>>, Seq<(Seq<char>, Seq<Seq<char>>)>) {
    (strs(g.regions@), g.timezones@.map_values(|p: (String, Vec<String>)| (p.0@, strs(p.1@))))
}

/// Where the region `k` stands among the groups, or -1.
pub open spec fn group_index(m: Seq<(Seq<char>, Seq<Seq<char>>)>, k: Seq<char>) -> int
    decreases m.len(),
{
    if m.len() == 0 {
        -1
    } else if m.last().0 == k {
        m.len() - 1
    } else {
        group_index(m.drop_last(), k)
    }
}

/// The groups after the zones of `tzs`, in order: a zone `region/city` goes
/// to its region, which gets a button the first time it is seen; a zone
/// without `/` gets a button of its own.
pub open spec fn group_spec(tzs: Seq<Seq<char>>) -> (Seq<Seq<char>>, Seq<(Seq<char>, Seq<Seq<char>>)>)
    decreases tzs.len(),
{
    if tzs.len() == 0 {
        (Seq::empty(), Seq::empty())
    } else {
        let (b, m) = group_spec(tzs.drop_last());
        let tz = tzs.last();
        match split_once(tz, '/') {
            Some((region, _)) => {
                let i = group_index(m, region);
                if i >= 0 {
                    (b, m.update(i, (region, m[i].1.push(tz))))
                } else {
                    (b.push(region), m.push((region, seq![tz])))
                }
            },
            None => (b.push(tz), m),
        }
    }
}

proof fn lemma_group_index(m: Seq<(Seq<char>, Seq<Seq<char>>)>, k: Seq<char>)
    ensures
        -1 <= group_index(m, k) < m.len(),
        group_index(m, k) >= 0 ==> m[group_index(m, k)].0 == k,
        group_index(m, k) < 0 ==> forall|j: int| 0 <= j < m.len() ==> #[trigger] m[j].0 != k,
    decreases m.len(),
{
    if m.len() > 0 && m.last().0 != k {
        lemma_group_index(m.drop_last(), k);
        assert forall|j: int| 0 <= j < m.len() - 1 implies m[j] == m.drop_last()[j] by {}
    }
}

fn find_group(m: &Vec<(String, Vec<String>)>, k: &[char]) -> (r: Option<usize>)
    ensures
        match r {
            Some(i) => i as int == group_index(
                m@.map_values(|p: (String, Vec<String>)| (p.0@, strs(p.1@))),
                k@,
            ),
            None => group_index(m@.map_values(|p: (String, Vec<String>)| (p.0@, strs(p.1@))), k@) < 0,
        },
{
    let ghost mv = m@.map_values(|p: (String, Vec<String>)| (p.0@, strs(p.1@)));
    let mut i: usize = m.len();
    proof {
        assert(mv.take(i as int) =~= mv);
    }
    while i > 0
        invariant
            i <= m@.len(),
            mv == m@.map_values(|p: (String, Vec<String>)| (p.0@, strs(p.1@))),
            group_index(mv.take(i as int), k@) == group_index(mv, k@),
        decreases i,
    {
        proof {
            let t = mv.take(i as int);
            assert(t.last() == mv[i - 1]);
            assert(t.drop_last() =~= mv.take(i - 1));
            assert(mv[i - 1].0 == m@[i - 1].0@);
        }
        if crate::text::chars_eq(&chars_of(m[i - 1].0.as_str()), k) {
            return Some(i - 1);
        }
        i = i - 1;
    }
    None
}

impl TimezoneGroups {
    /// Groups the time zones, in order, for the region page.
    pub fn group(tzs: &Vec<String>) -> (r: Self)
        ensures
            groups_view(r) == group_spec(strs(tzs@)),
    {
        let mut regions: Vec<String> = Vec::new();
        let mut timezones: Vec<(String, Vec<String>)> = Vec::new();
        let mut i: usize = 0;
        proof {
            assert(strs(tzs@).take(0) =~= Seq::<Seq<char>>::empty());
            assert(strs(regions@) =~= Seq::<Seq<char>>::empty());
            assert(timezones@.map_values(|p: (String, Vec<String>)| (p.0@, strs(p.1@))) =~= Seq::<
                (Seq<char>, Seq<Seq<char>>),
            >::empty());
        }
        while i < tzs.len()
            invariant
                i <= tzs@.len(),
                (strs(regions@), timezones@.map_values(|p: (String, Vec<String>)| (p.0@, strs(p.1@))))
                    == group_spec(strs(tzs@).take(i as int)),
            decreases tzs@.len() - i,
        {
            let tz = &tzs[i];
            let ghost b0 = strs(regions@);
            let ghost m0 = timezones@.map_values(|p: (String, Vec<String>)| (p.0@, strs(p.1@)));
            proof {
                let t = strs(tzs@).take(i + 1);
                assert(t.drop_last() =~= strs(tzs@).take(i as int));
                assert(t.last() == tz@);
            }
            match split_once_exec(&chars_of(tz.as_str()), '/') {
                Some((region, _)) => {
                    match find_group(&timezones, &region) {
                        Some(k) => {
                            proof {
                                lemma_group_index(m0, region@);
                            }
                            let mut entry = timezones.remove(k);
                            let ghost e0 = strs(entry.1@);
                            entry.1.push(tz.clone());
                            proof {
                                assert(strs(entry.1@) =~= e0.push(tz@));
                                lemma_group_index(m0, region@);
                            }
                            timezones.insert(k, entry);
                            proof {
                                assert(timezones@.map_values(|p: (String, Vec<String>)| (p.0@, strs(p.1@)))
                                    =~= m0.update(k as int, (region@, m0[k as int].1.push(tz@))));
                            }
                        },
                        None => {
                            regions.push(string_of(&region));
                            let mut zs: Vec<String> = Vec::new();
                            zs.push(tz.clone());
                            timezones.push((string_of(&region), zs));
                            proof {
                                assert(strs(regions@) =~= b0.push(region@));
                                assert(strs(zs@) =~= seq![tz@]);
                                assert(timezones@.map_values(|p: (String, Vec<String>)| (p.0@, strs(p.1@)))
                                    =~= m0.push((region@, seq![tz@])));
                            }
                        },
                    }
                },
                None => {
                    regions.push(tz.clone());
                    proof {
                        assert(strs(regions@) =~= b0.push(tz@));
                    }
                },
            }
            i = i + 1;
        }
        proof {
            assert(strs(tzs@).take(i as int) =~= strs(tzs@));
        }
        TimezoneGroups { regions, timezones }
    }
}


/// Every zone of a group is `region/city` under its own region.
pub open spec fn groups_wf(m: Seq<(Seq<char>, Seq<Seq<char>>)>) -> bool {
    forall|i: int, j: int| 0 <= i < m.len() && 0 <= j < m[i].1.len() ==> #[trigger] zone_in(m[i].1[j], m[i].0)
}

/// The zone is `region/...`.
pub open spec fn zone_in(tz: Seq<char>, region: Seq<char>) -> bool {
    match split_once(tz, '/') {
        Some((r, _)) => r == region,
        None => false,
    }
}

proof fn lemma_group_spec_wf(tzs: Seq<Seq<char>>)
    ensures
        groups_wf(group_spec(tzs).1),
    decreases tzs.len(),
{
    if tzs.len() > 0 {
        lemma_group_spec_wf(tzs.drop_last());
        let (b, m) = group_spec(tzs.drop_last());
        let tz = tzs.last();
        if let Some((region, _)) = split_once(tz, '/') {
            lemma_group_index(m, region);
            let m2 = group_spec(tzs).1;
            assert forall|i: int, j: int| 0 <= i < m2.len() && 0 <= j < m2[i].1.len() implies #[trigger] zone_in(
                m2[i].1[j],
                m2[i].0,
            ) by {
                let gi = group_index(m, region);
                if i < m.len() && i != gi {
                    assert(m2[i] == m[i]);
                } else if i == gi {
                    if j < m[i].1.len() {
                        assert(m2[i].1[j] == m[i].1[j]);
                    }
                }
            }
        }
    }
}

/// The label of a city button: the part after `/`, with spaces for `_`.
pub open spec fn city_label_spec(tz: Seq<char>) -> Seq<char> {
    match split_once(tz, '/') {
        Some((_, city)) => replace_char(city, '_', ' '),
        None => tz,
    }
}

/// The label of a city button for the zone `tz` (`region/city`).
pub fn city_label(tz: &str) -> (r: String)
    requires
        split_once(tz@, '/') is Some,
    ensures
        r@ == city_label_spec(tz@),
{
    match split_once_exec(&chars_of(tz), '/') {
        Some((_, city)) => string_of(&replace_char_exec(&city, '_', ' ')),
        None => owned(tz),
    }
}

/// What choosing a region leads to.
pub enum RegionChoice {
    /// The region has cities: their labels, and no zone is chosen yet.
    Cities(Vec<String>),
    /// The region is a zone by itself (such as `UTC`): it is the choice.
    Timezone(String),
}

impl TimezoneGroups {
    /// The groups are as `group` makes them.
    pub open spec fn wf(&self) -> bool {
        groups_wf(groups_view(*self).1)
    }

    /// Groups the time zones and states that they are well formed.
    pub fn group_checked(tzs: &Vec<String>) -> (r: Self)
        ensures
            groups_view(r) == group_spec(strs(tzs@)),
            r.wf(),
    {
        let r = Self::group(tzs);
        proof {
            lemma_group_spec_wf(strs(tzs@));
        }
        r
    }

    /// The region page's groups of every time zone chrono-tz knows: the list
    /// of [`list_timezones`], grouped by [`Self::group_checked`]. Returned
    /// with the list it was made from: every zone once, `UTC` among them.
    pub fn of_known_timezones() -> (r: (Vec<String>, Self))
        ensures
            r.0@.len() == 597,
            strs(r.0@).no_duplicates(),
            strs(r.0@).contains("UTC"@),
            groups_view(r.1) == group_spec(strs(r.0@)),
            r.1.wf(),
    {
        let tzs = list_timezones();
        let g = Self::group_checked(&tzs);
        (tzs, g)
    }

    /// Choosing the region `region`: its cities, or the zone itself.
    pub fn select_region(&self, region: &str) -> (r: RegionChoice)
        requires
            self.wf(),
        ensures
            ({
                let m = groups_view(*self).1;
                let i = group_index(m, region@);
                if i >= 0 {
                    r matches RegionChoice::Cities(v) && strs(v@) == m[i].1.map_values(
                        |tz: Seq<char>| city_label_spec(tz),
                    )
                } else {
                    r matches RegionChoice::Timezone(t) && t@ == region@
                }
            }),
    {
        let ghost m = groups_view(*self).1;
        proof {
            lemma_group_index(m, region@);
        }
        match find_group(&self.timezones, &chars_of(region)) {
            None => RegionChoice::Timezone(owned(region)),
            Some(k) => {
                let zones = &self.timezones[k].1;
                let ghost zv = m[k as int].1;
                proof {
                    assert(zv == strs(zones@));
                    assert forall|q: int| 0 <= q < zv.len() implies #[trigger] zone_in(zv[q], m[k as int].0) by {
                        assert(zone_in(m[k as int].1[q], m[k as int].0));
                    }
                }
                let mut labels: Vec<String> = Vec::new();
                let mut j: usize = 0;
                while j < zones.len()
                    invariant
                        j <= zones@.len(),
                        zv == strs(zones@),
                        forall|q: int| 0 <= q < zv.len() ==> #[trigger] zone_in(zv[q], m[k as int].0),
                        strs(labels@) == zv.take(j as int).map_values(|tz: Seq<char>| city_label_spec(tz)),
                    decreases zones@.len() - j,
                {
                    proof {
                        assert(zv[j as int] == zones@[j as int]@);
                        assert(zone_in(zv[j as int], m[k as int].0));
                        assert(split_once(zv[j as int], '/') is Some);
                    }
                    let ghost l0 = strs(labels@);
                    let lab = city_label(zones[j].as_str());
                    proof {
                        assert(lab@ == city_label_spec(zv[j as int]));
                    }
                    labels.push(lab);
                    proof {
                        assert(strs(labels@) =~= l0.push(city_label_spec(zv[j as int])));
                        assert(zv.take(j + 1) =~= zv.take(j as int).push(zv[j as int]));
                        assert(strs(labels@) =~= zv.take(j + 1).map_values(|tz: Seq<char>| city_label_spec(tz)));
                    }
                    j = j + 1;
                }
                proof {
                    assert(zv.take(j as int) =~= zv);
                }
                RegionChoice::Cities(labels)
            },
        }
    }

    /// The zone of the `i`-th city of the region `region`, if there is one.
    pub fn city_timezone(&self, region: &str, i: usize) -> (r: Option<String>)
        requires
            group_index(groups_view(*self).1, region@) >= 0,
        ensures
            ({
                let zs = groups_view(*self).1[group_index(groups_view(*self).1, region@)].1;
                match r {
                    Some(t) => i < zs.len() && t@ == zs[i as int],
                    None => i >= zs.len(),
                }
            }),
    {
        let ghost m = groups_view(*self).1;
        proof {
            lemma_group_index(m, region@);
        }
        match find_group(&self.timezones, &chars_of(region)) {
            None => None,
            Some(k) => {
                let zones = &self.timezones[k].1;
                proof {
                    assert(m[k as int].1 == strs(zones@));
                }
                if i < zones.len() {
                    proof {
                        assert(strs(zones@)[i as int] == zones@[i as int]@);
                    }
                    Some(zones[i].clone())
                } else {
                    None
                }
            },
        }
    }
}


// ───────────────────────── the language of the interface ─────────────────────────

/// The language part of a locale: what comes before `.`, or all of it.
pub open spec fn locale_language(locale: Seq<char>) -> Seq<char> {
    match split_once(locale, '.') {
        Some((left, _)) => left,
        None => locale,
    }
}

/// The language part of a locale (`en_US.UTF-8` → `en_US`).
pub fn locale_language_part(locale: &str) -> (r: String)
    ensures
        r@ == locale_language(locale@),
{
    match split_once_exec(&chars_of(locale), '.') {
        Some((left, _)) => string_of(&left),
        None => owned(locale),
    }
}

/// The candidates that are available, in order.
pub open spec fn available_of(candidates: Seq<Seq<char>>, available: Seq<Seq<char>>) -> Seq<Seq<char>>
    decreases candidates.len(),
{
    if candidates.len() == 0 {
        Seq::empty()
    } else {
        let rest = available_of(candidates.drop_last(), available);
        if available.contains(candidates.last()) {
            rest.push(candidates.last())
        } else {
            rest
        }
    }
}

/// The languages to load: the candidates (from the locale solver) that
/// have translations, or the fallback when none has.
pub fn pick_languages(candidates: &Vec<String>, available: &Vec<String>, fallback: &str) -> (r: Vec<String>)
    ensures
        strs(r@) == if available_of(strs(candidates@), strs(available@)).len() == 0 {
            seq![fallback@]
        } else {
            available_of(strs(candidates@), strs(available@))
        },
{
    let ghost cv = strs(candidates@);
    let ghost av = strs(available@);
    let mut r: Vec<String> = Vec::new();
    let mut i: usize = 0;
    proof {
        assert(cv.take(0) =~= Seq::<Seq<char>>::empty());
        assert(strs(r@) =~= Seq::<Seq<char>>::empty());
    }
    while i < candidates.len()
        invariant
            i <= candidates@.len(),
            cv == strs(candidates@),
            av == strs(available@),
            strs(r@) == available_of(cv.take(i as int), av),
        decreases candidates@.len() - i,
    {
        let c = chars_of(candidates[i].as_str());
        let ghost r0 = strs(r@);
        proof {
            let t = cv.take(i + 1);
            assert(t.drop_last() =~= cv.take(i as int));
            assert(t.last() == cv[i as int]);
            assert(cv[i as int] == c@);
        }
        let mut found = false;
        let mut j: usize = 0;
        while j < available.len()
            invariant
                j <= available@.len(),
                av == strs(available@),
                found ==> av.contains(c@),
                !found ==> forall|m: int| 0 <= m < j ==> av[m] != c@,
            decreases available@.len() - j,
        {
            proof {
                assert(av[j as int] == available@[j as int]@);
            }
            if crate::text::chars_eq(&chars_of(available[j].as_str()), &c) {
                found = true;
            }
            j = j + 1;
        }
        if found {
            r.push(candidates[i].clone());
            proof {
                assert(strs(r@) =~= r0.push(c@));
            }
        }
        i = i + 1;
    }
    proof {
        assert(cv.take(i as int) =~= cv);
    }
    if r.len() == 0 {
        let mut f: Vec<String> = Vec::new();
        f.push(owned(fallback));
        proof {
            assert(strs(f@) =~= seq![fallback@]);
        }
        f
    } else {
        r
    }
}

} // verus!
