//! Mount targets of a custom installation, and the path model that orders
//! them (the components of a Unix path, as `std::path::Path` reads them).
use crate::order::{insertion_sort, Ordered};
use crate::systemd_ini::{
    lemma_name_lt_irreflexive, lemma_name_lt_total, lemma_name_lt_transitive, name_lt,
    name_lt_exec,
};
use crate::text::{
    chars_eq, chars_of, push_chars, split_char, split_char_exec, string_of,
};
use vstd::prelude::*;

verus! {

// ───────────────────────── path components ─────────────────────────

/// One component of a path.
pub enum Component {
    RootDir,
    CurDir,
    ParentDir,
    Normal(Seq<char>),
}

/// One component of a path, in executable form.
pub enum PathComponent {
    RootDir,
    CurDir,
    ParentDir,
    Normal(Vec<char>),
}

impl View for PathComponent {
    type V = Component;

    open spec fn view(&self) -> Component {
        match self {
            PathComponent::RootDir => Component::RootDir,
            PathComponent::CurDir => Component::CurDir,
            PathComponent::ParentDir => Component::ParentDir,
            PathComponent::Normal(v) => Component::Normal(v@),
        }
    }
}

/// The component that one piece between slashes gives, if any: empty pieces
/// and `.` give none, `..` is the parent.
pub open spec fn seg_comp(s: Seq<char>) -> Option<Component> {
    if s.len() == 0 || s == seq!['.'] {
        None
    } else if s == seq!['.', '.'] {
        Some(Component::ParentDir)
    } else {
        Some(Component::Normal(s))
    }
}

pub open spec fn seg_comps(segs: Seq<Seq<char>>) -> Seq<Component>
    decreases segs.len(),
{
    if segs.len() == 0 {
        Seq::empty()
    } else {
        seg_comps(segs.drop_last()) + match seg_comp(segs.last()) {
            Some(c) => seq![c],
            None => Seq::empty(),
        }
    }
}

/// The path begins at the root.
pub open spec fn has_root(p: Seq<char>) -> bool {
    p.len() > 0 && p[0] == '/'
}

/// A relative path that begins with `.` keeps it as its first component.
pub open spec fn starts_cur_dir(p: Seq<char>) -> bool {
    !has_root(p) && p.len() > 0 && p[0] == '.' && (p.len() == 1 || p[1] == '/')
}

/// `Path::components` on Unix.
pub open spec fn path_components(p: Seq<char>) -> Seq<Component> {
    (if has_root(p) {
        seq![Component::RootDir]
    } else {
        Seq::empty()
    }) + (if starts_cur_dir(p) {
        seq![Component::CurDir]
    } else {
        Seq::empty()
    }) + seg_comps(split_char(p, '/'))
}

pub open spec fn comps_view(v: Seq<PathComponent>) -> Seq<Component> {
    v.map_values(|c: PathComponent| c@)
}

fn seg_comp_exec(s: &[char]) -> (r: Option<PathComponent>)
    ensures
        match r {
            Some(c) => seg_comp(s@) == Some(c@),
            None => seg_comp(s@) is None,
        },
{
    let dot = ['.'];
    let dotdot = ['.', '.'];
    proof {
        assert(dot@ =~= seq!['.']);
        assert(dotdot@ =~= seq!['.', '.']);
    }
    if s.len() == 0 || chars_eq(s, &dot) {
        None
    } else if chars_eq(s, &dotdot) {
        Some(PathComponent::ParentDir)
    } else {
        let mut v: Vec<char> = Vec::new();
        let mut i: usize = 0;
        while i < s.len()
            invariant
                i <= s@.len(),
                v@ == s@.take(i as int),
            decreases s@.len() - i,
        {
            v.push(s[i]);
            proof {
                assert(s@.take(i + 1) =~= s@.take(i as int).push(s@[i as int]));
            }
            i = i + 1;
        }
        proof {
            assert(s@.take(s@.len() as int) =~= s@);
        }
        Some(PathComponent::Normal(v))
    }
}

/// `Path::components` on Unix.
pub fn path_components_exec(p: &[char]) -> (r: Vec<PathComponent>)
    ensures
        comps_view(r@) == path_components(p@),
{
    let mut r: Vec<PathComponent> = Vec::new();
    let root = p.len() > 0 && p[0] == '/';
    if root {
        r.push(PathComponent::RootDir);
    }
    let cur = !root && p.len() > 0 && p[0] == '.' && (p.len() == 1 || p[1] == '/');
    if cur {
        r.push(PathComponent::CurDir);
    }
    let ghost head = comps_view(r@);
    proof {
        assert(head =~= (if has_root(p@) {
            seq![Component::RootDir]
        } else {
            Seq::empty()
        }) + (if starts_cur_dir(p@) {
            seq![Component::CurDir]
        } else {
            Seq::empty()
        }));
    }
    let segs = split_char_exec(p, '/');
    let ghost sv = segs@.map_values(|v: Vec<char>| v@);
    let mut i: usize = 0;
    proof {
        assert(sv.take(0) =~= Seq::<Seq<char>>::empty());
        assert(comps_view(r@) =~= head + seg_comps(sv.take(0)));
    }
    while i < segs.len()
        invariant
            i <= segs@.len(),
            sv == segs@.map_values(|v: Vec<char>| v@),
            comps_view(r@) == head + seg_comps(sv.take(i as int)),
        decreases segs@.len() - i,
    {
        let ghost r0 = comps_view(r@);
        let c = seg_comp_exec(&segs[i]);
        proof {
            assert(sv[i as int] == segs@[i as int]@);
            assert(sv.take(i + 1).drop_last() =~= sv.take(i as int));
            assert(sv.take(i + 1).last() == sv[i as int]);
        }
        match c {
            Some(c) => {
                let ghost cv = c@;
                r.push(c);
                proof {
                    assert(comps_view(r@) =~= r0.push(cv));
                    assert(comps_view(r@) =~= head + seg_comps(sv.take(i + 1)));
                }
            },
            None => {
                proof {
                    assert(comps_view(r@) =~= head + seg_comps(sv.take(i + 1)));
                }
            },
        }
        i = i + 1;
    }
    proof {
        assert(sv.take(segs@.len() as int) =~= sv);
    }
    r
}

// ───────────────────────── order of components ─────────────────────────

pub open spec fn comp_rank(c: Component) -> int {
    match c {
        Component::RootDir => 1,
        Component::CurDir => 2,
        Component::ParentDir => 3,
        Component::Normal(_) => 4,
    }
}

/// The order of `Component`: by kind, then a normal component by its name.
pub open spec fn comp_lt(a: Component, b: Component) -> bool {
    if comp_rank(a) != comp_rank(b) {
        comp_rank(a) < comp_rank(b)
    } else {
        match (a, b) {
            (Component::Normal(x), Component::Normal(y)) => name_lt(x, y),
            _ => false,
        }
    }
}

/// The order of paths: component by component, a proper prefix first.
pub open spec fn comps_lt(a: Seq<Component>, b: Seq<Component>) -> bool
    decreases a.len(),
{
    if a.len() == 0 {
        b.len() > 0
    } else if b.len() == 0 {
        false
    } else if a[0] != b[0] {
        comp_lt(a[0], b[0])
    } else {
        comps_lt(a.drop_first(), b.drop_first())
    }
}

proof fn lemma_comp_lt_irreflexive(a: Component)
    ensures
        !comp_lt(a, a),
{
    if let Component::Normal(x) = a {
        lemma_name_lt_irreflexive(x);
    }
}

proof fn lemma_comp_lt_transitive(a: Component, b: Component, c: Component)
    requires
        comp_lt(a, b),
        comp_lt(b, c),
    ensures
        comp_lt(a, c),
{
    if let (Component::Normal(x), Component::Normal(y), Component::Normal(z)) = (a, b, c) {
        lemma_name_lt_transitive(x, y, z);
    }
}

proof fn lemma_comp_lt_total(a: Component, b: Component)
    requires
        a != b,
    ensures
        comp_lt(a, b) || comp_lt(b, a),
{
    if let (Component::Normal(x), Component::Normal(y)) = (a, b) {
        lemma_name_lt_total(x, y);
    }
}

pub proof fn lemma_comps_lt_irreflexive(a: Seq<Component>)
    ensures
        !comps_lt(a, a),
    decreases a.len(),
{
    if a.len() > 0 {
        lemma_comps_lt_irreflexive(a.drop_first());
    }
}

pub proof fn lemma_comps_lt_transitive(a: Seq<Component>, b: Seq<Component>, c: Seq<Component>)
    requires
        comps_lt(a, b),
        comps_lt(b, c),
    ensures
        comps_lt(a, c),
    decreases a.len(),
{
    if a.len() > 0 && b.len() > 0 && c.len() > 0 {
        if a[0] == b[0] && b[0] == c[0] {
            lemma_comps_lt_transitive(a.drop_first(), b.drop_first(), c.drop_first());
        } else if a[0] == b[0] {
        } else if b[0] == c[0] {
        } else {
            lemma_comp_lt_transitive(a[0], b[0], c[0]);
            if a[0] == c[0] {
                lemma_comp_lt_irreflexive(a[0]);
            }
        }
    }
}

pub proof fn lemma_comps_lt_total(a: Seq<Component>, b: Seq<Component>)
    requires
        a != b,
    ensures
        comps_lt(a, b) || comps_lt(b, a),
    decreases a.len(),
{
    if a.len() > 0 && b.len() > 0 {
        if a[0] == b[0] {
            if a.drop_first() == b.drop_first() {
                assert(a =~= seq![a[0]] + a.drop_first());
                assert(b =~= seq![b[0]] + b.drop_first());
            }
            lemma_comps_lt_total(a.drop_first(), b.drop_first());
        } else {
            lemma_comp_lt_total(a[0], b[0]);
        }
    } else if a.len() == 0 && b.len() == 0 {
        assert(a =~= b);
    }
}

fn comp_eq_exec(a: &PathComponent, b: &PathComponent) -> (r: bool)
    ensures
        r == (a@ == b@),
{
    match (a, b) {
        (PathComponent::RootDir, PathComponent::RootDir) => true,
        (PathComponent::CurDir, PathComponent::CurDir) => true,
        (PathComponent::ParentDir, PathComponent::ParentDir) => true,
        (PathComponent::Normal(x), PathComponent::Normal(y)) => chars_eq(x, y),
        _ => false,
    }
}

fn comp_rank_exec(a: &PathComponent) -> (r: u8)
    ensures
        r as int == comp_rank(a@),
{
    match a {
        PathComponent::RootDir => 1,
        PathComponent::CurDir => 2,
        PathComponent::ParentDir => 3,
        PathComponent::Normal(_) => 4,
    }
}

fn comp_lt_exec(a: &PathComponent, b: &PathComponent) -> (r: bool)
    ensures
        r == comp_lt(a@, b@),
{
    let ra = comp_rank_exec(a);
    let rb = comp_rank_exec(b);
    if ra != rb {
        ra < rb
    } else {
        match (a, b) {
            (PathComponent::Normal(x), PathComponent::Normal(y)) => name_lt_exec(x, y),
            _ => false,
        }
    }
}

proof fn lemma_comps_lt_skip(a: Seq<Component>, b: Seq<Component>, i: int)
    requires
        0 <= i <= a.len(),
        i <= b.len(),
        forall|j: int| 0 <= j < i ==> a[j] == b[j],
    ensures
        comps_lt(a, b) == comps_lt(a.skip(i), b.skip(i)),
    decreases i,
{
    if i > 0 {
        assert(a.drop_first().skip(i - 1) =~= a.skip(i));
        assert(b.drop_first().skip(i - 1) =~= b.skip(i));
        lemma_comps_lt_skip(a.drop_first(), b.drop_first(), i - 1);
    } else {
        assert(a.skip(0) =~= a);
        assert(b.skip(0) =~= b);
    }
}

/// Whether the path with components `a` comes before the one with `b`.
pub fn comps_lt_exec(a: &Vec<PathComponent>, b: &Vec<PathComponent>) -> (r: bool)
    ensures
        r == comps_lt(comps_view(a@), comps_view(b@)),
{
    let ghost av = comps_view(a@);
    let ghost bv = comps_view(b@);
    let mut i: usize = 0;
    while i < a.len() && i < b.len() && comp_eq_exec(&a[i], &b[i])
        invariant
            av == comps_view(a@),
            bv == comps_view(b@),
            i <= a@.len(),
            i <= b@.len(),
            forall|j: int| 0 <= j < i ==> av[j] == bv[j],
        decreases a@.len() - i,
    {
        i = i + 1;
    }
    proof {
        lemma_comps_lt_skip(av, bv, i as int);
    }
    if i == a.len() {
        i < b.len()
    } else if i == b.len() {
        false
    } else {
        proof {
            assert(av.skip(i as int)[0] == a@[i as int]@);
            assert(bv.skip(i as int)[0] == b@[i as int]@);
        }
        comp_lt_exec(&a[i], &b[i])
    }
}

// ───────────────────────── order of mount points ─────────────────────────

/// The path is the root alone.
pub open spec fn root_only(c: Seq<Component>) -> bool {
    c.len() == 1 && c[0] == Component::RootDir
}

/// The first part of the sort key of a mount point: the root comes first.
pub open spec fn root_rank(c: Seq<Component>) -> int {
    if root_only(c) {
        0
    } else {
        1
    }
}

/// The order in which mount points are mounted: the root first, then fewer
/// components first, then by the order of paths.
pub open spec fn mount_before(a: Seq<char>, b: Seq<char>) -> bool {
    let ca = path_components(a);
    let cb = path_components(b);
    ||| root_rank(ca) < root_rank(cb)
    ||| root_rank(ca) == root_rank(cb) && ca.len() < cb.len()
    ||| root_rank(ca) == root_rank(cb) && ca.len() == cb.len() && comps_lt(ca, cb)
}

pub proof fn lemma_mount_before_asym(a: Seq<char>, b: Seq<char>)
    requires
        mount_before(a, b),
    ensures
        !mount_before(b, a),
{
    let ca = path_components(a);
    let cb = path_components(b);
    if comps_lt(ca, cb) && comps_lt(cb, ca) {
        lemma_comps_lt_transitive(ca, cb, ca);
        lemma_comps_lt_irreflexive(ca);
    }
}

pub proof fn lemma_mount_before_not_after(x: Seq<char>, a: Seq<char>, b: Seq<char>)
    requires
        mount_before(x, a),
        !mount_before(b, a),
    ensures
        mount_before(x, b),
{
    let cx = path_components(x);
    let ca = path_components(a);
    let cb = path_components(b);
    if ca != cb {
        lemma_comps_lt_total(ca, cb);
    }
    if comps_lt(cx, ca) && comps_lt(ca, cb) {
        lemma_comps_lt_transitive(cx, ca, cb);
    }
}

/// Whether mount point `a` is mounted before `b`.
pub fn mount_before_exec(a: &[char], b: &[char]) -> (r: bool)
    ensures
        r == mount_before(a@, b@),
{
    let ca = path_components_exec(a);
    let cb = path_components_exec(b);
    let ra: u8 = if ca.len() == 1 && matches!(ca[0], PathComponent::RootDir) {
        0
    } else {
        1
    };
    let rb: u8 = if cb.len() == 1 && matches!(cb[0], PathComponent::RootDir) {
        0
    } else {
        1
    };
    proof {
        let cav = comps_view(ca@);
        let cbv = comps_view(cb@);
        if ca@.len() == 1 {
            assert(cav[0] == ca@[0]@);
        }
        if cb@.len() == 1 {
            assert(cbv[0] == cb@[0]@);
        }
        assert(ra as int == root_rank(cav));
        assert(rb as int == root_rank(cbv));
    }
    if ra != rb {
        ra < rb
    } else if ca.len() != cb.len() {
        ca.len() < cb.len()
    } else {
        comps_lt_exec(&ca, &cb)
    }
}

/// Whether two paths are the same path (`Path` equality: the same components).
pub open spec fn same_path(a: Seq<char>, b: Seq<char>) -> bool {
    path_components(a) == path_components(b)
}

/// Whether two paths have the same components.
pub fn same_path_exec(a: &[char], b: &[char]) -> (r: bool)
    ensures
        r == same_path(a@, b@),
{
    let ca = path_components_exec(a);
    let cb = path_components_exec(b);
    if ca.len() != cb.len() {
        proof {
            assert(comps_view(ca@).len() != comps_view(cb@).len());
            assert(path_components(a@).len() != path_components(b@).len());
            assert(!same_path(a@, b@));
        }
        return false;
    }
    let ghost av = comps_view(ca@);
    let ghost bv = comps_view(cb@);
    let mut i: usize = 0;
    while i < ca.len()
        invariant
            av == comps_view(ca@),
            bv == comps_view(cb@),
            av == path_components(a@),
            bv == path_components(b@),
            ca@.len() == cb@.len(),
            i <= ca@.len(),
            forall|j: int| 0 <= j < i ==> av[j] == bv[j],
        decreases ca@.len() - i,
    {
        if !comp_eq_exec(&ca[i], &cb[i]) {
            proof {
                assert(av[i as int] != bv[i as int]);
            }
            return false;
        }
        i = i + 1;
    }
    proof {
        assert(av =~= bv);
    }
    true
}

// ───────────────────────── mount targets ─────────────────────────

/// A partition to mount at a mount point, with mount options.
#[derive(Debug, Clone, Default)]
pub struct MountTarget {
    /// Position of the row that shows this target.
    pub index: usize,
    pub partition: String,
    pub mountpoint: String,
    pub options: String,
}

impl Ordered for MountTarget {
    open spec fn before(a: Self, b: Self) -> bool {
        mount_before(a.mountpoint@, b.mountpoint@)
    }

    proof fn lemma_asym(a: Self, b: Self) {
        lemma_mount_before_asym(a.mountpoint@, b.mountpoint@);
    }

    proof fn lemma_before_not_after(x: Self, a: Self, b: Self) {
        lemma_mount_before_not_after(x.mountpoint@, a.mountpoint@, b.mountpoint@);
    }

    fn is_before(&self, other: &Self) -> (r: bool) {
        let a = chars_of(self.mountpoint.as_str());
        let b = chars_of(other.mountpoint.as_str());
        mount_before_exec(&a, &b)
    }
}

/// The text of a mount target's row: `mountpoint ← partition`, and the
/// options in brackets when there are any.
pub open spec fn row_label(t: MountTarget) -> Seq<char> {
    t.mountpoint@ + seq![' ', '←', ' '] + t.partition@ + if t.options@.len() == 0 {
        Seq::empty()
    } else {
        seq![' ', '['] + t.options@ + seq![']']
    }
}

impl MountTarget {
    /// The text of the row that shows this target.
    pub fn label(&self) -> (r: String)
        ensures
            r@ == row_label(*self),
    {
        let mut s = String::new();
        push_chars(&mut s, &chars_of(self.mountpoint.as_str()));
        s.push(' ');
        s.push('←');
        s.push(' ');
        push_chars(&mut s, &chars_of(self.partition.as_str()));
        let opts = chars_of(self.options.as_str());
        if opts.len() > 0 {
            s.push(' ');
            s.push('[');
            push_chars(&mut s, &opts);
            s.push(']');
        }
        proof {
            assert(s@ =~= row_label(*self));
        }
        s
    }

    /// The row at `removed` was removed: a later row moves up by one.
    pub fn removed(&mut self, removed: usize)
        ensures
            final(self).index == if old(self).index > removed {
                (old(self).index - 1) as usize
            } else {
                old(self).index
            },
            final(self).partition == old(self).partition,
            final(self).mountpoint == old(self).mountpoint,
            final(self).options == old(self).options,
    {
        if self.index > removed {
            self.index = self.index - 1;
        }
    }
}

/// The mount targets of a custom installation.
#[derive(Debug, Clone, Default)]
pub struct MountTargets(pub Vec<MountTarget>);

/// The partition of the first target mounted at `path`, if any.
pub open spec fn partition_at(ts: Seq<MountTarget>, path: Seq<char>) -> Option<Seq<char>>
    decreases ts.len(),
{
    if ts.len() == 0 {
        None
    } else if same_path(ts[0].mountpoint@, path) {
        Some(ts[0].partition@)
    } else {
        partition_at(ts.drop_first(), path)
    }
}

impl MountTargets {
    /// Sort mounts by mountpoint and depth: the root first, then fewer
    /// components first, then by path; targets with the same mount point keep
    /// their order (the sort is stable).
    pub fn sort_mounts(&mut self)
        ensures
            final(self).0@.to_multiset() == old(self).0@.to_multiset(),
            crate::order::sorted_by(final(self).0@),
            forall|z: MountTarget| #[trigger] crate::order::class_of(final(self).0@, z) == crate::order::class_of(
                old(self).0@,
                z,
            ),
    {
        let mut v: Vec<MountTarget> = Vec::new();
        std::mem::swap(&mut v, &mut self.0);
        self.0 = insertion_sort(v);
    }

    /// The partition mounted at `path` (compared as paths), the first one if
    /// several are.
    pub fn partition_for(&self, path: &str) -> (r: Option<String>)
        ensures
            match r {
                Some(p) => partition_at(self.0@, path@) == Some(p@),
                None => partition_at(self.0@, path@) is None,
            },
    {
        let want = chars_of(path);
        let mut i: usize = 0;
        proof {
            assert(self.0@.skip(0) =~= self.0@);
        }
        while i < self.0.len()
            invariant
                i <= self.0@.len(),
                want@ == path@,
                partition_at(self.0@.skip(i as int), path@) == partition_at(self.0@, path@),
            decreases self.0@.len() - i,
        {
            let mp = chars_of(self.0[i].mountpoint.as_str());
            proof {
                assert(self.0@.skip(i as int)[0] == self.0@[i as int]);
                assert(self.0@.skip(i as int).drop_first() =~= self.0@.skip(i + 1));
            }
            if same_path_exec(&mp, &want) {
                return Some(self.0[i].partition.clone());
            }
            i = i + 1;
        }
        None
    }

    /// The ESP: the partition mounted at `/boot/efi`.
    pub fn efi_partition(&self) -> (r: Option<String>)
        ensures
            match r {
                Some(p) => partition_at(self.0@, "/boot/efi"@) == Some(p@),
                None => partition_at(self.0@, "/boot/efi"@) is None,
            },
    {
        self.partition_for("/boot/efi")
    }

    /// The XBOOTLDR partition: the one mounted at `/boot`.
    pub fn xbootldr_partition(&self) -> (r: Result<String, String>)
        ensures
            match r {
                Ok(p) => partition_at(self.0@, "/boot"@) == Some(p@),
                Err(e) => partition_at(self.0@, "/boot"@) is None && e@ == "cannot find xbootldr partition"@,
            },
    {
        match self.partition_for("/boot") {
            Some(p) => Ok(p),
            None => Err(crate::text::owned("cannot find xbootldr partition")),
        }
    }
}


/// A mount target as plain values: row, partition, mount point, options.
pub open spec fn target_view(t: MountTarget) -> (usize, Seq<char>, Seq<char>, Seq<char>) {
    (t.index, t.partition@, t.mountpoint@, t.options@)
}

/// The mount targets as plain values, in order.
pub open spec fn targets_view(ts: Seq<MountTarget>) -> Seq<(usize, Seq<char>, Seq<char>, Seq<char>)> {
    ts.map_values(|t: MountTarget| target_view(t))
}

impl MountTargets {
    /// A copy of the targets.
    pub fn duplicate(&self) -> (r: Self)
        ensures
            targets_view(r.0@) == targets_view(self.0@),
    {
        let mut v: Vec<MountTarget> = Vec::new();
        let mut i: usize = 0;
        while i < self.0.len()
            invariant
                i <= self.0@.len(),
                targets_view(v@) == targets_view(self.0@.take(i as int)),
            decreases self.0@.len() - i,
        {
            let t = &self.0[i];
            let ghost v0 = v@;
            v.push(
                MountTarget {
                    index: t.index,
                    partition: t.partition.clone(),
                    mountpoint: t.mountpoint.clone(),
                    options: t.options.clone(),
                },
            );
            proof {
                assert(v@ =~= v0.push(v@.last()));
                assert(target_view(v@.last()) == target_view(*t));
                assert(targets_view(v@) =~= targets_view(v0).push(target_view(*t)));
                assert(self.0@.take(i + 1) =~= self.0@.take(i as int).push(*t));
                assert(targets_view(self.0@.take(i + 1)) =~= targets_view(self.0@.take(i as int)).push(target_view(*t)));
            }
            i = i + 1;
        }
        proof {
            assert(self.0@.take(self.0@.len() as int) =~= self.0@);
        }
        MountTargets(v)
    }
}


/// Sorted mount targets are mounted closer to the root first: the root
/// before everything else, and never a deeper path before a shallower one.
pub proof fn lemma_sorted_mounts_depth(s: Seq<MountTarget>, i: int, j: int)
    requires
        crate::order::sorted_by(s),
        0 <= i < j < s.len(),
    ensures
        root_rank(path_components(s[i].mountpoint@)) <= root_rank(path_components(s[j].mountpoint@)),
        root_rank(path_components(s[i].mountpoint@)) == root_rank(path_components(s[j].mountpoint@))
            ==> path_components(s[i].mountpoint@).len() <= path_components(s[j].mountpoint@).len(),
{
    assert(!MountTarget::before(s[j], s[i]));
}

} // verus!
