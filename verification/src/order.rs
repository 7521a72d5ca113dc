//! A stable insertion sort for any order that compares by a key.
use vstd::prelude::*;

verus! {

broadcast use vstd::seq_lib::group_to_multiset_ensures;

/// A strict weak order: `before(a, b)` when `a` must come first.
pub trait Ordered: Sized {
    spec fn before(a: Self, b: Self) -> bool;

    /// Nothing comes before itself, and the order is not circular.
    proof fn lemma_asym(a: Self, b: Self)
        requires
            Self::before(a, b),
        ensures
            !Self::before(b, a),
    ;

    /// `x` before `a`, and `a` not after `b`, puts `x` before `b`.
    proof fn lemma_before_not_after(x: Self, a: Self, b: Self)
        requires
            Self::before(x, a),
            !Self::before(b, a),
        ensures
            Self::before(x, b),
    ;

    fn is_before(&self, other: &Self) -> (r: bool)
        ensures
            r == Self::before(*self, *other),
    ;
}

/// No element comes before an earlier one.
pub open spec fn sorted_by<T: Ordered>(s: Seq<T>) -> bool {
    forall|i: int, j: int| 0 <= i < j < s.len() ==> !T::before(#[trigger] s[j], #[trigger] s[i])
}

/// Neither comes before the other: `a` and `b` have equal keys.
pub open spec fn equiv<T: Ordered>(a: T, b: T) -> bool {
    !T::before(a, b) && !T::before(b, a)
}

/// The elements of `s` with the key of `z`, in their order in `s`.
pub open spec fn class_of<T: Ordered>(s: Seq<T>, z: T) -> Seq<T>
    decreases s.len(),
{
    if s.len() == 0 {
        Seq::empty()
    } else {
        let r = class_of(s.drop_last(), z);
        if equiv(s.last(), z) {
            r.push(s.last())
        } else {
            r
        }
    }
}

/// Equal keys are an equivalence: what has the key of `b` has that of
/// everything with the key of `b`.
pub proof fn lemma_equiv_trans<T: Ordered>(a: T, b: T, c: T)
    requires
        equiv(a, b),
        equiv(b, c),
    ensures
        equiv(a, c),
{
    if T::before(a, c) {
        T::lemma_before_not_after(a, c, b);
    }
    if T::before(c, a) {
        T::lemma_before_not_after(c, a, b);
    }
}

proof fn lemma_class_concat<T: Ordered>(a: Seq<T>, b: Seq<T>, z: T)
    ensures
        class_of(a + b, z) == class_of(a, z) + class_of(b, z),
    decreases b.len(),
{
    if b.len() == 0 {
        assert(a + b =~= a);
        assert(class_of(a, z) + class_of(b, z) =~= class_of(a, z));
    } else {
        assert((a + b).drop_last() =~= a + b.drop_last());
        assert((a + b).last() == b.last());
        lemma_class_concat(a, b.drop_last(), z);
        assert(class_of(a + b, z) =~= class_of(a, z) + class_of(b, z));
    }
}

proof fn lemma_class_none<T: Ordered>(a: Seq<T>, z: T)
    requires
        forall|i: int| 0 <= i < a.len() ==> !equiv(#[trigger] a[i], z),
    ensures
        class_of(a, z) == Seq::<T>::empty(),
    decreases a.len(),
{
    if a.len() > 0 {
        assert forall|i: int| 0 <= i < a.drop_last().len() implies !equiv(#[trigger] a.drop_last()[i], z) by {
            assert(a.drop_last()[i] == a[i]);
        }
        lemma_class_none(a.drop_last(), z);
        assert(!equiv(a[a.len() - 1], z));
    }
}

proof fn lemma_class_one<T: Ordered>(x: T, z: T)
    ensures
        class_of(seq![x], z) == (if equiv(x, z) { seq![x] } else { Seq::<T>::empty() }),
{
    let one = seq![x];
    assert(one.drop_last() =~= Seq::<T>::empty());
    assert(class_of(one.drop_last(), z) == Seq::<T>::empty());
    assert(one.last() == x);
    if equiv(x, z) {
        assert(class_of(one, z) =~= seq![x]);
    }
}

/// Inserting `x` after every element it is not before, in a sorted
/// sequence, puts it last among the elements with its key.
proof fn lemma_class_insert<T: Ordered>(r: Seq<T>, x: T, k: int, z: T)
    requires
        sorted_by(r),
        0 <= k <= r.len(),
        forall|j: int| 0 <= j < k ==> !T::before(x, #[trigger] r[j]),
        k < r.len() ==> T::before(x, r[k]),
    ensures
        class_of(r.insert(k, x), z) == (if equiv(x, z) { class_of(r, z).push(x) } else { class_of(r, z) }),
{
    let a = r.take(k);
    let b = r.skip(k);
    assert(r =~= a + b);
    assert(r.insert(k, x) =~= a + seq![x] + b);
    lemma_class_concat(a, b, z);
    lemma_class_concat(a + seq![x], b, z);
    lemma_class_concat(a, seq![x], z);
    lemma_class_one(x, z);
    if equiv(x, z) {
        assert forall|i: int| 0 <= i < b.len() implies !equiv(#[trigger] b[i], z) by {
            assert(b[i] == r[k + i]);
            if i > 0 {
                assert(!T::before(r[k + i], r[k]));
                T::lemma_before_not_after(x, r[k], r[k + i]);
            }
            if equiv(r[k + i], z) {
                lemma_equiv_trans(r[k + i], z, x);
            }
        }
        lemma_class_none(b, z);
        assert(class_of(r.insert(k, x), z) =~= class_of(r, z).push(x));
    } else {
        assert(class_of(r.insert(k, x), z) =~= class_of(r, z));
    }
}

proof fn lemma_class_push<T: Ordered>(s: Seq<T>, x: T, z: T)
    ensures
        class_of(s.push(x), z) == (if equiv(x, z) { class_of(s, z).push(x) } else { class_of(s, z) }),
{
    assert(s.push(x).drop_last() =~= s);
}

/// Sorts `v` so that no element comes before an earlier one, keeping the
/// elements; elements with equal keys keep their order in `v` (the sort is
/// stable).
pub fn insertion_sort<T: Ordered>(v: Vec<T>) -> (r: Vec<T>)
    ensures
        r@.to_multiset() == v@.to_multiset(),
        sorted_by(r@),
        forall|z: T| #[trigger] class_of(r@, z) == class_of(v@, z),
{
    let mut r: Vec<T> = Vec::new();
    let mut rest = v;
    let ghost orig = rest@;
    let mut taken: usize = 0;
    proof {
        assert(orig.take(0) =~= Seq::<T>::empty());
        assert(rest@.skip(0) =~= rest@);
    }
    let n = rest.len();
    let mut src: Vec<T> = Vec::new();
    // move the elements out in reverse so that `pop` yields them in order
    while rest.len() > 0
        invariant
            src@ + rest@.reverse() == orig.reverse(),
            rest@.len() + src@.len() == n,
            n == orig.len(),
        decreases rest@.len(),
    {
        let ghost r0 = rest@;
        let ghost s0 = src@;
        let x = rest.pop().unwrap();
        src.push(x);
        proof {
            assert(r0 == rest@.push(x));
            assert(r0.reverse() =~= seq![x] + rest@.reverse());
            assert(src@ + rest@.reverse() =~= s0 + r0.reverse());
        }
    }
    proof {
        assert(rest@.reverse() =~= Seq::<T>::empty());
        assert(src@ =~= orig.reverse());
    }
    while src.len() > 0
        invariant
            taken + src@.len() == n,
            n == orig.len(),
            src@ == orig.skip(taken as int).reverse(),
            r@.to_multiset() == orig.take(taken as int).to_multiset(),
            sorted_by(r@),
            forall|z: T| #[trigger] class_of(r@, z) == class_of(orig.take(taken as int), z),
        decreases src@.len(),
    {
        let ghost s0 = src@;
        let x = src.pop().unwrap();
        proof {
            assert(s0 == src@.push(x));
            let t = orig.skip(taken as int);
            assert(t.reverse() == src@.push(x));
            assert(x == t[0]) by {
                assert(t.reverse()[t.len() - 1] == t[0]);
            }
            assert(src@ =~= orig.skip(taken + 1).reverse()) by {
                assert forall|i: int| 0 <= i < src@.len() implies src@[i] == orig.skip(
                    taken + 1,
                ).reverse()[i] by {
                    assert(src@[i] == t.reverse()[i]);
                }
            }
            assert(orig.take(taken + 1) =~= orig.take(taken as int).push(x));
        }
        let k = insert_pos(&r, &x);
        let ghost r0 = r@;
        let ghost xg = x;
        r.insert(k, x);
        proof {
            assert forall|z: T| #[trigger] class_of(r@, z) == class_of(orig.take(taken + 1), z) by {
                lemma_class_insert(r0, xg, k as int, z);
                lemma_class_push(orig.take(taken as int), xg, z);
            }
            lemma_insert_sorted(r0, x, k as int);
            vstd::seq_lib::to_multiset_insert(r0, k as int, x);
            vstd::seq_lib::to_multiset_build(orig.take(taken as int), x);
        }
        taken = taken + 1;
    }
    proof {
        assert(orig.take(n as int) =~= orig);
    }
    r
}

/// The position after every element that `x` is not before.
fn insert_pos<T: Ordered>(r: &Vec<T>, x: &T) -> (k: usize)
    ensures
        k <= r@.len(),
        forall|j: int| 0 <= j < k ==> !T::before(*x, #[trigger] r@[j]),
        k < r@.len() ==> T::before(*x, r@[k as int]),
{
    let mut k: usize = 0;
    while k < r.len()
        invariant
            k <= r@.len(),
            forall|j: int| 0 <= j < k ==> !T::before(*x, #[trigger] r@[j]),
        decreases r@.len() - k,
    {
        if x.is_before(&r[k]) {
            return k;
        }
        k = k + 1;
    }
    k
}

proof fn lemma_insert_sorted<T: Ordered>(r: Seq<T>, x: T, k: int)
    requires
        sorted_by(r),
        0 <= k <= r.len(),
        forall|j: int| 0 <= j < k ==> !T::before(x, #[trigger] r[j]),
        k < r.len() ==> T::before(x, r[k]),
    ensures
        sorted_by(r.insert(k, x)),
{
    let s = r.insert(k, x);
    assert forall|i: int, j: int| 0 <= i < j < s.len() implies !T::before(
        #[trigger] s[j],
        #[trigger] s[i],
    ) by {
        if i == k {
            // s[j] == r[j - 1], which is not before r[k], and x is before r[k]
            let y = r[j - 1];
            assert(s[j] == y);
            if j - 1 > k {
                assert(!T::before(y, r[k]));
                T::lemma_before_not_after(x, r[k], y);
            } else {
                assert(j - 1 == k);
            }
            T::lemma_asym(x, y);
        } else if j == k {
            assert(s[i] == r[i]);
        } else if i < k && j < k {
            assert(s[i] == r[i] && s[j] == r[j]);
        } else if i < k {
            assert(s[i] == r[i] && s[j] == r[j - 1]);
        } else {
            assert(s[i] == r[i - 1] && s[j] == r[j - 1]);
        }
    }
}

} // verus!
