//! Stable insertion sort over a two-part integer key, shared by the tempo
//! map builder (sync events by tick) and the MIDI reducer (notes by tick,
//! then pitch).

use vstd::prelude::*;

verus! {

/// Items that sort by a pair of integer keys, compared lexicographically.
pub trait SortKey: Sized {
    /// The sort key of this item.
    spec fn key(&self) -> (u64, u64);

    /// Executable comparison agreeing with `key_le` on the spec keys.
    fn sort_le(&self, other: &Self) -> (r: bool)
        ensures
            r == key_le(self.key(), other.key()),
    ;
}

/// Lexicographic order on key pairs.
pub open spec fn key_le(a: (u64, u64), b: (u64, u64)) -> bool {
    a.0 < b.0 || (a.0 == b.0 && a.1 <= b.1)
}

/// `x` placed after every element of `s` whose key is less than or equal
/// to `x`'s: the position a stable sort gives to a newly arrived `x`.
pub open spec fn stable_insert<T: SortKey>(s: Seq<T>, x: T) -> Seq<T>
    decreases s.len(),
{
    if s.len() == 0 {
        seq![x]
    } else if key_le(s.last().key(), x.key()) {
        s.push(x)
    } else {
        stable_insert(s.drop_last(), x).push(s.last())
    }
}

/// The stable sort of `s` by `key`: elements inserted left to right.
pub open spec fn sort_spec<T: SortKey>(s: Seq<T>) -> Seq<T>
    decreases s.len(),
{
    if s.len() == 0 {
        Seq::<T>::empty()
    } else {
        stable_insert(sort_spec(s.drop_last()), s.last())
    }
}

/// Keys appear in non-decreasing order.
pub open spec fn sorted_by_key<T: SortKey>(s: Seq<T>) -> bool {
    forall|i: int, j: int| 0 <= i <= j < s.len() ==> key_le(#[trigger] s[i].key(), #[trigger] s[j].key())
}

proof fn lemma_stable_insert_props<T: SortKey>(s: Seq<T>, x: T)
    requires
        sorted_by_key(s),
    ensures
        stable_insert(s, x).len() == s.len() + 1,
        sorted_by_key(stable_insert(s, x)),
        stable_insert(s, x).to_multiset() == s.push(x).to_multiset(),
        forall|y: T| stable_insert(s, x).contains(y) ==> s.contains(y) || y == x,
    decreases s.len(),
{
    let r = stable_insert(s, x);
    if s.len() == 0 {
        assert(r =~= seq![x]);
        assert(s.push(x) =~= seq![x]);
        assert(forall|y: T| r.contains(y) ==> y == x);
    } else if key_le(s.last().key(), x.key()) {
        assert(r == s.push(x));
        assert forall|i: int, j: int| 0 <= i <= j < r.len() implies key_le(
            #[trigger] r[i].key(),
            #[trigger] r[j].key(),
        ) by {
            if j < s.len() {
                assert(key_le(s[i].key(), s[j].key()));
            } else if i < s.len() {
                assert(key_le(s[i].key(), s.last().key()));
            }
        }
        assert(forall|y: T| r.contains(y) ==> s.contains(y) || y == x) by {
            assert forall|y: T| r.contains(y) implies s.contains(y) || y == x by {
                let k = choose|k: int| 0 <= k < r.len() && r[k] == y;
                if k < s.len() {
                    assert(s.contains(y));
                }
            }
        }
    } else {
        let s0 = s.drop_last();
        assert(sorted_by_key(s0)) by {
            assert(forall|i: int, j: int|
                0 <= i <= j < s0.len() ==> key_le(#[trigger] s0[i].key(), #[trigger] s0[j].key()));
        }
        lemma_stable_insert_props(s0, x);
        let r0 = stable_insert(s0, x);
        assert(r == r0.push(s.last()));
        // sortedness: every element of r0 is either from s0 (key <= last's key)
        // or x itself (key < last's key here).
        assert forall|i: int, j: int| 0 <= i <= j < r.len() implies key_le(
            #[trigger] r[i].key(),
            #[trigger] r[j].key(),
        ) by {
            if j < r0.len() {
                assert(key_le(r0[i].key(), r0[j].key()));
            } else if i < r0.len() {
                // r[j] is s.last(); show r0[i].key() <= s.last().key()
                assert(r0.contains(r0[i]));
                if s0.contains(r0[i]) {
                    let k = choose|k: int| 0 <= k < s0.len() && s0[k] == r0[i];
                    assert(s0[k] == s[k]);
                    assert(key_le(s[k].key(), s.last().key()));
                } else {
                    assert(r0[i] == x);
                    assert(!key_le(s.last().key(), x.key()));
                    assert(key_le(x.key(), s.last().key()));
                }
            }
        }
        // multiset equality
        assert(r.to_multiset() =~= s.push(x).to_multiset()) by {
            r0.to_multiset_ensures();
            s0.to_multiset_ensures();
            s.to_multiset_ensures();
            assert(s0.push(s.last()) =~= s);
            assert(r.to_multiset() == r0.to_multiset().insert(s.last()));
            assert(s.to_multiset() == s0.to_multiset().insert(s.last()));
            assert(s.push(x).to_multiset() == s.to_multiset().insert(x));
            assert(r0.to_multiset() == s0.push(x).to_multiset());
            assert(s0.push(x).to_multiset() == s0.to_multiset().insert(x));
            assert(s0.to_multiset().insert(x).insert(s.last()) =~= s0.to_multiset().insert(
                s.last(),
            ).insert(x));
        }
        assert forall|y: T| r.contains(y) implies s.contains(y) || y == x by {
            r.to_multiset_ensures();
            s.push(x).to_multiset_ensures();
            s.to_multiset_ensures();
            assert(r.to_multiset().count(y) > 0);
            assert(s.push(x).contains(y));
            if s.contains(y) {
            } else {
                assert(y == x) by {
                    let k = choose|k: int| 0 <= k < s.push(x).len() && s.push(x)[k] == y;
                    if k < s.len() {
                        assert(s[k] == y);
                    }
                }
            }
        }
    }
}

/// The stable sort keeps length and multiset of elements and orders keys.
pub proof fn lemma_sort_spec_props<T: SortKey>(s: Seq<T>)
    ensures
        sort_spec(s).len() == s.len(),
        sorted_by_key(sort_spec(s)),
        sort_spec(s).to_multiset() == s.to_multiset(),
        forall|y: T| sort_spec(s).contains(y) ==> s.contains(y),
    decreases s.len(),
{
    if s.len() == 0 {
        assert(s =~= Seq::<T>::empty());
        assert(sort_spec(s).to_multiset() == s.to_multiset());
    } else {
        let s0 = s.drop_last();
        lemma_sort_spec_props(s0);
        lemma_stable_insert_props(sort_spec(s0), s.last());
        sort_spec(s0).to_multiset_ensures();
        s0.to_multiset_ensures();
        s.to_multiset_ensures();
        assert(s0.push(s.last()) =~= s);
        assert(sort_spec(s).to_multiset() =~= s.to_multiset()) by {
            assert(sort_spec(s).to_multiset() == sort_spec(s0).push(s.last()).to_multiset());
            assert(sort_spec(s0).push(s.last()).to_multiset() == sort_spec(
                s0,
            ).to_multiset().insert(s.last()));
            assert(s.to_multiset() == s0.to_multiset().insert(s.last()));
        }
        assert forall|y: T| sort_spec(s).contains(y) implies s.contains(y) by {
            sort_spec(s).to_multiset_ensures();
            assert(sort_spec(s).to_multiset().count(y) > 0);
        }
    }
}

/// Characterizes `stable_insert` by the insertion position `j`.
proof fn lemma_stable_insert_at<T: SortKey>(s: Seq<T>, x: T, j: int)
    requires
        0 <= j <= s.len(),
        forall|k: int| j <= k < s.len() ==> !key_le(#[trigger] s[k].key(), x.key()),
        j > 0 ==> key_le(s[j - 1].key(), x.key()),
    ensures
        stable_insert(s, x) == s.subrange(0, j).push(x) + s.subrange(j, s.len() as int),
    decreases s.len(),
{
    if s.len() == 0 {
        assert(stable_insert(s, x) =~= s.subrange(0, j).push(x) + s.subrange(j, s.len() as int));
    } else if j == s.len() {
        assert(key_le(s.last().key(), x.key()));
        assert(stable_insert(s, x) == s.push(x));
        assert(s.push(x) =~= s.subrange(0, j).push(x) + s.subrange(j, s.len() as int));
    } else {
        assert(!key_le(s.last().key(), x.key()));
        let s0 = s.drop_last();
        lemma_stable_insert_at(s0, x, j);
        assert(stable_insert(s, x) == stable_insert(s0, x).push(s.last()));
        assert(stable_insert(s0, x).push(s.last()) =~= s.subrange(0, j).push(x) + s.subrange(
            j,
            s.len() as int,
        )) by {
            assert(s0.subrange(0, j) =~= s.subrange(0, j));
            assert(s0.subrange(j, s0.len() as int).push(s.last()) =~= s.subrange(
                j,
                s.len() as int,
            ));
        }
    }
}

/// Inserts `x` into the sorted vector `v` at its stable position.
fn sorted_insert<T: SortKey + Copy>(v: &mut Vec<T>, x: T)
    requires
        sorted_by_key(old(v)@),
    ensures
        final(v)@ == stable_insert(old(v)@, x),
{
    let ghost s = v@;
    let mut j: usize = v.len();
    while j > 0 && !(v[j - 1].sort_le(&x))
        invariant
            0 <= j <= v.len(),
            v@ == s,
            sorted_by_key(s),
            forall|k: int| j <= k < s.len() ==> !key_le(#[trigger] s[k].key(), x.key()),
        decreases j,
    {
        j = j - 1;
    }
    proof {
        lemma_stable_insert_at(s, x, j as int);
    }
    v.insert(j, x);
    proof {
        assert(v@ =~= s.subrange(0, j as int).push(x) + s.subrange(j as int, s.len() as int));
    }
}

/// Sorts `v` stably by each item's `key`; the result is exactly the
/// specification-level stable sort of the input.
pub fn stable_sort<T: SortKey + Copy>(v: &mut Vec<T>)
    ensures
        final(v)@ == sort_spec(old(v)@),
{
    let ghost s = v@;
    let mut out: Vec<T> = Vec::new();
    let mut i: usize = 0;
    while i < v.len()
        invariant
            0 <= i <= v.len(),
            v@ == s,
            out@ == sort_spec(s.take(i as int)),
            sorted_by_key(out@),
        decreases v.len() - i,
    {
        let ghost pre = s.take(i as int);
        sorted_insert(&mut out, v[i]);
        proof {
            assert(s.take(i as int + 1) =~= pre.push(s[i as int]));
            assert(s.take(i as int + 1).drop_last() =~= pre);
            lemma_sort_spec_props(s.take(i as int + 1));
            lemma_stable_insert_props(sort_spec(pre), s[i as int]);
        }
        i = i + 1;
    }
    proof {
        assert(s.take(s.len() as int) =~= s);
    }
    *v = out;
}

} // verus!
