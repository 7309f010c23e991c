//! Intersections in the order of their distance.
//!
//! The order is that of a stable sort: by ascending distance, and among
//! equal distances as given. It is said by [`by_distance`], which puts one
//! intersection after another into place, and shown to be ascending and to
//! hold what was given.
use vstd::prelude::*;
use crate::geometry::Intersection;
use crate::scalar::{at_most, ordered, Scalar};

verus! {

/// `x` put into `s` in front of the first intersection that is farther
/// away than `x`, so behind those at the same distance.
pub open spec fn inserted<S: Scalar>(s: Seq<Intersection<S>>, x: Intersection<S>) -> Seq<
    Intersection<S>,
>
    decreases s.len(),
{
    if s.len() == 0 {
        seq![x]
    } else if x.dist.below(s[0].dist) {
        seq![x] + s
    } else {
        seq![s[0]] + inserted(s.drop_first(), x)
    }
}

/// The first `n` intersections of `v`, each put in turn into those before
/// it: by ascending distance, those at the same distance in the order given.
pub open spec fn by_distance<S: Scalar>(v: Seq<Intersection<S>>, n: nat) -> Seq<Intersection<S>>
    decreases n,
{
    if n == 0 {
        Seq::empty()
    } else {
        inserted(by_distance(v, (n - 1) as nat), v[n - 1])
    }
}

/// No intersection is farther away than a later one.
pub open spec fn is_ascending<S: Scalar>(s: Seq<Intersection<S>>) -> bool {
    forall|i: int, j: int| 0 <= i < j < s.len() ==> at_most(#[trigger] s[i].dist, #[trigger] s[j].dist)
}

/// Every distance compares.
pub open spec fn all_ordered<S: Scalar>(s: Seq<Intersection<S>>) -> bool {
    forall|i: int| 0 <= i < s.len() ==> ordered(#[trigger] s[i].dist)
}

/// Putting `x` in at the place that a scan from the front finds is
/// `inserted`.
proof fn lemma_inserted_at<S: Scalar>(s: Seq<Intersection<S>>, x: Intersection<S>, p: int)
    requires
        0 <= p <= s.len(),
        forall|i: int| 0 <= i < p ==> !x.dist.below(#[trigger] s[i].dist),
        p < s.len() ==> x.dist.below(s[p].dist),
    ensures
        inserted(s, x) == s.insert(p, x),
    decreases s.len(),
{
    if s.len() == 0 {
        assert(seq![x] =~= s.insert(p, x));
    } else if p == 0 {
        assert(seq![x] + s =~= s.insert(p, x));
    } else {
        let rest = s.drop_first();
        assert forall|i: int| 0 <= i < p - 1 implies !x.dist.below(#[trigger] rest[i].dist) by {
            assert(rest[i] == s[i + 1]);
        }
        lemma_inserted_at(rest, x, p - 1);
        assert(seq![s[0]] + rest.insert(p - 1, x) =~= s.insert(p, x));
    }
}

/// Putting an ordered `x` into an ascending sequence at that place leaves
/// it ascending.
proof fn lemma_insert_ascending<S: Scalar>(s: Seq<Intersection<S>>, x: Intersection<S>, p: int)
    requires
        0 <= p <= s.len(),
        forall|i: int| 0 <= i < p ==> !x.dist.below(#[trigger] s[i].dist),
        p < s.len() ==> x.dist.below(s[p].dist),
        is_ascending(s),
        all_ordered(s),
        ordered(x.dist),
    ensures
        is_ascending(s.insert(p, x)),
        all_ordered(s.insert(p, x)),
{
    let t = s.insert(p, x);
    assert forall|i: int, j: int| 0 <= i < j < t.len() implies at_most(
        #[trigger] t[i].dist,
        #[trigger] t[j].dist,
    ) by {
        if j == p {
            assert(t[i] == s[i]);
            S::law_connected(s[i].dist, x.dist);
            S::law_exclusive(x.dist, s[i].dist);
        } else if i == p {
            assert(t[j] == s[j - 1]);
            if j - 1 > p {
                assert(at_most(s[p].dist, s[j - 1].dist));
            } else {
                assert(s[p].dist.same(s[p].dist));
            }
            S::law_transitive(x.dist, s[p].dist, s[j - 1].dist);
        } else {
            let a = if i < p {
                i
            } else {
                i - 1
            };
            let b = if j < p {
                j
            } else {
                j - 1
            };
            assert(t[i] == s[a] && t[j] == s[b]);
        }
    }
    assert forall|i: int| 0 <= i < t.len() implies ordered(#[trigger] t[i].dist) by {
        if i < p {
            assert(t[i] == s[i]);
        } else if i > p {
            assert(t[i] == s[i - 1]);
        }
    }
}

/// Putting `x` in adds `x` to what the sequence holds and nothing else.
proof fn lemma_insert_holds<S: Scalar>(s: Seq<Intersection<S>>, x: Intersection<S>, p: int)
    requires
        0 <= p <= s.len(),
    ensures
        s.insert(p, x).to_multiset() == s.to_multiset().insert(x),
{
    let t = s.insert(p, x);
    broadcast use vstd::seq_lib::group_to_multiset_ensures;

    assert(t.remove(p) =~= s);
    assert(t[p] == x);
    assert(t.contains(x));
    assert(t.to_multiset().remove(x).insert(x) =~= t.to_multiset());
}

/// `inserted` adds `x` to what the sequence holds and nothing else.
proof fn lemma_inserted_holds<S: Scalar>(s: Seq<Intersection<S>>, x: Intersection<S>)
    ensures
        inserted(s, x).to_multiset() == s.to_multiset().insert(x),
    decreases s.len(),
{
    if s.len() == 0 {
        assert(seq![x] =~= s.insert(0, x));
        lemma_insert_holds(s, x, 0);
    } else if x.dist.below(s[0].dist) {
        assert(seq![x] + s =~= s.insert(0, x));
        lemma_insert_holds(s, x, 0);
    } else {
        let rest = s.drop_first();
        let put = inserted(rest, x);
        lemma_inserted_holds(rest, x);
        assert(seq![s[0]] + put =~= put.insert(0, s[0]));
        lemma_insert_holds(put, s[0], 0);
        assert(s =~= rest.insert(0, s[0]));
        lemma_insert_holds(rest, s[0], 0);
        assert(rest.to_multiset().insert(x).insert(s[0]) =~= rest.to_multiset().insert(s[0]).insert(x));
    }
}

/// Ordering by distance keeps what the sequence holds.
pub proof fn lemma_by_distance_holds<S: Scalar>(v: Seq<Intersection<S>>, n: nat)
    requires
        n <= v.len(),
    ensures
        by_distance(v, n).to_multiset() == v.take(n as int).to_multiset(),
    decreases n,
{
    broadcast use vstd::seq_lib::group_to_multiset_ensures;

    if n == 0 {
        assert(v.take(0) =~= Seq::empty());
    } else {
        lemma_by_distance_holds(v, (n - 1) as nat);
        lemma_inserted_holds(by_distance(v, (n - 1) as nat), v[n - 1]);
        assert(v.take(n as int) =~= v.take(n - 1).push(v[n - 1]));
    }
}

/// The place where `inserted` puts `x`: that of the first intersection
/// farther away than `x`, or the end.
pub open spec fn place<S: Scalar>(s: Seq<Intersection<S>>, x: Intersection<S>) -> int
    decreases s.len(),
{
    if s.len() == 0 || x.dist.below(s[0].dist) {
        0
    } else {
        1 + place(s.drop_first(), x)
    }
}

proof fn lemma_place<S: Scalar>(s: Seq<Intersection<S>>, x: Intersection<S>)
    ensures
        0 <= place(s, x) <= s.len(),
        forall|i: int| 0 <= i < place(s, x) ==> !x.dist.below(#[trigger] s[i].dist),
        place(s, x) < s.len() ==> x.dist.below(s[place(s, x)].dist),
    decreases s.len(),
{
    if s.len() == 0 || x.dist.below(s[0].dist) {
    } else {
        let rest = s.drop_first();
        lemma_place(rest, x);
        assert forall|i: int| 0 <= i < place(s, x) implies !x.dist.below(#[trigger] s[i].dist) by {
            if i > 0 {
                assert(s[i] == rest[i - 1]);
            }
        }
    }
}

/// Ordering by distance leaves no intersection farther away than a later
/// one, where every distance compares.
pub proof fn lemma_by_distance_ascends<S: Scalar>(v: Seq<Intersection<S>>, n: nat)
    requires
        n <= v.len(),
        all_ordered(v),
    ensures
        is_ascending(by_distance(v, n)),
        all_ordered(by_distance(v, n)),
    decreases n,
{
    if n > 0 {
        let before = by_distance(v, (n - 1) as nat);
        lemma_by_distance_ascends(v, (n - 1) as nat);
        lemma_place(before, v[n - 1]);
        lemma_inserted_at(before, v[n - 1], place(before, v[n - 1]));
        lemma_insert_ascending(before, v[n - 1], place(before, v[n - 1]));
    }
}

/// Two sequences that hold the same hold the same members.
pub proof fn lemma_same_members<S: Scalar>(a: Seq<Intersection<S>>, b: Seq<Intersection<S>>)
    requires
        a.to_multiset() == b.to_multiset(),
    ensures
        forall|x: Intersection<S>| a.contains(x) <==> b.contains(x),
{
    broadcast use vstd::seq_lib::group_to_multiset_ensures;

    assert forall|x: Intersection<S>| a.contains(x) <==> b.contains(x) by {
        assert(a.contains(x) <==> a.to_multiset().count(x) > 0);
        assert(b.contains(x) <==> b.to_multiset().count(x) > 0);
    }
}

/// The intersections by ascending distance; those at the same distance
/// keep their order. Where every distance compares, no intersection of the
/// result is farther away than a later one.
pub fn sort_by_distance<S: Scalar>(v: Vec<Intersection<S>>) -> (r: Vec<Intersection<S>>)
    ensures
        r@ == by_distance(v@, v@.len()),
        r@.len() == v@.len(),
        r@.to_multiset() == v@.to_multiset(),
        all_ordered(v@) ==> is_ascending(r@),
{
    let mut out: Vec<Intersection<S>> = Vec::new();
    let mut k: usize = 0;
    proof {
        assert(v@.take(0) =~= Seq::empty());
    }
    while k < v.len()
        invariant
            k <= v@.len(),
            out@ == by_distance(v@, k as nat),
            out@.len() == k,
            out@.to_multiset() == v@.take(k as int).to_multiset(),
            all_ordered(v@) ==> is_ascending(out@) && all_ordered(out@),
        decreases v@.len() - k,
    {
        let x = v[k];
        let mut p: usize = 0;
        while p < out.len() && !x.dist.lt(out[p].dist)
            invariant
                p <= out@.len(),
                forall|i: int| 0 <= i < p ==> !x.dist.below(#[trigger] out@[i].dist),
            decreases out@.len() - p,
        {
            p += 1;
        }
        proof {
            lemma_inserted_at(out@, x, p as int);
            lemma_insert_holds(out@, x, p as int);
            if all_ordered(v@) {
                lemma_insert_ascending(out@, x, p as int);
            }
            broadcast use vstd::seq_lib::group_to_multiset_ensures;

            assert(v@.take(k as int + 1) =~= v@.take(k as int).push(x));
        }
        out.insert(p, x);
        k += 1;
    }
    proof {
        assert(v@.take(v@.len() as int) =~= v@);
    }
    out
}

} // verus!
