//! Stable insertion sort, specified generically over a total preorder
//! given as a spec-level comparison. The extraction orchestrator and the
//! backup listing both sort with it.

use vstd::prelude::*;

verus! {

/// The comparison holds between every pair of elements in order.
pub open spec fn sorted_by<V>(s: Seq<V>, leq: spec_fn(V, V) -> bool) -> bool {
    forall|i: int, j: int| #![trigger s[i], s[j]] 0 <= i < j < s.len() ==> leq(s[i], s[j])
}

/// The comparison relates every pair of values, one way or the other.
pub open spec fn total_leq<V>(leq: spec_fn(V, V) -> bool) -> bool {
    forall|a: V, b: V| #[trigger] leq(a, b) || #[trigger] leq(b, a)
}

/// The comparison is transitive.
pub open spec fn trans_leq<V>(leq: spec_fn(V, V) -> bool) -> bool {
    forall|a: V, b: V, c: V| #[trigger] leq(a, b) && #[trigger] leq(b, c) ==> leq(a, c)
}

/// `x` inserted after every element below or equal to it: the position
/// that keeps a sort stable.
pub open spec fn insert_ordered<V>(r: Seq<V>, x: V, leq: spec_fn(V, V) -> bool) -> Seq<V>
    decreases r.len(),
{
    if r.len() == 0 {
        seq![x]
    } else if leq(r[0], x) {
        seq![r[0]] + insert_ordered(r.skip(1), x, leq)
    } else {
        seq![x] + r
    }
}

/// The stable sort of `s`: insert each element, in order, after its
/// equals.
pub open spec fn sort_by_spec<V>(s: Seq<V>, leq: spec_fn(V, V) -> bool) -> Seq<V>
    decreases s.len(),
{
    if s.len() == 0 {
        Seq::empty()
    } else {
        insert_ordered(sort_by_spec(s.drop_last(), leq), s.last(), leq)
    }
}

/// `insert_ordered` places `x` exactly at the first position whose
/// element is not below or equal to `x`.
pub proof fn lemma_insert_ordered_at<V>(r: Seq<V>, x: V, leq: spec_fn(V, V) -> bool, pos: int)
    requires
        0 <= pos <= r.len(),
        forall|i: int| 0 <= i < pos ==> leq(#[trigger] r[i], x),
        pos < r.len() ==> !leq(r[pos], x),
    ensures
        insert_ordered(r, x, leq) == r.take(pos) + seq![x] + r.skip(pos),
    decreases r.len(),
{
    if pos == 0 {
        if r.len() == 0 {
            assert(seq![x] =~= r.take(0) + seq![x] + r.skip(0));
        } else {
            assert(seq![x] + r =~= r.take(0) + seq![x] + r.skip(0));
        }
    } else {
        assert(leq(r[0], x));
        lemma_insert_ordered_at(r.skip(1), x, leq, pos - 1);
        assert(seq![r[0]] + (r.skip(1).take(pos - 1) + seq![x] + r.skip(1).skip(pos - 1)) =~= r.take(
            pos,
        ) + seq![x] + r.skip(pos));
    }
}

/// No element of `s` satisfies `p`, so the filter is empty.
proof fn lemma_filter_none<V>(s: Seq<V>, p: spec_fn(V) -> bool)
    requires
        forall|i: int| 0 <= i < s.len() ==> !p(#[trigger] s[i]),
    ensures
        s.filter(p) == Seq::<V>::empty(),
    decreases s.len(),
{
    reveal(Seq::filter);
    if s.len() > 0 {
        lemma_filter_none(s.drop_last(), p);
    }
}

/// The filter of a one-element sequence.
proof fn lemma_filter_singleton<V>(x: V, p: spec_fn(V) -> bool)
    ensures
        seq![x].filter(p) == if p(x) {
            seq![x]
        } else {
            Seq::<V>::empty()
        },
{
    reveal(Seq::filter);
    assert(seq![x].drop_last() =~= Seq::<V>::empty());
    lemma_filter_none(seq![x].drop_last(), p);
    assert(seq![x].last() == x);
    if p(x) {
        assert(Seq::<V>::empty().push(x) =~= seq![x]);
    }
}

/// Inserting preserves sortedness, and preserves the subsequence of any
/// class of mutually equal elements: `x` joins the end of its own class
/// and every other class is untouched.
pub proof fn lemma_insert_ordered_filter<V>(
    r: Seq<V>,
    x: V,
    leq: spec_fn(V, V) -> bool,
    p: spec_fn(V) -> bool,
)
    requires
        sorted_by(r, leq),
        total_leq(leq),
        trans_leq(leq),
        p(x) ==> forall|y: V| #[trigger] p(y) ==> leq(y, x) && leq(x, y),
    ensures
        sorted_by(insert_ordered(r, x, leq), leq),
        insert_ordered(r, x, leq).filter(p) == if p(x) {
            r.filter(p).push(x)
        } else {
            r.filter(p)
        },
    decreases r.len(),
{
    reveal(Seq::filter);
    broadcast use vstd::seq_lib::group_filter_ensures;

    let out = insert_ordered(r, x, leq);
    if r.len() == 0 {
        lemma_filter_singleton(x, p);
        assert(r =~= Seq::<V>::empty());
        lemma_filter_none(r, p);
        if p(x) {
            assert(seq![x] =~= r.filter(p).push(x));
        }
        assert(sorted_by(out, leq));
    } else if leq(r[0], x) {
        assert(sorted_by(r.skip(1), leq));
        lemma_insert_ordered_filter(r.skip(1), x, leq, p);
        let tail = insert_ordered(r.skip(1), x, leq);
        Seq::filter_distributes_over_add(seq![r[0]], tail, p);
        Seq::filter_distributes_over_add(seq![r[0]], r.skip(1), p);
        assert(seq![r[0]] + r.skip(1) =~= r);
        lemma_filter_singleton(r[0], p);
        if p(x) {
            assert((seq![r[0]].filter(p) + r.skip(1).filter(p)).push(x) =~= seq![r[0]].filter(p)
                + r.skip(1).filter(p).push(x));
        }
        // sortedness: r[0] is below or equal to x and to every element of
        // the sorted tail insertion
        assert forall|i: int, j: int| 0 <= i < j < out.len() implies leq(out[i], out[j]) by {
            if i == 0 {
                assert(out[j] == tail[j - 1]);
                lemma_insert_ordered_member(r.skip(1), x, leq, j - 1);
            } else {
                assert(out[i] == tail[i - 1]);
                assert(out[j] == tail[j - 1]);
            }
        }
    } else {
        assert(out =~= seq![x] + r);
        Seq::filter_distributes_over_add(seq![x], r, p);
        lemma_filter_singleton(x, p);
        if p(x) {
            assert forall|i: int| 0 <= i < r.len() implies !p(#[trigger] r[i]) by {
                if p(r[i]) {
                    assert(leq(r[i], x) && leq(x, r[i]));
                    if i > 0 {
                        assert(leq(r[0], r[i]));
                    }
                }
            }
            lemma_filter_none(r, p);
            assert(out.filter(p) =~= r.filter(p).push(x));
        }
        assert forall|i: int, j: int| 0 <= i < j < out.len() implies leq(out[i], out[j]) by {
            if i == 0 {
                assert(out[j] == r[j - 1]);
                assert(leq(x, r[0]));
                if j > 1 {
                    assert(leq(r[0], r[j - 1]));
                }
            }
        }
    }
}

/// Every element of an ordered insertion is the inserted value or an
/// element of the original sequence.
proof fn lemma_insert_ordered_member<V>(r: Seq<V>, x: V, leq: spec_fn(V, V) -> bool, j: int)
    requires
        0 <= j < insert_ordered(r, x, leq).len(),
    ensures
        insert_ordered(r, x, leq)[j] == x || exists|k: int|
            0 <= k < r.len() && insert_ordered(r, x, leq)[j] == #[trigger] r[k],
    decreases r.len(),
{
    if r.len() == 0 {
    } else if leq(r[0], x) {
        if j > 0 {
            lemma_insert_ordered_member(r.skip(1), x, leq, j - 1);
            if insert_ordered(r, x, leq)[j] != x {
                let k = choose|k: int|
                    0 <= k < r.skip(1).len() && insert_ordered(r.skip(1), x, leq)[j - 1] == r.skip(
                        1,
                    )[k];
                assert(insert_ordered(r, x, leq)[j] == r[k + 1]);
            }
        } else {
            assert(insert_ordered(r, x, leq)[0] == r[0]);
        }
    } else {
        if j > 0 {
            assert(insert_ordered(r, x, leq)[j] == r[j - 1]);
        }
    }
}

/// The sort is sorted, and stable: the subsequence of any class of
/// mutually equal elements is exactly its subsequence in the input.
pub proof fn lemma_sort_by_spec<V>(s: Seq<V>, leq: spec_fn(V, V) -> bool, p: spec_fn(V) -> bool)
    requires
        total_leq(leq),
        trans_leq(leq),
        forall|y: V, z: V| #[trigger] p(y) && #[trigger] p(z) ==> leq(y, z),
    ensures
        sorted_by(sort_by_spec(s, leq), leq),
        sort_by_spec(s, leq).filter(p) == s.filter(p),
    decreases s.len(),
{
    reveal(Seq::filter);
    if s.len() == 0 {
    } else {
        lemma_sort_by_spec(s.drop_last(), leq, p);
        let sorted_head = sort_by_spec(s.drop_last(), leq);
        lemma_insert_ordered_filter(sorted_head, s.last(), leq, p);
    }
}

} // verus!
