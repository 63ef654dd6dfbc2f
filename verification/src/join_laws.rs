use vstd::prelude::*;
use crate::field::{FieldV, SimplePredicateOp};
use crate::join::{hash_join, join_row, left_matches, nested_loop_join, probe_row};

verus! {

/// The joined tuples of one left tuple are its pairs with the right tuples that
/// satisfy the predicate.
proof fn lemma_join_row_members(
    op: SimplePredicateOp,
    li: int,
    ri: int,
    lt: Seq<FieldV>,
    rs: Seq<Seq<FieldV>>,
    t: Seq<FieldV>,
)
    ensures
        join_row(op, li, ri, lt, rs).contains(t) <==> exists|j: int|
            0 <= j < rs.len() && op.holds(lt[li], rs[j][ri]) && t == lt + rs[j],
    decreases rs.len(),
{
    if rs.len() > 0 {
        let rest = rs.drop_last();
        lemma_join_row_members(op, li, ri, lt, rest, t);
        let last = rs.len() - 1;
        if join_row(op, li, ri, lt, rs).contains(t) {
            let k = choose|k: int| 0 <= k < join_row(op, li, ri, lt, rs).len() && join_row(op, li, ri, lt, rs)[k] == t;
            if k < join_row(op, li, ri, lt, rest).len() {
                assert(join_row(op, li, ri, lt, rest).contains(t));
                let j = choose|j: int| 0 <= j < rest.len() && op.holds(lt[li], rest[j][ri]) && t == lt + rest[j];
                assert(rs[j] == rest[j]);
            } else {
                assert(op.holds(lt[li], rs[last][ri]) && t == lt + rs[last]);
            }
        }
        if exists|j: int| 0 <= j < rs.len() && op.holds(lt[li], rs[j][ri]) && t == lt + rs[j] {
            let j = choose|j: int| 0 <= j < rs.len() && op.holds(lt[li], rs[j][ri]) && t == lt + rs[j];
            if j < last {
                assert(rest[j] == rs[j]);
                let rr = join_row(op, li, ri, lt, rest);
                let k = choose|k: int| 0 <= k < rr.len() && rr[k] == t;
                assert(join_row(op, li, ri, lt, rs)[k] == t);
            } else {
                assert(join_row(op, li, ri, lt, rs).last() == t);
            }
        }
    }
}

/// The nested-loop join holds exactly the pairs of a left and a right tuple
/// whose compared fields satisfy the predicate, each as the left tuple followed
/// by the right one.
pub proof fn law_nested_loop_join_members(
    op: SimplePredicateOp,
    li: int,
    ri: int,
    ls: Seq<Seq<FieldV>>,
    rs: Seq<Seq<FieldV>>,
    t: Seq<FieldV>,
)
    ensures
        nested_loop_join(op, li, ri, ls, rs).contains(t) <==> exists|i: int, j: int|
            0 <= i < ls.len() && 0 <= j < rs.len() && op.holds(ls[i][li], rs[j][ri]) && t == ls[i]
                + rs[j],
    decreases ls.len(),
{
    if ls.len() > 0 {
        let rest = ls.drop_last();
        let last = ls.len() - 1;
        law_nested_loop_join_members(op, li, ri, rest, rs, t);
        lemma_join_row_members(op, li, ri, ls[last], rs, t);
        let a = nested_loop_join(op, li, ri, rest, rs);
        let b = join_row(op, li, ri, ls[last], rs);
        let whole = nested_loop_join(op, li, ri, ls, rs);
        assert(whole == a + b);
        if whole.contains(t) {
            let k = choose|k: int| 0 <= k < whole.len() && whole[k] == t;
            if k < a.len() {
                assert(a[k] == t);
                let (i, j) = choose|i: int, j: int|
                    0 <= i < rest.len() && 0 <= j < rs.len() && op.holds(rest[i][li], rs[j][ri]) && t
                        == rest[i] + rs[j];
                assert(ls[i] == rest[i]);
            } else {
                assert(b[k - a.len()] == t);
                let j = choose|j: int| 0 <= j < rs.len() && op.holds(ls[last][li], rs[j][ri]) && t == ls[last] + rs[j];
                assert(op.holds(ls[last][li], rs[j][ri]) && t == ls[last] + rs[j]);
            }
        }
        if exists|i: int, j: int|
            0 <= i < ls.len() && 0 <= j < rs.len() && op.holds(ls[i][li], rs[j][ri]) && t == ls[i]
                + rs[j] {
            let (i, j) = choose|i: int, j: int|
                0 <= i < ls.len() && 0 <= j < rs.len() && op.holds(ls[i][li], rs[j][ri]) && t == ls[i]
                    + rs[j];
            if i < last {
                assert(rest[i] == ls[i]);
                let k = choose|k: int| 0 <= k < a.len() && a[k] == t;
                assert(whole[k] == t);
            } else {
                assert(b.contains(t));
                let k = choose|k: int| 0 <= k < b.len() && b[k] == t;
                assert(whole[a.len() + k] == t);
            }
        }
    }
}

/// The left tuples with key `k` are exactly those of `ls` whose field `li` is `k`.
proof fn lemma_left_matches_members(li: int, ls: Seq<Seq<FieldV>>, k: FieldV, l: Seq<FieldV>)
    ensures
        left_matches(li, ls, k).contains(l) <==> exists|i: int| 0 <= i < ls.len() && ls[i][li] == k && l == ls[i],
    decreases ls.len(),
{
    if ls.len() > 0 {
        let rest = ls.drop_last();
        let last = ls.len() - 1;
        lemma_left_matches_members(li, rest, k, l);
        let a = left_matches(li, rest, k);
        let whole = left_matches(li, ls, k);
        if whole.contains(l) {
            let q = choose|q: int| 0 <= q < whole.len() && whole[q] == l;
            if q < a.len() {
                assert(a[q] == l);
                let i = choose|i: int| 0 <= i < rest.len() && rest[i][li] == k && l == rest[i];
                assert(ls[i] == rest[i]);
            } else {
                assert(ls[last][li] == k && l == ls[last]);
            }
        }
        if exists|i: int| 0 <= i < ls.len() && ls[i][li] == k && l == ls[i] {
            let i = choose|i: int| 0 <= i < ls.len() && ls[i][li] == k && l == ls[i];
            if i < last {
                assert(rest[i] == ls[i]);
                let q = choose|q: int| 0 <= q < a.len() && a[q] == l;
                assert(whole[q] == l);
            } else {
                assert(whole.last() == l);
            }
        }
    }
}

/// The hash equi-join holds exactly the pairs of a left and a right tuple with
/// equal keys, each as the left tuple followed by the right one.
pub proof fn law_hash_join_members(li: int, ri: int, ls: Seq<Seq<FieldV>>, rs: Seq<Seq<FieldV>>, t: Seq<FieldV>)
    ensures
        hash_join(li, ri, ls, rs).contains(t) <==> exists|i: int, j: int|
            0 <= i < ls.len() && 0 <= j < rs.len() && ls[i][li] == rs[j][ri] && t == ls[i] + rs[j],
    decreases rs.len(),
{
    if rs.len() > 0 {
        let rest = rs.drop_last();
        let last = rs.len() - 1;
        let r = rs[last];
        law_hash_join_members(li, ri, ls, rest, t);
        let a = hash_join(li, ri, ls, rest);
        let b = probe_row(li, ri, ls, r);
        let whole = hash_join(li, ri, ls, rs);
        assert(whole == a + b);
        if whole.contains(t) {
            let q = choose|q: int| 0 <= q < whole.len() && whole[q] == t;
            if q < a.len() {
                assert(a[q] == t);
                let (i, j) = choose|i: int, j: int|
                    0 <= i < ls.len() && 0 <= j < rest.len() && ls[i][li] == rest[j][ri] && t == ls[i] + rest[j];
                assert(rs[j] == rest[j]);
            } else {
                let l = left_matches(li, ls, r[ri])[q - a.len()];
                assert(b[q - a.len()] == l + r);
                lemma_left_matches_members(li, ls, r[ri], l);
                assert(left_matches(li, ls, r[ri]).contains(l));
                let i = choose|i: int| 0 <= i < ls.len() && ls[i][li] == r[ri] && l == ls[i];
                assert(ls[i][li] == rs[last][ri] && t == ls[i] + rs[last]);
            }
        }
        if exists|i: int, j: int|
            0 <= i < ls.len() && 0 <= j < rs.len() && ls[i][li] == rs[j][ri] && t == ls[i] + rs[j] {
            let (i, j) = choose|i: int, j: int|
                0 <= i < ls.len() && 0 <= j < rs.len() && ls[i][li] == rs[j][ri] && t == ls[i] + rs[j];
            if j < last {
                assert(rest[j] == rs[j]);
                let q = choose|q: int| 0 <= q < a.len() && a[q] == t;
                assert(whole[q] == t);
            } else {
                lemma_left_matches_members(li, ls, r[ri], ls[i]);
                let m = left_matches(li, ls, r[ri]);
                let q = choose|q: int| 0 <= q < m.len() && m[q] == ls[i];
                assert(b[q] == t);
                assert(whole[a.len() + q] == t);
            }
        }
    }
}

/// The hash equi-join and the nested-loop join on equality hold the same tuples.
pub proof fn law_hash_join_agrees_with_nested_loop_join(
    li: int,
    ri: int,
    ls: Seq<Seq<FieldV>>,
    rs: Seq<Seq<FieldV>>,
    t: Seq<FieldV>,
)
    ensures
        hash_join(li, ri, ls, rs).contains(t) <==> nested_loop_join(
            SimplePredicateOp::Equals,
            li,
            ri,
            ls,
            rs,
        ).contains(t),
{
    law_hash_join_members(li, ri, ls, rs, t);
    law_nested_loop_join_members(SimplePredicateOp::Equals, li, ri, ls, rs, t);
}

/// The joined tuple of `l` and `r` when their keys are equal.
spec fn equal_pair(li: int, ri: int, l: Seq<FieldV>, r: Seq<FieldV>) -> Seq<Seq<FieldV>> {
    if l[li] == r[ri] {
        seq![l + r]
    } else {
        Seq::empty()
    }
}

proof fn lemma_probe_row_push(li: int, ri: int, ls: Seq<Seq<FieldV>>, l: Seq<FieldV>, r: Seq<FieldV>)
    ensures
        probe_row(li, ri, ls.push(l), r) =~= probe_row(li, ri, ls, r) + equal_pair(li, ri, l, r),
{
    assert(ls.push(l).drop_last() =~= ls);
    assert(ls.push(l).last() == l);
}

proof fn lemma_join_row_push(li: int, ri: int, l: Seq<FieldV>, rs: Seq<Seq<FieldV>>, r: Seq<FieldV>)
    ensures
        join_row(SimplePredicateOp::Equals, li, ri, l, rs.push(r)) =~= join_row(SimplePredicateOp::Equals, li, ri, l, rs)
            + equal_pair(li, ri, l, r),
{
    assert(rs.push(r).drop_last() =~= rs);
    assert(rs.push(r).last() == r);
}

proof fn lemma_hash_join_no_left(li: int, ri: int, rs: Seq<Seq<FieldV>>)
    ensures
        hash_join(li, ri, Seq::empty(), rs) =~= Seq::<Seq<FieldV>>::empty(),
    decreases rs.len(),
{
    if rs.len() > 0 {
        lemma_hash_join_no_left(li, ri, rs.drop_last());
        assert(probe_row(li, ri, Seq::empty(), rs.last()) =~= Seq::<Seq<FieldV>>::empty());
    }
}

/// Adding a left tuple adds its joined tuples, as a nested-loop join row.
proof fn lemma_hash_join_push_left(li: int, ri: int, ls: Seq<Seq<FieldV>>, l: Seq<FieldV>, rs: Seq<Seq<FieldV>>)
    ensures
        hash_join(li, ri, ls.push(l), rs).to_multiset() =~= hash_join(li, ri, ls, rs).to_multiset().add(
            join_row(SimplePredicateOp::Equals, li, ri, l, rs).to_multiset(),
        ),
    decreases rs.len(),
{
    broadcast use vstd::multiset::group_multiset_axioms;
    broadcast use vstd::seq_lib::lemma_multiset_commutative;

    if rs.len() == 0 {
        broadcast use vstd::seq_lib::group_to_multiset_ensures;

        let e = Seq::<Seq<FieldV>>::empty();
        assert(join_row(SimplePredicateOp::Equals, li, ri, l, rs) =~= e);
        assert(hash_join(li, ri, ls, rs) =~= e);
        assert(hash_join(li, ri, ls.push(l), rs) =~= e);
        assert forall|x: Seq<FieldV>| e.to_multiset().count(x) == 0 by {
            assert(!e.contains(x));
        }
        assert(e.to_multiset() =~= e.to_multiset().add(e.to_multiset()));
    } else {
        let rest = rs.drop_last();
        let r = rs.last();
        assert(rest.push(r) =~= rs);
        lemma_hash_join_push_left(li, ri, ls, l, rest);
        lemma_probe_row_push(li, ri, ls, l, r);
        lemma_join_row_push(li, ri, l, rest, r);
        let hl = hash_join(li, ri, ls.push(l), rest);
        let h = hash_join(li, ri, ls, rest);
        let p = probe_row(li, ri, ls, r);
        let e = equal_pair(li, ri, l, r);
        let jr = join_row(SimplePredicateOp::Equals, li, ri, l, rest);
        assert(hash_join(li, ri, ls.push(l), rs) == hl + (p + e));
        assert(hash_join(li, ri, ls, rs) == h + p);
        assert((hl + (p + e)).to_multiset() =~= hl.to_multiset().add((p + e).to_multiset()));
        assert((p + e).to_multiset() =~= p.to_multiset().add(e.to_multiset()));
        assert((h + p).to_multiset() =~= h.to_multiset().add(p.to_multiset()));
        assert((jr + e).to_multiset() =~= jr.to_multiset().add(e.to_multiset()));
        assert(join_row(SimplePredicateOp::Equals, li, ri, l, rs) == jr + e);
        assert(hl.to_multiset() =~= h.to_multiset().add(jr.to_multiset()));
        assert(hash_join(li, ri, ls.push(l), rs).to_multiset() =~= hash_join(li, ri, ls, rs).to_multiset().add(
            join_row(SimplePredicateOp::Equals, li, ri, l, rs).to_multiset(),
        ));
    }
}

/// The hash equi-join holds the tuples of the nested-loop join on equality,
/// each as many times: it is that join taken right tuple by right tuple.
pub proof fn law_hash_join_same_tuples_as_nested_loop_join(
    li: int,
    ri: int,
    ls: Seq<Seq<FieldV>>,
    rs: Seq<Seq<FieldV>>,
)
    ensures
        hash_join(li, ri, ls, rs).to_multiset() == nested_loop_join(SimplePredicateOp::Equals, li, ri, ls, rs).to_multiset(),
    decreases ls.len(),
{
    broadcast use vstd::multiset::group_multiset_axioms;
    broadcast use vstd::seq_lib::lemma_multiset_commutative;

    if ls.len() == 0 {
        lemma_hash_join_no_left(li, ri, rs);
        assert(ls =~= Seq::<Seq<FieldV>>::empty());
        assert(hash_join(li, ri, ls, rs) =~= Seq::<Seq<FieldV>>::empty());
    } else {
        let rest = ls.drop_last();
        let l = ls.last();
        assert(rest.push(l) =~= ls);
        law_hash_join_same_tuples_as_nested_loop_join(li, ri, rest, rs);
        lemma_hash_join_push_left(li, ri, rest, l, rs);
        let n = nested_loop_join(SimplePredicateOp::Equals, li, ri, rest, rs);
        let jr = join_row(SimplePredicateOp::Equals, li, ri, l, rs);
        assert((n + jr).to_multiset() =~= n.to_multiset().add(jr.to_multiset()));
    }
}

/// The right tuples that stand in relation `op` with the left tuple `l`, each
/// joined to `l`, in the right order.
pub open spec fn pairs_of(op: SimplePredicateOp, li: int, ri: int, l: Seq<FieldV>, rs: Seq<Seq<FieldV>>) -> Seq<Seq<FieldV>> {
    rs.filter(|r: Seq<FieldV>| op.holds(l[li], r[ri])).map_values(|r: Seq<FieldV>| l + r)
}

proof fn lemma_join_row_pairs(op: SimplePredicateOp, li: int, ri: int, l: Seq<FieldV>, rs: Seq<Seq<FieldV>>)
    ensures
        join_row(op, li, ri, l, rs) == pairs_of(op, li, ri, l, rs),
    decreases rs.len(),
{
    let p = |r: Seq<FieldV>| op.holds(l[li], r[ri]);
    reveal_with_fuel(Seq::filter, 1);
    if rs.len() == 0 {
        assert(pairs_of(op, li, ri, l, rs) =~= Seq::<Seq<FieldV>>::empty());
    } else {
        lemma_join_row_pairs(op, li, ri, l, rs.drop_last());
        let sub = rs.drop_last().filter(p);
        if p(rs.last()) {
            assert(rs.filter(p) == sub.push(rs.last()));
            assert(sub.push(rs.last()).map_values(|r: Seq<FieldV>| l + r) =~= sub.map_values(|r: Seq<FieldV>| l + r).push(
                l + rs.last(),
            ));
        } else {
            assert(rs.filter(p) == sub);
        }
    }
}

/// The nested-loop join holds, for each left tuple in order, every right tuple
/// that stands in relation `op` with it, in the right order, joined to it: one
/// joined tuple per such pair of positions, none dropped and none added.
pub proof fn law_nested_loop_join_pairs(
    op: SimplePredicateOp,
    li: int,
    ri: int,
    ls: Seq<Seq<FieldV>>,
    rs: Seq<Seq<FieldV>>,
)
    ensures
        nested_loop_join(op, li, ri, ls, rs) == ls.map_values(|l: Seq<FieldV>| pairs_of(op, li, ri, l, rs)).flatten(),
        forall|i: int| 0 <= i < ls.len() ==> #[trigger] pairs_of(op, li, ri, ls[i], rs).len() == rs.filter(
            |r: Seq<FieldV>| op.holds(ls[i][li], r[ri]),
        ).len(),
    decreases ls.len(),
{
    let f = |l: Seq<FieldV>| pairs_of(op, li, ri, l, rs);
    if ls.len() == 0 {
        assert(ls.map_values(f) =~= Seq::<Seq<Seq<FieldV>>>::empty());
    } else {
        law_nested_loop_join_pairs(op, li, ri, ls.drop_last(), rs);
        lemma_join_row_pairs(op, li, ri, ls.last(), rs);
        assert(ls.map_values(f) =~= ls.drop_last().map_values(f).push(f(ls.last())));
        ls.drop_last().map_values(f).lemma_flatten_push(f(ls.last()));
    }
}

} // verus!
