use vstd::prelude::*;
use crate::aggregate::{
    aggregable, aggregate_groups, aggregate_ok, aggregate_rows, can_merge, finish_ok, chunk_ok, final_chunk, final_vals, fits_i32,
    group_index, group_key, has_group, init_chunk, init_vals, lemma_offset_step, merge_groups, offset,
    aggregate_schema, total_width, trunc_div, update_chunk, update_ok, update_vals, width, AggregateField, Aggregator, Group, group_rows,
};
use crate::field::{
    field_lt, field_max, field_min, law_field_order, lemma_field_lt_order, lemma_field_lt_transitive, AggOp, DataType, FieldV,
};
use crate::tuple::AttributeV;

verus! {

proof fn lemma_update_vals_len(aggs: Seq<AggregateField>, v: Seq<FieldV>, t: Seq<FieldV>)
    ensures
        update_vals(aggs, v, t).len() == total_width(aggs),
    decreases aggs.len(),
{
    if aggs.len() > 0 {
        lemma_update_vals_len(aggs.drop_last(), v, t);
    }
}

proof fn lemma_init_vals_len(aggs: Seq<AggregateField>, t: Seq<FieldV>)
    ensures
        init_vals(aggs, t).len() == total_width(aggs),
    decreases aggs.len(),
{
    if aggs.len() > 0 {
        lemma_init_vals_len(aggs.drop_last(), t);
    }
}

proof fn lemma_final_vals_len(aggs: Seq<AggregateField>, v: Seq<FieldV>)
    ensures
        final_vals(aggs, v).len() == aggs.len(),
    decreases aggs.len(),
{
    if aggs.len() > 0 {
        lemma_final_vals_len(aggs.drop_last(), v);
    }
}

proof fn lemma_offset_of_prefix(aggs: Seq<AggregateField>, k: int)
    requires
        0 <= k < aggs.len(),
    ensures
        offset(aggs.drop_last(), k) == offset(aggs, k),
        k == aggs.len() - 1 ==> offset(aggs, k) == total_width(aggs.drop_last()),
{
    reveal(offset);
    assert(aggs.drop_last().take(k) =~= aggs.take(k));
    if k == aggs.len() - 1 {
        assert(aggs.take(k) =~= aggs.drop_last());
    }
}

/// The running values of aggregate `k` after an update are its updated chunk.
pub proof fn lemma_update_vals_at(aggs: Seq<AggregateField>, v: Seq<FieldV>, t: Seq<FieldV>, k: int, j: int)
    requires
        0 <= k < aggs.len(),
        0 <= j < width(aggs[k].op),
    ensures
        update_vals(aggs, v, t)[offset(aggs, k) + j] == update_chunk(aggs[k], v, offset(aggs, k) as int, t)[j],
    decreases aggs.len(),
{
    let n = aggs.len() - 1;
    lemma_offset_of_prefix(aggs, k);
    lemma_update_vals_len(aggs.drop_last(), v, t);
    if k < n {
        lemma_update_vals_at(aggs.drop_last(), v, t, k, j);
        lemma_offset_step(aggs.drop_last(), k);
    }
}

/// The running values of aggregate `k` of a new group are its initial chunk.
pub proof fn lemma_init_vals_at(aggs: Seq<AggregateField>, t: Seq<FieldV>, k: int, j: int)
    requires
        0 <= k < aggs.len(),
        0 <= j < width(aggs[k].op),
    ensures
        init_vals(aggs, t)[offset(aggs, k) + j] == init_chunk(aggs[k], t)[j],
    decreases aggs.len(),
{
    let n = aggs.len() - 1;
    lemma_offset_of_prefix(aggs, k);
    lemma_init_vals_len(aggs.drop_last(), t);
    if k < n {
        lemma_init_vals_at(aggs.drop_last(), t, k, j);
        lemma_offset_step(aggs.drop_last(), k);
    }
}

/// The output value of aggregate `k` is its final chunk.
pub proof fn lemma_final_vals_at(aggs: Seq<AggregateField>, v: Seq<FieldV>, k: int)
    requires
        0 <= k < aggs.len(),
    ensures
        final_vals(aggs, v).len() == aggs.len(),
        final_vals(aggs, v)[k] == final_chunk(aggs[k], v, offset(aggs, k) as int)[0],
    decreases aggs.len(),
{
    let n = aggs.len() - 1;
    lemma_offset_of_prefix(aggs, k);
    lemma_final_vals_len(aggs, v);
    lemma_final_vals_len(aggs.drop_last(), v);
    if k < n {
        lemma_final_vals_at(aggs.drop_last(), v, k);
    }
}

/// Some tuple of `ts` has the group-by values `g`.
pub open spec fn key_occurs(groupby: Seq<usize>, ts: Seq<Seq<FieldV>>, g: Seq<FieldV>) -> bool {
    exists|i: int| 0 <= i < ts.len() && group_key(groupby, ts[i]) == g
}

/// No two groups have the same key.
pub open spec fn keys_distinct(groups: Seq<Group>) -> bool {
    forall|i: int, j: int| 0 <= i < groups.len() && 0 <= j < groups.len() && i != j ==> groups[i].0 != groups[j].0
}

/// The groups have distinct keys, and they are the group-by values that occur.
pub proof fn lemma_aggregate_groups_keys(aggs: Seq<AggregateField>, groupby: Seq<usize>, ts: Seq<Seq<FieldV>>)
    ensures
        keys_distinct(aggregate_groups(aggs, groupby, ts)),
        forall|g: Seq<FieldV>| has_group(aggregate_groups(aggs, groupby, ts), g) <==> key_occurs(groupby, ts, g),
    decreases ts.len(),
{
    if ts.len() > 0 {
        let rest = ts.drop_last();
        let t = ts.last();
        let kl = group_key(groupby, t);
        let g0 = aggregate_groups(aggs, groupby, rest);
        let g1 = aggregate_groups(aggs, groupby, ts);
        lemma_aggregate_groups_keys(aggs, groupby, rest);
        assert(g1 == merge_groups(aggs, groupby, g0, t));
        if has_group(g0, kl) {
            let i0 = group_index(g0, kl);
            assert(g1 == g0.update(i0, (kl, update_vals(aggs, g0[i0].1, t))));
            assert forall|j: int| 0 <= j < g1.len() implies g1[j].0 == g0[j].0 by {}
        }
        assert forall|g: Seq<FieldV>| has_group(g1, g) <==> key_occurs(groupby, ts, g) by {
            if has_group(g1, g) {
                let j = choose|j: int| 0 <= j < g1.len() && g1[j].0 == g;
                if j < g0.len() && g1[j].0 == g0[j].0 {
                    assert(has_group(g0, g));
                    assert(key_occurs(groupby, rest, g));
                    let i = choose|i: int| 0 <= i < rest.len() && group_key(groupby, rest[i]) == g;
                    assert(ts[i] == rest[i]);
                } else {
                    assert(group_key(groupby, ts[ts.len() - 1]) == g);
                }
            }
            if key_occurs(groupby, ts, g) {
                let i = choose|i: int| 0 <= i < ts.len() && group_key(groupby, ts[i]) == g;
                if i < rest.len() {
                    assert(rest[i] == ts[i]);
                    assert(key_occurs(groupby, rest, g));
                    let j = choose|j: int| 0 <= j < g0.len() && g0[j].0 == g;
                    assert(g1[j].0 == g);
                } else if has_group(g0, kl) {
                    let j = choose|j: int| 0 <= j < g0.len() && g0[j].0 == kl;
                    assert(g1[j].0 == g);
                } else {
                    assert(g1[g0.len() as int].0 == g);
                }
            }
        }
    }
}

/// An aggregable sequence is aggregable without its last tuple, and its last
/// tuple can be added to the groups of the others.
pub proof fn lemma_aggregable_prefix(aggs: Seq<AggregateField>, groupby: Seq<usize>, ts: Seq<Seq<FieldV>>)
    requires
        ts.len() > 0,
        aggregable(aggs, groupby, ts),
    ensures
        aggregable(aggs, groupby, ts.drop_last()),
        can_merge(aggs, groupby, aggregate_groups(aggs, groupby, ts.drop_last()), ts.last()),
{
    reveal(aggregable);
    let rest = ts.drop_last();
    assert forall|i: int| 0 <= i < rest.len() implies can_merge(
        aggs,
        groupby,
        aggregate_groups(aggs, groupby, rest.take(i)),
        rest[i],
    ) by {
        assert(rest.take(i) =~= ts.take(i));
        assert(can_merge(aggs, groupby, aggregate_groups(aggs, groupby, ts.take(i)), ts[i]));
    }
    assert(ts.take(ts.len() - 1) =~= rest);
    assert(can_merge(aggs, groupby, aggregate_groups(aggs, groupby, ts.take(ts.len() - 1)), ts[ts.len() - 1]));
}

/// How the group with key `g` changes when the last tuple is added.
pub proof fn lemma_group_step(aggs: Seq<AggregateField>, groupby: Seq<usize>, ts: Seq<Seq<FieldV>>, g: Seq<FieldV>)
    requires
        ts.len() > 0,
        has_group(aggregate_groups(aggs, groupby, ts), g),
    ensures
        ({
            let rest = ts.drop_last();
            let t = ts.last();
            let g0 = aggregate_groups(aggs, groupby, rest);
            let g1 = aggregate_groups(aggs, groupby, ts);
            let p1 = group_index(g1, g);
            &&& 0 <= p1 < g1.len()
            &&& g1[p1].0 == g
            &&& group_key(groupby, t) != g ==> {
                &&& has_group(g0, g)
                &&& g1[p1] == g0[group_index(g0, g)]
            }
            &&& group_key(groupby, t) == g && has_group(g0, g) ==> {
                &&& 0 <= group_index(g0, g) < g0.len()
                &&& g0[group_index(g0, g)].0 == g
                &&& g1[p1].1 == update_vals(aggs, g0[group_index(g0, g)].1, t)
            }
            &&& group_key(groupby, t) == g && !has_group(g0, g) ==> {
                &&& g1[p1].1 == init_vals(aggs, t)
                &&& !key_occurs(groupby, rest, g)
            }
        }),
{
    let rest = ts.drop_last();
    let t = ts.last();
    let kl = group_key(groupby, t);
    let g0 = aggregate_groups(aggs, groupby, rest);
    let g1 = aggregate_groups(aggs, groupby, ts);
    lemma_aggregate_groups_keys(aggs, groupby, rest);
    lemma_aggregate_groups_keys(aggs, groupby, ts);
    let p1 = group_index(g1, g);
    assert(0 <= p1 < g1.len() && g1[p1].0 == g);
    if has_group(g0, kl) {
        let i0 = group_index(g0, kl);
        assert(g1 == g0.update(i0, (kl, update_vals(aggs, g0[i0].1, t))));
        if kl == g {
            assert(g1[i0].0 == g);
            assert(p1 == i0);
        } else {
            let q = group_index(g0, g);
            if !has_group(g0, g) {
                assert(g1[p1].0 == g0[p1].0);
            }
            assert(g1[q] == g0[q]);
            assert(p1 == q);
        }
    } else {
        assert(g1 == g0.push((kl, init_vals(aggs, t))));
        if kl == g {
            assert(g1[g0.len() as int].0 == g);
            assert(p1 == g0.len());
        } else {
            assert(p1 < g0.len());
            assert(has_group(g0, g));
            let q = group_index(g0, g);
            assert(g1[q] == g0[q]);
            assert(p1 == q);
        }
    }
}

/// How many tuples of `ts` have the group-by values `g`.
pub open spec fn group_count(groupby: Seq<usize>, ts: Seq<Seq<FieldV>>, g: Seq<FieldV>) -> nat
    decreases ts.len(),
{
    if ts.len() == 0 {
        0
    } else {
        group_count(groupby, ts.drop_last(), g) + if group_key(groupby, ts.last()) == g {
            1nat
        } else {
            0nat
        }
    }
}

/// The sum of field `f` over the tuples of `ts` with the group-by values `g`.
pub open spec fn group_sum(groupby: Seq<usize>, ts: Seq<Seq<FieldV>>, g: Seq<FieldV>, f: int) -> int
    decreases ts.len(),
{
    if ts.len() == 0 {
        0
    } else {
        group_sum(groupby, ts.drop_last(), g, f) + if group_key(groupby, ts.last()) == g {
            ts.last()[f].int_val()
        } else {
            0
        }
    }
}

/// Field `f` is an integer in every tuple of `ts` with the group-by values `g`.
pub open spec fn group_ints(groupby: Seq<usize>, ts: Seq<Seq<FieldV>>, g: Seq<FieldV>, f: int) -> bool {
    forall|i: int| 0 <= i < ts.len() && group_key(groupby, ts[i]) == g ==> ts[i][f] is Int
}

/// The aggregate values in the result row of the group with key `g`.
pub open spec fn result_of(
    aggs: Seq<AggregateField>,
    groupby: Seq<usize>,
    ts: Seq<Seq<FieldV>>,
    g: Seq<FieldV>,
) -> Seq<FieldV> {
    let groups = aggregate_groups(aggs, groupby, ts);
    final_vals(aggs, groups[group_index(groups, g)].1)
}

/// The running values of the group with key `g`.
pub open spec fn running_of(
    aggs: Seq<AggregateField>,
    groupby: Seq<usize>,
    ts: Seq<Seq<FieldV>>,
    g: Seq<FieldV>,
) -> Seq<FieldV> {
    let groups = aggregate_groups(aggs, groupby, ts);
    groups[group_index(groups, g)].1
}

proof fn lemma_absent_group(groupby: Seq<usize>, ts: Seq<Seq<FieldV>>, g: Seq<FieldV>, f: int)
    requires
        !key_occurs(groupby, ts, g),
    ensures
        group_count(groupby, ts, g) == 0,
        group_sum(groupby, ts, g, f) == 0,
    decreases ts.len(),
{
    if ts.len() > 0 {
        let rest = ts.drop_last();
        if key_occurs(groupby, rest, g) {
            let i = choose|i: int| 0 <= i < rest.len() && group_key(groupby, rest[i]) == g;
            assert(ts[i] == rest[i]);
        }
        assert(group_key(groupby, ts[ts.len() - 1]) != g);
        lemma_absent_group(groupby, rest, g, f);
    }
}

proof fn lemma_group_ints_prefix(groupby: Seq<usize>, ts: Seq<Seq<FieldV>>, g: Seq<FieldV>, f: int)
    requires
        ts.len() > 0,
        group_ints(groupby, ts, g, f),
    ensures
        group_ints(groupby, ts.drop_last(), g, f),
        group_key(groupby, ts.last()) == g ==> ts.last()[f] is Int,
{
    assert forall|i: int| 0 <= i < ts.drop_last().len() && group_key(groupby, ts.drop_last()[i]) == g implies ts.drop_last()[i][f] is Int by {
        assert(ts.drop_last()[i] == ts[i]);
    }
    assert(ts.last() == ts[ts.len() - 1]);
}

/// The running count of a group is the number of its tuples; the running sum of
/// a sum or an average over integers is the sum of the field over its tuples.
proof fn lemma_running_counts(
    aggs: Seq<AggregateField>,
    groupby: Seq<usize>,
    ts: Seq<Seq<FieldV>>,
    g: Seq<FieldV>,
    k: int,
)
    requires
        aggregable(aggs, groupby, ts),
        has_group(aggregate_groups(aggs, groupby, ts), g),
        0 <= k < aggs.len(),
        aggs[k].op == AggOp::Sum || aggs[k].op == AggOp::Avg ==> group_ints(groupby, ts, g, aggs[k].field as int),
    ensures
        ({
            let v = running_of(aggs, groupby, ts, g);
            let o = offset(aggs, k) as int;
            let n = group_count(groupby, ts, g);
            let s = group_sum(groupby, ts, g, aggs[k].field as int);
            &&& 1 <= n
            &&& aggs[k].op == AggOp::Count ==> n <= i32::MAX && v[o] == FieldV::Int(n as i32)
            &&& aggs[k].op == AggOp::Avg ==> n <= i32::MAX && v[o + 1] == FieldV::Int(n as i32)
            &&& aggs[k].op == AggOp::Sum || aggs[k].op == AggOp::Avg ==> {
                &&& fits_i32(s)
                &&& v[o] == FieldV::Int(s as i32)
            }
        }),
    decreases ts.len(),
{
    let rest = ts.drop_last();
    let t = ts.last();
    let a = aggs[k];
    let f = a.field as int;
    let o = offset(aggs, k) as int;
    let g0 = aggregate_groups(aggs, groupby, rest);
    lemma_group_step(aggs, groupby, ts, g);
    lemma_aggregable_prefix(aggs, groupby, ts);
    if a.op == AggOp::Sum || a.op == AggOp::Avg {
        lemma_group_ints_prefix(groupby, ts, g, f);
    }
    let v = running_of(aggs, groupby, ts, g);
    let n = group_count(groupby, ts, g);
    let s = group_sum(groupby, ts, g, f);
    if group_key(groupby, t) != g {
        lemma_running_counts(aggs, groupby, rest, g, k);
        assert(n == group_count(groupby, rest, g));
        assert(s == group_sum(groupby, rest, g, f));
        assert(v == running_of(aggs, groupby, rest, g));
    } else if has_group(g0, g) {
        lemma_running_counts(aggs, groupby, rest, g, k);
        let old = g0[group_index(g0, g)].1;
        assert(old == running_of(aggs, groupby, rest, g));
        assert(update_ok(aggs, old, t));
        assert(chunk_ok(a, old, o, t));
        assert(v == update_vals(aggs, old, t));
        assert(n == group_count(groupby, rest, g) + 1);
        lemma_update_vals_at(aggs, old, t, k, 0);
        if a.op == AggOp::Avg {
            lemma_update_vals_at(aggs, old, t, k, 1);
        }
        if a.op == AggOp::Sum || a.op == AggOp::Avg {
            assert(s == group_sum(groupby, rest, g, f) + t[f].int_val());
        }
    } else {
        lemma_absent_group(groupby, rest, g, f);
        assert(v == init_vals(aggs, t));
        assert(n == 1);
        lemma_init_vals_at(aggs, t, k, 0);
        if a.op == AggOp::Avg {
            lemma_init_vals_at(aggs, t, k, 1);
        }
        if a.op == AggOp::Sum || a.op == AggOp::Avg {
            assert(s == t[f].int_val());
            assert(t[f] is Int);
            assert(v[o] == t[f]);
        }
    }
}

proof fn lemma_max_bound(old: FieldV, x: FieldV, y: FieldV)
    requires
        !field_lt(old, y),
    ensures
        !field_lt(field_max(old, x), y),
        !field_lt(field_max(old, x), x),
        field_max(old, x) == old || field_max(old, x) == x,
{
    lemma_field_lt_order(old, x);
    lemma_field_lt_order(old, y);
    lemma_field_lt_order(x, y);
    if field_lt(x, y) && !field_lt(x, old) {
        if field_lt(old, x) {
            lemma_field_lt_transitive(old, x, y);
        }
    }
}

proof fn lemma_min_bound(old: FieldV, x: FieldV, y: FieldV)
    requires
        !field_lt(y, old),
    ensures
        !field_lt(y, field_min(old, x)),
        !field_lt(x, field_min(old, x)),
        field_min(old, x) == old || field_min(old, x) == x,
{
    lemma_field_lt_order(old, x);
    lemma_field_lt_order(old, y);
    lemma_field_lt_order(x, y);
    if field_lt(y, x) && field_lt(x, old) {
        lemma_field_lt_transitive(y, x, old);
    }
}

/// The running value of a maximum is the field of one of the group's tuples,
/// and no tuple of the group has a greater one; a minimum likewise, with no
/// smaller one.
proof fn lemma_running_extreme(
    aggs: Seq<AggregateField>,
    groupby: Seq<usize>,
    ts: Seq<Seq<FieldV>>,
    g: Seq<FieldV>,
    k: int,
)
    requires
        aggregable(aggs, groupby, ts),
        has_group(aggregate_groups(aggs, groupby, ts), g),
        0 <= k < aggs.len(),
        aggs[k].op == AggOp::Max || aggs[k].op == AggOp::Min,
    ensures
        exists|i: int|
            0 <= i < ts.len() && group_key(groupby, ts[i]) == g && running_of(aggs, groupby, ts, g)[offset(
                aggs,
                k,
            ) as int] == ts[i][aggs[k].field as int],
        aggs[k].op == AggOp::Max ==> forall|i: int|
            0 <= i < ts.len() && group_key(groupby, ts[i]) == g ==> !field_lt(
                running_of(aggs, groupby, ts, g)[offset(aggs, k) as int],
                ts[i][aggs[k].field as int],
            ),
        aggs[k].op == AggOp::Min ==> forall|i: int|
            0 <= i < ts.len() && group_key(groupby, ts[i]) == g ==> !field_lt(
                ts[i][aggs[k].field as int],
                running_of(aggs, groupby, ts, g)[offset(aggs, k) as int],
            ),
    decreases ts.len(),
{
    let rest = ts.drop_last();
    let t = ts.last();
    let last = ts.len() - 1;
    let a = aggs[k];
    let f = a.field as int;
    let o = offset(aggs, k) as int;
    let g0 = aggregate_groups(aggs, groupby, rest);
    let v = running_of(aggs, groupby, ts, g);
    lemma_group_step(aggs, groupby, ts, g);
    lemma_aggregable_prefix(aggs, groupby, ts);
    assert(t == ts[last]);
    if group_key(groupby, t) != g {
        lemma_running_extreme(aggs, groupby, rest, g, k);
        assert(v == running_of(aggs, groupby, rest, g));
        let i = choose|i: int| 0 <= i < rest.len() && group_key(groupby, rest[i]) == g && v[o] == rest[i][f];
        assert(ts[i] == rest[i]);
        assert forall|i: int| 0 <= i < ts.len() && group_key(groupby, ts[i]) == g implies (if a.op == AggOp::Max {
            !field_lt(v[o], ts[i][f])
        } else {
            !field_lt(ts[i][f], v[o])
        }) by {
            assert(i < last);
            assert(ts[i] == rest[i]);
        }
    } else if has_group(g0, g) {
        lemma_running_extreme(aggs, groupby, rest, g, k);
        let old = running_of(aggs, groupby, rest, g);
        assert(v == update_vals(aggs, old, t));
        lemma_update_vals_at(aggs, old, t, k, 0);
        let x = t[f];
        let i0 = choose|i: int| 0 <= i < rest.len() && group_key(groupby, rest[i]) == g && old[o] == rest[i][f];
        assert(ts[i0] == rest[i0]);
        if a.op == AggOp::Max {
            assert(v[o] == field_max(old[o], x));
            lemma_field_lt_order(old[o], old[o]);
            lemma_max_bound(old[o], x, old[o]);
            assert forall|i: int| 0 <= i < ts.len() && group_key(groupby, ts[i]) == g implies !field_lt(v[o], ts[i][f]) by {
                if i < last {
                    assert(ts[i] == rest[i]);
                    lemma_max_bound(old[o], x, ts[i][f]);
                }
            }
        } else {
            assert(v[o] == field_min(old[o], x));
            lemma_field_lt_order(old[o], old[o]);
            lemma_min_bound(old[o], x, old[o]);
            assert forall|i: int| 0 <= i < ts.len() && group_key(groupby, ts[i]) == g implies !field_lt(ts[i][f], v[o]) by {
                if i < last {
                    assert(ts[i] == rest[i]);
                    lemma_min_bound(old[o], x, ts[i][f]);
                }
            }
        }
    } else {
        assert(v == init_vals(aggs, t));
        lemma_init_vals_at(aggs, t, k, 0);
        assert(v[o] == ts[last][f]);
        lemma_field_lt_order(v[o], v[o]);
        assert forall|i: int| 0 <= i < ts.len() && group_key(groupby, ts[i]) == g implies i == last by {
            if i < last {
                assert(ts[i] == rest[i]);
                assert(key_occurs(groupby, rest, g));
            }
        }
    }
}

/// The result has one row per group-by value that occurs among the tuples,
/// with no value twice: the group-by values, followed by the aggregate values of
/// that group.
pub proof fn law_aggregate_rows(aggs: Seq<AggregateField>, groupby: Seq<usize>, ts: Seq<Seq<FieldV>>)
    ensures
        forall|p: int|
            0 <= p < aggregate_rows(aggs, groupby, ts).len() ==> {
                let row = #[trigger] aggregate_rows(aggs, groupby, ts)[p];
                let key = row.take(groupby.len() as int);
                &&& key_occurs(groupby, ts, key)
                &&& row == key + result_of(aggs, groupby, ts, key)
            },
        forall|p: int, q: int|
            0 <= p < aggregate_rows(aggs, groupby, ts).len() && 0 <= q < aggregate_rows(aggs, groupby, ts).len()
                && p != q ==> #[trigger] aggregate_rows(aggs, groupby, ts)[p].take(groupby.len() as int)
                != #[trigger] aggregate_rows(aggs, groupby, ts)[q].take(groupby.len() as int),
        forall|g: Seq<FieldV>|
            key_occurs(groupby, ts, g) ==> exists|p: int|
                0 <= p < aggregate_rows(aggs, groupby, ts).len() && #[trigger] aggregate_rows(
                    aggs,
                    groupby,
                    ts,
                )[p].take(groupby.len() as int) == g,
{
    let groups = aggregate_groups(aggs, groupby, ts);
    let rows = aggregate_rows(aggs, groupby, ts);
    lemma_aggregate_groups_keys(aggs, groupby, ts);
    assert forall|p: int| 0 <= p < groups.len() implies (#[trigger] groups[p]).0.len() == groupby.len()
        && rows[p].take(groupby.len() as int) == groups[p].0 && group_index(groups, groups[p].0) == p by {
        assert(has_group(groups, groups[p].0));
        assert(key_occurs(groupby, ts, groups[p].0));
        let i = choose|i: int| 0 <= i < ts.len() && group_key(groupby, ts[i]) == groups[p].0;
        assert(rows[p] == groups[p].0 + final_vals(aggs, groups[p].1));
        assert(rows[p].take(groupby.len() as int) =~= groups[p].0);
    }
    assert forall|p: int| 0 <= p < rows.len() implies {
        let row = #[trigger] rows[p];
        let key = row.take(groupby.len() as int);
        &&& key_occurs(groupby, ts, key)
        &&& row == key + result_of(aggs, groupby, ts, key)
    } by {
        assert(groups[p].0.len() == groupby.len());
        assert(has_group(groups, groups[p].0));
    }
    assert forall|g: Seq<FieldV>| key_occurs(groupby, ts, g) implies exists|p: int|
        0 <= p < rows.len() && #[trigger] rows[p].take(groupby.len() as int) == g by {
        assert(has_group(groups, g));
        let p = choose|p: int| 0 <= p < groups.len() && groups[p].0 == g;
        assert(groups[p].0.len() == groupby.len());
        assert(rows[p].take(groupby.len() as int) == g);
    }
    assert forall|p: int, q: int| 0 <= p < rows.len() && 0 <= q < rows.len() && p != q implies
        #[trigger] rows[p].take(groupby.len() as int) != #[trigger] rows[q].take(groupby.len() as int) by {
        assert(groups[p].0.len() == groupby.len());
        assert(groups[q].0.len() == groupby.len());
    }
}

/// A count is the number of tuples of the group.
pub proof fn law_aggregate_count(
    aggs: Seq<AggregateField>,
    groupby: Seq<usize>,
    ts: Seq<Seq<FieldV>>,
    g: Seq<FieldV>,
    k: int,
)
    requires
        aggregable(aggs, groupby, ts),
        key_occurs(groupby, ts, g),
        0 <= k < aggs.len(),
        aggs[k].op == AggOp::Count,
    ensures
        1 <= group_count(groupby, ts, g) <= i32::MAX,
        result_of(aggs, groupby, ts, g)[k] == FieldV::Int(group_count(groupby, ts, g) as i32),
{
    lemma_aggregate_groups_keys(aggs, groupby, ts);
    lemma_running_counts(aggs, groupby, ts, g, k);
    lemma_final_vals_at(aggs, running_of(aggs, groupby, ts, g), k);
}

/// A sum over integers is the sum of the field over the tuples of the group.
pub proof fn law_aggregate_sum(
    aggs: Seq<AggregateField>,
    groupby: Seq<usize>,
    ts: Seq<Seq<FieldV>>,
    g: Seq<FieldV>,
    k: int,
)
    requires
        aggregable(aggs, groupby, ts),
        key_occurs(groupby, ts, g),
        0 <= k < aggs.len(),
        aggs[k].op == AggOp::Sum,
        group_ints(groupby, ts, g, aggs[k].field as int),
    ensures
        fits_i32(group_sum(groupby, ts, g, aggs[k].field as int)),
        result_of(aggs, groupby, ts, g)[k] == FieldV::Int(group_sum(groupby, ts, g, aggs[k].field as int) as i32),
{
    lemma_aggregate_groups_keys(aggs, groupby, ts);
    lemma_running_counts(aggs, groupby, ts, g, k);
    lemma_final_vals_at(aggs, running_of(aggs, groupby, ts, g), k);
}

/// An average over integers is the sum of the field over the tuples of the
/// group divided by their number, rounded toward zero.
pub proof fn law_aggregate_avg(
    aggs: Seq<AggregateField>,
    groupby: Seq<usize>,
    ts: Seq<Seq<FieldV>>,
    g: Seq<FieldV>,
    k: int,
)
    requires
        aggregable(aggs, groupby, ts),
        key_occurs(groupby, ts, g),
        0 <= k < aggs.len(),
        aggs[k].op == AggOp::Avg,
        group_ints(groupby, ts, g, aggs[k].field as int),
    ensures
        result_of(aggs, groupby, ts, g)[k] == FieldV::Int(
            trunc_div(group_sum(groupby, ts, g, aggs[k].field as int), group_count(groupby, ts, g) as int) as i32,
        ),
{
    lemma_aggregate_groups_keys(aggs, groupby, ts);
    lemma_running_counts(aggs, groupby, ts, g, k);
    lemma_final_vals_at(aggs, running_of(aggs, groupby, ts, g), k);
}

/// A maximum is the field of one of the group's tuples, and no tuple of the
/// group has a greater one.
pub proof fn law_aggregate_max(
    aggs: Seq<AggregateField>,
    groupby: Seq<usize>,
    ts: Seq<Seq<FieldV>>,
    g: Seq<FieldV>,
    k: int,
)
    requires
        aggregable(aggs, groupby, ts),
        key_occurs(groupby, ts, g),
        0 <= k < aggs.len(),
        aggs[k].op == AggOp::Max,
    ensures
        exists|i: int|
            0 <= i < ts.len() && group_key(groupby, ts[i]) == g && result_of(aggs, groupby, ts, g)[k]
                == ts[i][aggs[k].field as int],
        forall|i: int|
            0 <= i < ts.len() && group_key(groupby, ts[i]) == g ==> !field_lt(
                result_of(aggs, groupby, ts, g)[k],
                ts[i][aggs[k].field as int],
            ),
{
    lemma_aggregate_groups_keys(aggs, groupby, ts);
    lemma_running_extreme(aggs, groupby, ts, g, k);
    lemma_final_vals_at(aggs, running_of(aggs, groupby, ts, g), k);
}

/// A minimum is the field of one of the group's tuples, and no tuple of the
/// group has a smaller one.
pub proof fn law_aggregate_min(
    aggs: Seq<AggregateField>,
    groupby: Seq<usize>,
    ts: Seq<Seq<FieldV>>,
    g: Seq<FieldV>,
    k: int,
)
    requires
        aggregable(aggs, groupby, ts),
        key_occurs(groupby, ts, g),
        0 <= k < aggs.len(),
        aggs[k].op == AggOp::Min,
    ensures
        exists|i: int|
            0 <= i < ts.len() && group_key(groupby, ts[i]) == g && result_of(aggs, groupby, ts, g)[k]
                == ts[i][aggs[k].field as int],
        forall|i: int|
            0 <= i < ts.len() && group_key(groupby, ts[i]) == g ==> !field_lt(
                ts[i][aggs[k].field as int],
                result_of(aggs, groupby, ts, g)[k],
            ),
{
    lemma_aggregate_groups_keys(aggs, groupby, ts);
    lemma_running_extreme(aggs, groupby, ts, g, k);
    lemma_final_vals_at(aggs, running_of(aggs, groupby, ts, g), k);
}

/// The value that aggregate `a` takes over the tuples of `ts` with the
/// group-by values `g`: the number of those tuples for a count; the sum of the
/// field, or that sum divided by the number of tuples rounded toward zero, for a
/// sum or an average over integers; for a maximum or a minimum, the field of one
/// of those tuples that no other one exceeds, or undercuts.
pub open spec fn group_value(
    a: AggregateField,
    groupby: Seq<usize>,
    ts: Seq<Seq<FieldV>>,
    g: Seq<FieldV>,
    v: FieldV,
) -> bool {
    let f = a.field as int;
    match a.op {
        AggOp::Count => v == FieldV::Int(group_count(groupby, ts, g) as i32),
        AggOp::Sum => group_ints(groupby, ts, g, f) ==> v == FieldV::Int(group_sum(groupby, ts, g, f) as i32),
        AggOp::Avg => group_ints(groupby, ts, g, f) ==> v == FieldV::Int(
            trunc_div(group_sum(groupby, ts, g, f), group_count(groupby, ts, g) as int) as i32,
        ),
        AggOp::Max => {
            &&& exists|i: int| 0 <= i < ts.len() && group_key(groupby, ts[i]) == g && v == ts[i][f]
            &&& forall|i: int| 0 <= i < ts.len() && group_key(groupby, ts[i]) == g ==> !field_lt(v, ts[i][f])
        },
        AggOp::Min => {
            &&& exists|i: int| 0 <= i < ts.len() && group_key(groupby, ts[i]) == g && v == ts[i][f]
            &&& forall|i: int| 0 <= i < ts.len() && group_key(groupby, ts[i]) == g ==> !field_lt(ts[i][f], v)
        },
    }
}

/// Aggregating tuples gives one row per group-by value that occurs among them,
/// with no value twice; each row holds the group-by values and then, for each
/// aggregate, its value over the tuples of that group.
pub proof fn law_aggregate_result(aggs: Seq<AggregateField>, groupby: Seq<usize>, ts: Seq<Seq<FieldV>>)
    requires
        aggregable(aggs, groupby, ts),
    ensures
        forall|p: int|
            0 <= p < aggregate_rows(aggs, groupby, ts).len() ==> {
                let row = #[trigger] aggregate_rows(aggs, groupby, ts)[p];
                let key = row.take(groupby.len() as int);
                &&& row.len() == groupby.len() + aggs.len()
                &&& key_occurs(groupby, ts, key)
                &&& forall|k: int|
                    0 <= k < aggs.len() ==> group_value(aggs[k], groupby, ts, key, #[trigger] row[groupby.len() + k])
            },
        forall|p: int, q: int|
            0 <= p < aggregate_rows(aggs, groupby, ts).len() && 0 <= q < aggregate_rows(aggs, groupby, ts).len()
                && p != q ==> #[trigger] aggregate_rows(aggs, groupby, ts)[p].take(groupby.len() as int)
                != #[trigger] aggregate_rows(aggs, groupby, ts)[q].take(groupby.len() as int),
        forall|g: Seq<FieldV>|
            key_occurs(groupby, ts, g) ==> exists|p: int|
                0 <= p < aggregate_rows(aggs, groupby, ts).len() && #[trigger] aggregate_rows(
                    aggs,
                    groupby,
                    ts,
                )[p].take(groupby.len() as int) == g,
{
    law_aggregate_rows(aggs, groupby, ts);
    let rows = aggregate_rows(aggs, groupby, ts);
    let gl = groupby.len() as int;
    assert forall|p: int| 0 <= p < rows.len() implies {
        let row = #[trigger] rows[p];
        let key = row.take(gl);
        &&& row.len() == groupby.len() + aggs.len()
        &&& key_occurs(groupby, ts, key)
        &&& forall|k: int| 0 <= k < aggs.len() ==> group_value(aggs[k], groupby, ts, key, #[trigger] row[gl + k])
    } by {
        let row = rows[p];
        let key = row.take(gl);
        let res = result_of(aggs, groupby, ts, key);
        assert(row == key + res);
        lemma_final_vals_len(aggs, running_of(aggs, groupby, ts, key));
        assert(key.len() == gl);
        assert forall|k: int| 0 <= k < aggs.len() implies group_value(aggs[k], groupby, ts, key, #[trigger] row[gl + k]) by {
            assert(row[gl + k] == res[k]);
            match aggs[k].op {
                AggOp::Count => law_aggregate_count(aggs, groupby, ts, key, k),
                AggOp::Sum => {
                    if group_ints(groupby, ts, key, aggs[k].field as int) {
                        law_aggregate_sum(aggs, groupby, ts, key, k);
                    }
                },
                AggOp::Avg => {
                    if group_ints(groupby, ts, key, aggs[k].field as int) {
                        law_aggregate_avg(aggs, groupby, ts, key, k);
                    }
                },
                AggOp::Max => law_aggregate_max(aggs, groupby, ts, key, k),
                AggOp::Min => law_aggregate_min(aggs, groupby, ts, key, k),
            }
        }
    }
}

/// An aggregator that has merged the tuples `ts` in order, and then merges `t`,
/// holds the groups of `ts` followed by `t`: from `Aggregator::new`, each merge
/// keeps the groups equal to those of the tuples merged so far, so the result
/// tuples of `Aggregator::iterator` are `aggregate_rows` of them.
pub proof fn law_aggregate_groups_push(
    aggs: Seq<AggregateField>,
    groupby: Seq<usize>,
    ts: Seq<Seq<FieldV>>,
    t: Seq<FieldV>,
)
    ensures
        aggregate_groups(aggs, groupby, Seq::empty()) == Seq::<Group>::empty(),
        aggregate_groups(aggs, groupby, ts.push(t)) == merge_groups(aggs, groupby, aggregate_groups(aggs, groupby, ts), t),
{
    assert(ts.push(t).drop_last() =~= ts);
}

/// Taking the tuple at `j` out of `s` takes it out of the count and the sum of
/// its group.
proof fn lemma_group_remove(groupby: Seq<usize>, s: Seq<Seq<FieldV>>, g: Seq<FieldV>, f: int, j: int)
    requires
        0 <= j < s.len(),
    ensures
        group_count(groupby, s, g) == group_count(groupby, s.remove(j), g) + if group_key(groupby, s[j]) == g {
            1nat
        } else {
            0nat
        },
        group_sum(groupby, s, g, f) == group_sum(groupby, s.remove(j), g, f) + if group_key(groupby, s[j]) == g {
            s[j][f].int_val()
        } else {
            0
        },
    decreases s.len(),
{
    if j == s.len() - 1 {
        assert(s.remove(j) =~= s.drop_last());
    } else {
        lemma_group_remove(groupby, s.drop_last(), g, f, j);
        assert(s.remove(j).drop_last() =~= s.drop_last().remove(j));
        assert(s.remove(j).last() == s.last());
        assert(s.drop_last()[j] == s[j]);
    }
}

/// The tuple at `i` of `s1` is somewhere in any `s2` with the same tuples.
proof fn lemma_same_tuples_member(s1: Seq<Seq<FieldV>>, s2: Seq<Seq<FieldV>>, i: int) -> (j: int)
    requires
        s1.to_multiset() == s2.to_multiset(),
        0 <= i < s1.len(),
    ensures
        0 <= j < s2.len(),
        s2[j] == s1[i],
{
    vstd::seq_lib::to_multiset_contains(s1, s1[i]);
    vstd::seq_lib::to_multiset_contains(s2, s1[i]);
    assert(s1.contains(s1[i]));
    choose|j: int| 0 <= j < s2.len() && s2[j] == s1[i]
}

/// Two sequences with the same tuples give each group the same count and sum.
proof fn lemma_group_same_tuples(groupby: Seq<usize>, s1: Seq<Seq<FieldV>>, s2: Seq<Seq<FieldV>>, g: Seq<FieldV>, f: int)
    requires
        s1.to_multiset() == s2.to_multiset(),
    ensures
        group_count(groupby, s1, g) == group_count(groupby, s2, g),
        group_sum(groupby, s1, g, f) == group_sum(groupby, s2, g, f),
    decreases s1.len(),
{
    if s1.len() == 0 {
        vstd::seq_lib::to_multiset_len(s1);
        vstd::seq_lib::to_multiset_len(s2);
        assert(s2 =~= Seq::<Seq<FieldV>>::empty());
    } else {
        let last = s1.len() - 1;
        let j = lemma_same_tuples_member(s1, s2, last);
        vstd::seq_lib::to_multiset_remove(s1, last);
        vstd::seq_lib::to_multiset_remove(s2, j);
        assert(s1.remove(last) =~= s1.drop_last());
        lemma_group_same_tuples(groupby, s1.drop_last(), s2.remove(j), g, f);
        lemma_group_remove(groupby, s2, g, f, j);
    }
}

/// A group-by value that occurs among some tuples occurs among the same tuples
/// in another order.
proof fn lemma_key_occurs_same_tuples(groupby: Seq<usize>, s1: Seq<Seq<FieldV>>, s2: Seq<Seq<FieldV>>, g: Seq<FieldV>)
    requires
        s1.to_multiset() == s2.to_multiset(),
        key_occurs(groupby, s1, g),
    ensures
        key_occurs(groupby, s2, g),
{
    let i = choose|i: int| 0 <= i < s1.len() && group_key(groupby, s1[i]) == g;
    let j = lemma_same_tuples_member(s1, s2, i);
}

/// The field that a sum or an average adds is an integer in every tuple of the
/// group, or the group has a single tuple and keeps its field as it is.
proof fn lemma_running_sum_shape(
    aggs: Seq<AggregateField>,
    groupby: Seq<usize>,
    ts: Seq<Seq<FieldV>>,
    g: Seq<FieldV>,
    k: int,
)
    requires
        aggregable(aggs, groupby, ts),
        has_group(aggregate_groups(aggs, groupby, ts), g),
        0 <= k < aggs.len(),
        aggs[k].op == AggOp::Sum || aggs[k].op == AggOp::Avg,
    ensures
        group_ints(groupby, ts, g, aggs[k].field as int) || {
            &&& group_count(groupby, ts, g) == 1
            &&& forall|i: int|
                0 <= i < ts.len() && group_key(groupby, ts[i]) == g ==> ts[i][aggs[k].field as int] == running_of(
                    aggs,
                    groupby,
                    ts,
                    g,
                )[offset(aggs, k) as int]
        },
    decreases ts.len(),
{
    let rest = ts.drop_last();
    let t = ts.last();
    let last = ts.len() - 1;
    let a = aggs[k];
    let f = a.field as int;
    let o = offset(aggs, k) as int;
    let g0 = aggregate_groups(aggs, groupby, rest);
    let v = running_of(aggs, groupby, ts, g);
    lemma_group_step(aggs, groupby, ts, g);
    lemma_aggregable_prefix(aggs, groupby, ts);
    lemma_aggregate_groups_keys(aggs, groupby, rest);
    assert(t == ts[last]);
    if group_key(groupby, t) != g {
        lemma_running_sum_shape(aggs, groupby, rest, g, k);
        assert(v == running_of(aggs, groupby, rest, g));
        assert(group_count(groupby, ts, g) == group_count(groupby, rest, g));
        if group_ints(groupby, rest, g, f) {
            assert forall|i: int| 0 <= i < ts.len() && group_key(groupby, ts[i]) == g implies ts[i][f] is Int by {
                assert(i < last);
                assert(ts[i] == rest[i]);
            }
        } else {
            assert forall|i: int| 0 <= i < ts.len() && group_key(groupby, ts[i]) == g implies ts[i][f] == v[o] by {
                assert(i < last);
                assert(ts[i] == rest[i]);
            }
        }
    } else if has_group(g0, g) {
        lemma_running_sum_shape(aggs, groupby, rest, g, k);
        let old = running_of(aggs, groupby, rest, g);
        assert(old == g0[group_index(g0, g)].1);
        assert(update_ok(aggs, old, t));
        assert(chunk_ok(a, old, o, t));
        assert(old[o] is Int);
        assert(t[f] is Int);
        assert forall|i: int| 0 <= i < ts.len() && group_key(groupby, ts[i]) == g implies ts[i][f] is Int by {
            if i < last {
                assert(ts[i] == rest[i]);
            }
        }
    } else {
        assert(!key_occurs(groupby, rest, g));
        lemma_absent_group(groupby, rest, g, f);
        assert(v == init_vals(aggs, t));
        lemma_init_vals_at(aggs, t, k, 0);
        assert(v[o] == t[f]);
        assert(group_count(groupby, ts, g) == 1);
        assert forall|i: int| 0 <= i < ts.len() && group_key(groupby, ts[i]) == g implies ts[i][f] == v[o] by {
            if i < last {
                assert(ts[i] == rest[i]);
                assert(key_occurs(groupby, rest, g));
            }
        }
    }
}

/// The aggregate values of a group are the same whatever the order of the tuples.
proof fn lemma_result_same_tuples(
    aggs: Seq<AggregateField>,
    groupby: Seq<usize>,
    s1: Seq<Seq<FieldV>>,
    s2: Seq<Seq<FieldV>>,
    g: Seq<FieldV>,
)
    requires
        s1.to_multiset() == s2.to_multiset(),
        aggregate_ok(aggs, groupby, s1),
        aggregate_ok(aggs, groupby, s2),
        key_occurs(groupby, s1, g),
    ensures
        result_of(aggs, groupby, s1, g) == result_of(aggs, groupby, s2, g),
{
    let m1 = s1.to_multiset();
    let m2 = s2.to_multiset();
    assert(m2 == m1);
    lemma_key_occurs_same_tuples(groupby, s1, s2, g);
    lemma_aggregate_groups_keys(aggs, groupby, s1);
    lemma_aggregate_groups_keys(aggs, groupby, s2);
    let v1 = running_of(aggs, groupby, s1, g);
    let v2 = running_of(aggs, groupby, s2, g);
    let r1 = result_of(aggs, groupby, s1, g);
    let r2 = result_of(aggs, groupby, s2, g);
    lemma_final_vals_len(aggs, v1);
    lemma_final_vals_len(aggs, v2);
    let gr1 = aggregate_groups(aggs, groupby, s1);
    let gr2 = aggregate_groups(aggs, groupby, s2);
    assert(finish_ok(aggs, v1)) by {
        assert(has_group(gr1, g));
        let p = group_index(gr1, g);
        assert(finish_ok(aggs, gr1[p].1));
    }
    assert(finish_ok(aggs, v2)) by {
        assert(has_group(gr2, g));
        let p = group_index(gr2, g);
        assert(finish_ok(aggs, gr2[p].1));
    }
    assert forall|k: int| 0 <= k < aggs.len() implies r1[k] == r2[k] by {
        let a = aggs[k];
        let f = a.field as int;
        let o = offset(aggs, k) as int;
        lemma_final_vals_at(aggs, v1, k);
        lemma_final_vals_at(aggs, v2, k);
        lemma_group_same_tuples(groupby, s1, s2, g, f);
        if a.op == AggOp::Max || a.op == AggOp::Min {
            lemma_running_extreme(aggs, groupby, s1, g, k);
            lemma_running_extreme(aggs, groupby, s2, g, k);
            let i1 = choose|i: int| 0 <= i < s1.len() && group_key(groupby, s1[i]) == g && v1[o] == s1[i][f];
            let i2 = choose|i: int| 0 <= i < s2.len() && group_key(groupby, s2[i]) == g && v2[o] == s2[i][f];
            let j1 = lemma_same_tuples_member(s1, s2, i1);
            let j2 = lemma_same_tuples_member(s2, s1, i2);
            lemma_field_lt_order(v1[o], v2[o]);
        } else if a.op == AggOp::Count {
            lemma_running_counts(aggs, groupby, s1, g, k);
            lemma_running_counts(aggs, groupby, s2, g, k);
        } else {
            lemma_running_sum_shape(aggs, groupby, s1, g, k);
            lemma_running_sum_shape(aggs, groupby, s2, g, k);
            let i1 = choose|i: int| 0 <= i < s1.len() && group_key(groupby, s1[i]) == g;
            let j1 = lemma_same_tuples_member(s1, s2, i1);
            if group_ints(groupby, s1, g, f) {
                assert forall|i: int| 0 <= i < s2.len() && group_key(groupby, s2[i]) == g implies s2[i][f] is Int by {
                    let j = lemma_same_tuples_member(s2, s1, i);
                }
                lemma_running_counts(aggs, groupby, s1, g, k);
                lemma_running_counts(aggs, groupby, s2, g, k);
            } else {
                let i0 = choose|i: int| 0 <= i < s1.len() && group_key(groupby, s1[i]) == g && !(s1[i][f] is Int);
                let j0 = lemma_same_tuples_member(s1, s2, i0);
                assert(!group_ints(groupby, s2, g, f));
                assert(v1[o] == s1[i0][f]);
                assert(v2[o] == s2[j0][f]);
                if a.op == AggOp::Avg {
                    assert(v1[o] is Int);
                }
            }
        }
    }
    assert(r1 =~= r2);
}

/// A result row is the row of its group-by values.
proof fn lemma_row_of_key(aggs: Seq<AggregateField>, groupby: Seq<usize>, ts: Seq<Seq<FieldV>>, x: Seq<FieldV>)
    requires
        aggregate_rows(aggs, groupby, ts).contains(x),
    ensures
        key_occurs(groupby, ts, x.take(groupby.len() as int)),
        x == x.take(groupby.len() as int) + result_of(aggs, groupby, ts, x.take(groupby.len() as int)),
{
    law_aggregate_rows(aggs, groupby, ts);
    let rows = aggregate_rows(aggs, groupby, ts);
    let p = choose|p: int| 0 <= p < rows.len() && rows[p] == x;
    assert(rows[p] == x);
}

/// The rows of tuples that are the rows of the same tuples in another order.
proof fn lemma_rows_included(aggs: Seq<AggregateField>, groupby: Seq<usize>, s1: Seq<Seq<FieldV>>, s2: Seq<Seq<FieldV>>)
    requires
        s1.to_multiset() == s2.to_multiset(),
        aggregate_ok(aggs, groupby, s1),
        aggregate_ok(aggs, groupby, s2),
    ensures
        forall|x: Seq<FieldV>|
            aggregate_rows(aggs, groupby, s1).contains(x) ==> aggregate_rows(aggs, groupby, s2).contains(x),
{
    law_aggregate_rows(aggs, groupby, s2);
    let rows2 = aggregate_rows(aggs, groupby, s2);
    let gl = groupby.len() as int;
    assert forall|x: Seq<FieldV>| aggregate_rows(aggs, groupby, s1).contains(x) implies rows2.contains(x) by {
        lemma_row_of_key(aggs, groupby, s1, x);
        let key = x.take(gl);
        lemma_key_occurs_same_tuples(groupby, s1, s2, key);
        lemma_result_same_tuples(aggs, groupby, s1, s2, key);
        let q = choose|q: int| 0 <= q < rows2.len() && #[trigger] rows2[q].take(gl) == key;
        assert(rows2[q] == key + result_of(aggs, groupby, s2, key));
        assert(rows2[q] == x);
    }
}

/// The result rows have no row twice.
proof fn lemma_rows_distinct(aggs: Seq<AggregateField>, groupby: Seq<usize>, ts: Seq<Seq<FieldV>>)
    ensures
        aggregate_rows(aggs, groupby, ts).no_duplicates(),
{
    law_aggregate_rows(aggs, groupby, ts);
    let rows = aggregate_rows(aggs, groupby, ts);
    let gl = groupby.len() as int;
    assert forall|p: int, q: int| 0 <= p < rows.len() && 0 <= q < rows.len() && p != q implies rows[p] != rows[q] by {
        assert(rows[p].take(gl) != rows[q].take(gl));
    }
}

/// The order in which the tuples are merged does not change the result: the
/// same tuples in any order, each merge and the result succeeding, give the
/// same rows, perhaps in another order.
pub proof fn law_aggregate_merge_order(
    aggs: Seq<AggregateField>,
    groupby: Seq<usize>,
    s1: Seq<Seq<FieldV>>,
    s2: Seq<Seq<FieldV>>,
)
    requires
        s1.to_multiset() == s2.to_multiset(),
        aggregate_ok(aggs, groupby, s1),
        aggregate_ok(aggs, groupby, s2),
    ensures
        aggregate_rows(aggs, groupby, s1).to_multiset() == aggregate_rows(aggs, groupby, s2).to_multiset(),
{
    let rows1 = aggregate_rows(aggs, groupby, s1);
    let rows2 = aggregate_rows(aggs, groupby, s2);
    lemma_rows_included(aggs, groupby, s1, s2);
    lemma_rows_included(aggs, groupby, s2, s1);
    lemma_rows_distinct(aggs, groupby, s1);
    lemma_rows_distinct(aggs, groupby, s2);
    rows1.lemma_multiset_has_no_duplicates();
    rows2.lemma_multiset_has_no_duplicates();
    assert forall|x: Seq<FieldV>| rows1.to_multiset().count(x) == rows2.to_multiset().count(x) by {
        vstd::seq_lib::to_multiset_contains(rows1, x);
        vstd::seq_lib::to_multiset_contains(rows2, x);
        if rows1.contains(x) {
            assert(rows2.contains(x));
        } else if rows2.contains(x) {
            assert(rows1.contains(x));
        }
    }
    assert(rows1.to_multiset() =~= rows2.to_multiset());
}

/// Two aggregators of the same aggregates and group-by fields, one of which has
/// merged the same tuples as the other in another order, each merge and the
/// result succeeding, give the same result tuples, perhaps in another order.
pub proof fn law_aggregator_merge_order(a: &Aggregator, b: &Aggregator, s1: Seq<Seq<FieldV>>, s2: Seq<Seq<FieldV>>)
    requires
        a.aggs() == b.aggs(),
        a.groupby() == b.groupby(),
        a.groups() == aggregate_groups(a.aggs(), a.groupby(), s1),
        b.groups() == aggregate_groups(b.aggs(), b.groupby(), s2),
        s1.to_multiset() == s2.to_multiset(),
        aggregate_ok(a.aggs(), a.groupby(), s1),
        aggregate_ok(b.aggs(), b.groupby(), s2),
    ensures
        group_rows(a.aggs(), a.groups()).to_multiset() == group_rows(b.aggs(), b.groups()).to_multiset(),
{
    law_aggregate_merge_order(a.aggs(), a.groupby(), s1, s2);
}

/// The group-by values of a tuple are its fields at the group-by indices, in
/// order; two tuples fall in the same group exactly when those fields are equal.
pub proof fn law_group_key(groupby: Seq<usize>, t: Seq<FieldV>, u: Seq<FieldV>)
    ensures
        group_key(groupby, t).len() == groupby.len(),
        forall|i: int| 0 <= i < groupby.len() ==> #[trigger] group_key(groupby, t)[i] == t[groupby[i] as int],
        group_key(groupby, t) == group_key(groupby, u) <==> forall|i: int|
            0 <= i < groupby.len() ==> t[#[trigger] groupby[i] as int] == u[groupby[i] as int],
{
    if forall|i: int| 0 <= i < groupby.len() ==> t[#[trigger] groupby[i] as int] == u[groupby[i] as int] {
        assert(group_key(groupby, t) =~= group_key(groupby, u));
    }
    if group_key(groupby, t) == group_key(groupby, u) {
        assert forall|i: int| 0 <= i < groupby.len() implies t[#[trigger] groupby[i] as int] == u[groupby[i] as int] by {
            assert(group_key(groupby, t)[i] == group_key(groupby, u)[i]);
        }
    }
}

/// Over integers, the maximum of a group is the numerically largest of its
/// fields.
pub proof fn law_aggregate_max_int(
    aggs: Seq<AggregateField>,
    groupby: Seq<usize>,
    ts: Seq<Seq<FieldV>>,
    g: Seq<FieldV>,
    k: int,
)
    requires
        aggregable(aggs, groupby, ts),
        key_occurs(groupby, ts, g),
        0 <= k < aggs.len(),
        aggs[k].op == AggOp::Max,
        group_ints(groupby, ts, g, aggs[k].field as int),
    ensures
        result_of(aggs, groupby, ts, g)[k] is Int,
        forall|i: int|
            0 <= i < ts.len() && group_key(groupby, ts[i]) == g ==> ts[i][aggs[k].field as int].int_val()
                <= result_of(aggs, groupby, ts, g)[k].int_val(),
        exists|i: int|
            0 <= i < ts.len() && group_key(groupby, ts[i]) == g && ts[i][aggs[k].field as int].int_val()
                == result_of(aggs, groupby, ts, g)[k].int_val(),
{
    law_aggregate_max(aggs, groupby, ts, g, k);
    let f = aggs[k].field as int;
    let v = result_of(aggs, groupby, ts, g)[k];
    let i0 = choose|i: int| 0 <= i < ts.len() && group_key(groupby, ts[i]) == g && v == ts[i][f];
    assert forall|i: int| 0 <= i < ts.len() && group_key(groupby, ts[i]) == g implies ts[i][f].int_val() <= v.int_val() by {
        law_field_order(v->Int_0, ts[i][f]->Int_0, Seq::empty(), Seq::empty());
    }
}

/// Over integers, the minimum of a group is the numerically smallest of its
/// fields.
pub proof fn law_aggregate_min_int(
    aggs: Seq<AggregateField>,
    groupby: Seq<usize>,
    ts: Seq<Seq<FieldV>>,
    g: Seq<FieldV>,
    k: int,
)
    requires
        aggregable(aggs, groupby, ts),
        key_occurs(groupby, ts, g),
        0 <= k < aggs.len(),
        aggs[k].op == AggOp::Min,
        group_ints(groupby, ts, g, aggs[k].field as int),
    ensures
        result_of(aggs, groupby, ts, g)[k] is Int,
        forall|i: int|
            0 <= i < ts.len() && group_key(groupby, ts[i]) == g ==> result_of(aggs, groupby, ts, g)[k].int_val()
                <= ts[i][aggs[k].field as int].int_val(),
        exists|i: int|
            0 <= i < ts.len() && group_key(groupby, ts[i]) == g && ts[i][aggs[k].field as int].int_val()
                == result_of(aggs, groupby, ts, g)[k].int_val(),
{
    law_aggregate_min(aggs, groupby, ts, g, k);
    let f = aggs[k].field as int;
    let v = result_of(aggs, groupby, ts, g)[k];
    let i0 = choose|i: int| 0 <= i < ts.len() && group_key(groupby, ts[i]) == g && v == ts[i][f];
    assert forall|i: int| 0 <= i < ts.len() && group_key(groupby, ts[i]) == g implies v.int_val() <= ts[i][f].int_val() by {
        law_field_order(ts[i][f]->Int_0, v->Int_0, Seq::empty(), Seq::empty());
    }
}

/// The result schema of an aggregate has, for each group-by field, its new name
/// and the type of that field in the input, then, for each aggregate, its name
/// with the integer type.
pub proof fn law_aggregate_schema(
    groupby: Seq<usize>,
    groupby_names: Seq<Seq<char>>,
    n_aggs: nat,
    agg_names: Seq<Seq<char>>,
    child_schema: Seq<AttributeV>,
)
    ensures
        aggregate_schema(groupby, groupby_names, n_aggs, agg_names, child_schema).len() == groupby.len() + n_aggs,
        forall|i: int|
            0 <= i < groupby.len() ==> #[trigger] aggregate_schema(
                groupby,
                groupby_names,
                n_aggs,
                agg_names,
                child_schema,
            )[i] == (groupby_names[i], child_schema[groupby[i] as int].1),
        forall|k: int|
            0 <= k < n_aggs ==> #[trigger] aggregate_schema(groupby, groupby_names, n_aggs, agg_names, child_schema)[groupby.len()
                + k] == (agg_names[k], DataType::Int),
{
}

/// An average divides by a positive count and rounds toward zero: the quotient
/// times the count falls short of the sum by less than the count, on the side
/// of zero.
pub proof fn law_trunc_div(a: int, b: int)
    requires
        b > 0,
    ensures
        a >= 0 ==> 0 <= a - trunc_div(a, b) * b < b,
        a < 0 ==> -b < a - trunc_div(a, b) * b <= 0,
{
    if a >= 0 {
        assert(0 <= a - (a / b) * b < b) by (nonlinear_arith)
            requires
                a >= 0,
                b > 0,
        {
            vstd::arithmetic::div_mod::lemma_fundamental_div_mod(a, b);
        }
    } else {
        let c = -a;
        assert(0 <= c - (c / b) * b < b) by (nonlinear_arith)
            requires
                c > 0,
                b > 0,
        {
            vstd::arithmetic::div_mod::lemma_fundamental_div_mod(c, b);
        }
        assert(a - trunc_div(a, b) * b == -(c - (c / b) * b)) by (nonlinear_arith)
            requires
                c == -a,
                trunc_div(a, b) == -(c / b),
        ;
    }
}

} // verus!
