use vstd::prelude::*;
use crate::field::{field_max, field_min, fields_view, max_field, min_field, AggOp, CrustyError, DataType, Field, FieldV};
use crate::opiterator::{infallible, same_plan, tuples_view, OpIterator, TupleIterator};
use crate::tuple::{duplicate_fields, same_fields, Attribute, AttributeV, TableSchema, Tuple};

verus! {

/// The index of the field to aggregate and the function to apply to it.
#[derive(Clone, Copy, Debug, PartialEq, Eq, Structural)]
pub struct AggregateField {
    pub field: usize,
    pub op: AggOp,
}

/// A group: the values of its group-by fields, and its running aggregate values.
pub type Group = (Seq<FieldV>, Seq<FieldV>);

/// How many running values an aggregate function keeps: a sum and a count for
/// an average, one value otherwise.
pub open spec fn width(op: AggOp) -> nat {
    if op == AggOp::Avg { 2 } else { 1 }
}

/// How many running values a group keeps for `aggs`.
pub open spec fn total_width(aggs: Seq<AggregateField>) -> nat
    decreases aggs.len(),
{
    if aggs.len() == 0 {
        0
    } else {
        total_width(aggs.drop_last()) + width(aggs.last().op)
    }
}

/// Where the running values of aggregate `k` start.
#[verifier::opaque]
pub open spec fn offset(aggs: Seq<AggregateField>, k: int) -> nat {
    total_width(aggs.take(k))
}

/// Whether an integer fits in an `i32`.
pub open spec fn fits_i32(x: int) -> bool {
    i32::MIN <= x <= i32::MAX
}

/// The sum of two integer fields, as an `i32`.
pub open spec fn sum_field(a: FieldV, b: FieldV) -> FieldV {
    FieldV::Int((a.int_val() + b.int_val()) as i32)
}

/// Integer division that rounds toward zero, as `i32` division does.
pub open spec fn trunc_div(a: int, b: int) -> int {
    if a >= 0 {
        a / b
    } else {
        -((-a) / b)
    }
}

/// The group-by values of tuple `t`.
pub open spec fn group_key(groupby: Seq<usize>, t: Seq<FieldV>) -> Seq<FieldV> {
    Seq::new(groupby.len(), |i: int| t[groupby[i] as int])
}

/// The running values of aggregate `a` for a group whose first tuple is `t`.
pub open spec fn init_chunk(a: AggregateField, t: Seq<FieldV>) -> Seq<FieldV> {
    match a.op {
        AggOp::Avg => seq![t[a.field as int], FieldV::Int(1)],
        AggOp::Count => seq![FieldV::Int(1)],
        _ => seq![t[a.field as int]],
    }
}

/// The running values of a group whose first tuple is `t`.
pub open spec fn init_vals(aggs: Seq<AggregateField>, t: Seq<FieldV>) -> Seq<FieldV>
    decreases aggs.len(),
{
    if aggs.len() == 0 {
        Seq::empty()
    } else {
        init_vals(aggs.drop_last(), t) + init_chunk(aggs.last(), t)
    }
}

/// The running values of aggregate `a`, kept from position `o` of `vals`, once
/// tuple `t` is added to the group.
pub open spec fn update_chunk(a: AggregateField, vals: Seq<FieldV>, o: int, t: Seq<FieldV>) -> Seq<FieldV> {
    let f = t[a.field as int];
    match a.op {
        AggOp::Avg => seq![sum_field(vals[o], f), FieldV::Int((vals[o + 1].int_val() + 1) as i32)],
        AggOp::Count => seq![FieldV::Int((vals[o].int_val() + 1) as i32)],
        AggOp::Max => seq![field_max(vals[o], f)],
        AggOp::Min => seq![field_min(vals[o], f)],
        AggOp::Sum => seq![sum_field(vals[o], f)],
    }
}

/// The running values of a group once tuple `t` is added to it.
pub open spec fn update_vals(aggs: Seq<AggregateField>, vals: Seq<FieldV>, t: Seq<FieldV>) -> Seq<FieldV>
    decreases aggs.len(),
{
    if aggs.len() == 0 {
        Seq::empty()
    } else {
        update_vals(aggs.drop_last(), vals, t) + update_chunk(
            aggs.last(),
            vals,
            total_width(aggs.drop_last()) as int,
            t,
        )
    }
}

/// Adding `t` to aggregate `a` neither meets a string where it adds nor
/// overflows.
pub open spec fn chunk_ok(a: AggregateField, vals: Seq<FieldV>, o: int, t: Seq<FieldV>) -> bool {
    let f = t[a.field as int];
    match a.op {
        AggOp::Avg => {
            &&& vals[o] is Int
            &&& f is Int
            &&& fits_i32(vals[o].int_val() + f.int_val())
            &&& fits_i32(vals[o + 1].int_val() + 1)
        },
        AggOp::Count => fits_i32(vals[o].int_val() + 1),
        AggOp::Sum => {
            &&& vals[o] is Int
            &&& f is Int
            &&& fits_i32(vals[o].int_val() + f.int_val())
        },
        _ => true,
    }
}

/// Tuple `t` can be added to a group with running values `vals`.
pub open spec fn update_ok(aggs: Seq<AggregateField>, vals: Seq<FieldV>, t: Seq<FieldV>) -> bool {
    forall|k: int| 0 <= k < aggs.len() ==> chunk_ok(aggs[k], vals, offset(aggs, k) as int, t)
}

/// The counts kept for aggregate `a` are positive integers.
pub open spec fn chunk_wf(a: AggregateField, vals: Seq<FieldV>, o: int) -> bool {
    match a.op {
        AggOp::Avg => vals[o + 1] is Int && vals[o + 1].int_val() >= 1,
        AggOp::Count => vals[o] is Int && vals[o].int_val() >= 1,
        _ => true,
    }
}

/// The running values of a group are well formed.
pub open spec fn vals_wf(aggs: Seq<AggregateField>, vals: Seq<FieldV>) -> bool {
    &&& vals.len() == total_width(aggs)
    &&& forall|k: int| 0 <= k < aggs.len() ==> chunk_wf(aggs[k], vals, offset(aggs, k) as int)
}

/// Tuple `t` has every field that a merge reads.
pub open spec fn tuple_fits(aggs: Seq<AggregateField>, groupby: Seq<usize>, t: Seq<FieldV>) -> bool {
    &&& forall|i: int| 0 <= i < groupby.len() ==> groupby[i] < t.len()
    &&& forall|k: int| 0 <= k < aggs.len() && aggs[k].op != AggOp::Count ==> aggs[k].field < t.len()
}

/// Some group has the given key.
pub open spec fn has_group(groups: Seq<Group>, key: Seq<FieldV>) -> bool {
    exists|i: int| 0 <= i < groups.len() && groups[i].0 == key
}

/// The position of the group with the given key.
pub open spec fn group_index(groups: Seq<Group>, key: Seq<FieldV>) -> int {
    choose|i: int| 0 <= i < groups.len() && groups[i].0 == key
}

/// The groups once tuple `t` is added: to the group with its key, or to a new
/// group after the others.
pub open spec fn merge_groups(
    aggs: Seq<AggregateField>,
    groupby: Seq<usize>,
    groups: Seq<Group>,
    t: Seq<FieldV>,
) -> Seq<Group> {
    let key = group_key(groupby, t);
    if has_group(groups, key) {
        let i = group_index(groups, key);
        groups.update(i, (key, update_vals(aggs, groups[i].1, t)))
    } else {
        groups.push((key, init_vals(aggs, t)))
    }
}

/// Tuple `t` can be added to the groups.
pub open spec fn can_merge(
    aggs: Seq<AggregateField>,
    groupby: Seq<usize>,
    groups: Seq<Group>,
    t: Seq<FieldV>,
) -> bool {
    let key = group_key(groupby, t);
    &&& tuple_fits(aggs, groupby, t)
    &&& has_group(groups, key) ==> update_ok(aggs, groups[group_index(groups, key)].1, t)
}

/// The groups have distinct keys and well-formed running values.
pub open spec fn groups_wf(aggs: Seq<AggregateField>, groups: Seq<Group>) -> bool {
    &&& forall|i: int, j: int|
        0 <= i < groups.len() && 0 <= j < groups.len() && i != j ==> groups[i].0 != groups[j].0
    &&& forall|i: int| 0 <= i < groups.len() ==> vals_wf(aggs, #[trigger] groups[i].1)
}

/// The groups after adding every tuple of `ts` in order.
pub open spec fn aggregate_groups(
    aggs: Seq<AggregateField>,
    groupby: Seq<usize>,
    ts: Seq<Seq<FieldV>>,
) -> Seq<Group>
    decreases ts.len(),
{
    if ts.len() == 0 {
        Seq::empty()
    } else {
        merge_groups(aggs, groupby, aggregate_groups(aggs, groupby, ts.drop_last()), ts.last())
    }
}

/// Each tuple of `ts` can be added to the groups of the tuples before it.
#[verifier::opaque]
pub open spec fn aggregable(aggs: Seq<AggregateField>, groupby: Seq<usize>, ts: Seq<Seq<FieldV>>) -> bool {
    forall|i: int|
        0 <= i < ts.len() ==> can_merge(aggs, groupby, aggregate_groups(aggs, groupby, ts.take(i)), ts[i])
}

/// The output values of aggregate `a` from the running values at `o`.
pub open spec fn final_chunk(a: AggregateField, vals: Seq<FieldV>, o: int) -> Seq<FieldV> {
    if a.op == AggOp::Avg {
        seq![FieldV::Int(trunc_div(vals[o].int_val(), vals[o + 1].int_val()) as i32)]
    } else {
        seq![vals[o]]
    }
}

/// The output values of a group.
pub open spec fn final_vals(aggs: Seq<AggregateField>, vals: Seq<FieldV>) -> Seq<FieldV>
    decreases aggs.len(),
{
    if aggs.len() == 0 {
        Seq::empty()
    } else {
        final_vals(aggs.drop_last(), vals) + final_chunk(aggs.last(), vals, total_width(aggs.drop_last()) as int)
    }
}

/// The sums kept for averages are integers.
pub open spec fn finish_ok(aggs: Seq<AggregateField>, vals: Seq<FieldV>) -> bool {
    forall|k: int| 0 <= k < aggs.len() && aggs[k].op == AggOp::Avg ==> vals[offset(aggs, k) as int] is Int
}

/// The result tuples: the key of each group followed by its output values.
pub open spec fn group_rows(aggs: Seq<AggregateField>, groups: Seq<Group>) -> Seq<Seq<FieldV>> {
    groups.map_values(|g: Group| g.0 + final_vals(aggs, g.1))
}

/// Aggregating `ts` neither fails on a tuple nor on the result.
pub open spec fn aggregate_ok(aggs: Seq<AggregateField>, groupby: Seq<usize>, ts: Seq<Seq<FieldV>>) -> bool {
    &&& aggregable(aggs, groupby, ts)
    &&& forall|i: int|
        0 <= i < aggregate_groups(aggs, groupby, ts).len() ==> finish_ok(
            aggs,
            #[trigger] aggregate_groups(aggs, groupby, ts)[i].1,
        )
}

/// The result of aggregating `ts`.
pub open spec fn aggregate_rows(aggs: Seq<AggregateField>, groupby: Seq<usize>, ts: Seq<Seq<FieldV>>) -> Seq<Seq<FieldV>> {
    group_rows(aggs, aggregate_groups(aggs, groupby, ts))
}

/// The tuple at position `i` of an aggregable sequence can be added to the
/// groups of the tuples before it.
pub proof fn lemma_aggregable_at(aggs: Seq<AggregateField>, groupby: Seq<usize>, ts: Seq<Seq<FieldV>>, i: int)
    requires
        aggregable(aggs, groupby, ts),
        0 <= i < ts.len(),
    ensures
        can_merge(aggs, groupby, aggregate_groups(aggs, groupby, ts.take(i)), ts[i]),
{
    reveal(aggregable);
}

pub proof fn lemma_total_width_take(aggs: Seq<AggregateField>, j: int)
    requires
        0 <= j <= aggs.len(),
    ensures
        total_width(aggs.take(j)) <= total_width(aggs),
    decreases aggs.len(),
{
    if j < aggs.len() {
        assert(aggs.take(j) =~= aggs.drop_last().take(j));
        lemma_total_width_take(aggs.drop_last(), j);
    } else {
        assert(aggs.take(j) =~= aggs);
    }
}

pub proof fn lemma_offset_step(aggs: Seq<AggregateField>, k: int)
    requires
        0 <= k < aggs.len(),
    ensures
        offset(aggs, k + 1) == offset(aggs, k) + width(aggs[k].op),
        offset(aggs, k + 1) <= total_width(aggs),
{
    reveal(offset);
    assert(aggs.take(k + 1).drop_last() =~= aggs.take(k));
    lemma_total_width_take(aggs, k + 1);
}

/// Offsets grow with the aggregate's position.
pub proof fn lemma_offset_mono(aggs: Seq<AggregateField>, a: int, b: int)
    requires
        0 <= a <= b <= aggs.len(),
    ensures
        offset(aggs, a) <= offset(aggs, b),
{
    reveal(offset);
    assert(aggs.take(b).take(a) =~= aggs.take(a));
    lemma_total_width_take(aggs.take(b), a);
}

pub proof fn lemma_offset_ends(aggs: Seq<AggregateField>)
    ensures
        offset(aggs, 0) == 0,
        offset(aggs, aggs.len() as int) == total_width(aggs),
{
    reveal(offset);
    assert(aggs.take(0).len() == 0);
    assert(aggs.take(aggs.len() as int) =~= aggs);
}

pub proof fn lemma_update_vals_step(a: Seq<AggregateField>, v: Seq<FieldV>, t: Seq<FieldV>, k: int)
    requires
        0 <= k < a.len(),
    ensures
        update_vals(a.take(k + 1), v, t) == update_vals(a.take(k), v, t) + update_chunk(
            a[k],
            v,
            offset(a, k) as int,
            t,
        ),
{
    reveal(offset);
    assert(a.take(k + 1).drop_last() =~= a.take(k));
}

pub proof fn lemma_final_vals_step(a: Seq<AggregateField>, v: Seq<FieldV>, k: int)
    requires
        0 <= k < a.len(),
    ensures
        final_vals(a.take(k + 1), v) == final_vals(a.take(k), v) + final_chunk(a[k], v, offset(a, k) as int),
{
    reveal(offset);
    assert(a.take(k + 1).drop_last() =~= a.take(k));
}

/// Appending values keeps the counts of the aggregates before the end well formed.
pub proof fn lemma_chunks_wf_extend(a: Seq<AggregateField>, prev: Seq<FieldV>, ext: Seq<FieldV>, k: int)
    requires
        0 <= k <= a.len(),
        prev.len() == offset(a, k),
        forall|j: int| 0 <= j < k ==> chunk_wf(a[j], prev, offset(a, j) as int),
    ensures
        forall|j: int| 0 <= j < k ==> chunk_wf(a[j], prev + ext, offset(a, j) as int),
{
    assert forall|j: int| 0 <= j < k implies chunk_wf(a[j], prev + ext, offset(a, j) as int) by {
        lemma_offset_step(a, j);
        lemma_offset_mono(a, j + 1, k);
        assert(chunk_wf(a[j], prev, offset(a, j) as int));
    }
}

} // verus!

verus! {

/// The running values of a new group whose first tuple is `tuple`.
fn init_group_vals(aggs: &Vec<AggregateField>, tuple: &Tuple) -> (r: Vec<Field>)
    requires
        forall|k: int|
            0 <= k < aggs.len() && aggs@[k].op != AggOp::Count ==> aggs@[k].field < tuple@.len(),
    ensures
        fields_view(r@) == init_vals(aggs@, tuple@),
        vals_wf(aggs@, fields_view(r@)),
{
    let ghost a = aggs@;
    let ghost t = tuple@;
    let mut res: Vec<Field> = Vec::new();
    let mut k: usize = 0;
    proof {
        lemma_offset_ends(a);
    }
    while k < aggs.len()
        invariant
            k <= a.len(),
            aggs@ == a,
            tuple@ == t,
            forall|k: int| 0 <= k < a.len() && a[k].op != AggOp::Count ==> a[k].field < t.len(),
            fields_view(res@) == init_vals(a.take(k as int), t),
            res.len() == offset(a, k as int),
            forall|j: int| 0 <= j < k ==> chunk_wf(a[j], fields_view(res@), offset(a, j) as int),
        decreases a.len() - k,
    {
        let ghost prev = fields_view(res@);
        let af = aggs[k];
        match af.op {
            AggOp::Avg => {
                res.push(tuple.get_field(af.field).unwrap().duplicate());
                res.push(Field::IntField(1));
            },
            AggOp::Count => {
                res.push(Field::IntField(1));
            },
            _ => {
                res.push(tuple.get_field(af.field).unwrap().duplicate());
            },
        }
        proof {
            assert(a.take(k + 1).drop_last() =~= a.take(k as int));
            lemma_offset_step(a, k as int);
            assert(fields_view(res@) =~= prev + init_chunk(a[k as int], t));
            lemma_chunks_wf_extend(a, prev, init_chunk(a[k as int], t), k as int);
        }
        k = k + 1;
    }
    assert(a.take(a.len() as int) =~= a);
    proof {
        lemma_offset_ends(a);
    }
    res
}

/// The running values of aggregate `af`, kept from position `pos` of `vals`,
/// once `tuple` is added to the group.
fn update_group_chunk(af: AggregateField, vals: &Vec<Field>, pos: usize, tuple: &Tuple) -> (r: Vec<Field>)
    requires
        pos + width(af.op) <= vals.len(),
        chunk_ok(af, fields_view(vals@), pos as int, tuple@),
        chunk_wf(af, fields_view(vals@), pos as int),
        af.op != AggOp::Count ==> af.field < tuple@.len(),
    ensures
        fields_view(r@) == update_chunk(af, fields_view(vals@), pos as int, tuple@),
{
    let ghost v = fields_view(vals@);
    let mut res: Vec<Field> = Vec::new();
    match af.op {
        AggOp::Avg => {
            let s = vals[pos].unwrap_int_field() + tuple.get_field(af.field).unwrap().unwrap_int_field();
            res.push(Field::IntField(s));
            let c = vals[pos + 1].unwrap_int_field() + 1;
            res.push(Field::IntField(c));
        },
        AggOp::Count => {
            let c = vals[pos].unwrap_int_field() + 1;
            res.push(Field::IntField(c));
        },
        AggOp::Max => {
            res.push(max_field(vals[pos].duplicate(), tuple.get_field(af.field).unwrap().duplicate()));
        },
        AggOp::Min => {
            res.push(min_field(vals[pos].duplicate(), tuple.get_field(af.field).unwrap().duplicate()));
        },
        AggOp::Sum => {
            let s = vals[pos].unwrap_int_field() + tuple.get_field(af.field).unwrap().unwrap_int_field();
            res.push(Field::IntField(s));
        },
    }
    assert(fields_view(res@) =~= update_chunk(af, v, pos as int, tuple@));
    res
}

/// The running values of a group once `tuple` is added to it.
fn update_group_vals(aggs: &Vec<AggregateField>, vals: &Vec<Field>, tuple: &Tuple) -> (r: Vec<Field>)
    requires
        vals_wf(aggs@, fields_view(vals@)),
        update_ok(aggs@, fields_view(vals@), tuple@),
        forall|k: int|
            0 <= k < aggs.len() && aggs@[k].op != AggOp::Count ==> aggs@[k].field < tuple@.len(),
    ensures
        fields_view(r@) == update_vals(aggs@, fields_view(vals@), tuple@),
        vals_wf(aggs@, fields_view(r@)),
{
    let ghost a = aggs@;
    let ghost t = tuple@;
    let ghost v = fields_view(vals@);
    let mut res: Vec<Field> = Vec::new();
    let mut k: usize = 0;
    let mut pos: usize = 0;
    proof {
        lemma_offset_ends(a);
    }
    while k < aggs.len()
        invariant
            k <= a.len(),
            aggs@ == a,
            tuple@ == t,
            fields_view(vals@) == v,
            vals_wf(a, v),
            update_ok(a, v, t),
            forall|k: int| 0 <= k < a.len() && a[k].op != AggOp::Count ==> a[k].field < t.len(),
            fields_view(res@) == update_vals(a.take(k as int), v, t),
            pos == offset(a, k as int),
            res.len() == pos,
            forall|j: int| 0 <= j < k ==> chunk_wf(a[j], fields_view(res@), offset(a, j) as int),
        decreases a.len() - k,
    {
        let ghost prev = fields_view(res@);
        proof {
            lemma_offset_step(a, k as int);
            assert(v.len() == vals.len());
            assert(pos + width(a[k as int].op) <= vals.len());
            assert(chunk_ok(a[k as int], v, pos as int, t));
            assert(chunk_wf(a[k as int], v, pos as int));
        }
        let af = aggs[k];
        let mut chunk = update_group_chunk(af, vals, pos, tuple);
        let ghost c = fields_view(chunk@);
        res.append(&mut chunk);
        proof {
            lemma_update_vals_step(a, v, t, k as int);
            assert(fields_view(res@) =~= prev + c);
            lemma_chunks_wf_extend(a, prev, c, k as int);
        }
        pos = pos + if af.op == AggOp::Avg { 2 } else { 1 };
        k = k + 1;
    }
    assert(a.take(a.len() as int) =~= a);
    proof {
        lemma_offset_ends(a);
    }
    res
}

} // verus!

verus! {

/// The output values of aggregate `af` from the running values at `pos`.
fn final_group_chunk(af: AggregateField, vals: &Vec<Field>, pos: usize) -> (r: Field)
    requires
        pos + width(af.op) <= vals.len(),
        chunk_wf(af, fields_view(vals@), pos as int),
        af.op == AggOp::Avg ==> fields_view(vals@)[pos as int] is Int,
    ensures
        seq![r@] == final_chunk(af, fields_view(vals@), pos as int),
{
    let ghost v = fields_view(vals@);
    if af.op == AggOp::Avg {
        let s = vals[pos].unwrap_int_field();
        let c = vals[pos + 1].unwrap_int_field();
        Field::IntField(s / c)
    } else {
        vals[pos].duplicate()
    }
}

/// The output values of a group.
fn final_group_vals(aggs: &Vec<AggregateField>, vals: &Vec<Field>) -> (r: Vec<Field>)
    requires
        vals_wf(aggs@, fields_view(vals@)),
        finish_ok(aggs@, fields_view(vals@)),
    ensures
        fields_view(r@) == final_vals(aggs@, fields_view(vals@)),
{
    let ghost a = aggs@;
    let ghost v = fields_view(vals@);
    let mut res: Vec<Field> = Vec::new();
    let mut k: usize = 0;
    let mut pos: usize = 0;
    proof {
        lemma_offset_ends(a);
    }
    while k < aggs.len()
        invariant
            k <= a.len(),
            aggs@ == a,
            fields_view(vals@) == v,
            vals_wf(a, v),
            finish_ok(a, v),
            fields_view(res@) == final_vals(a.take(k as int), v),
            pos == offset(a, k as int),
        decreases a.len() - k,
    {
        let ghost prev = fields_view(res@);
        proof {
            lemma_offset_step(a, k as int);
            lemma_final_vals_step(a, v, k as int);
            assert(v.len() == vals.len());
            assert(chunk_wf(a[k as int], v, pos as int));
        }
        let af = aggs[k];
        let f = final_group_chunk(af, vals, pos);
        res.push(f);
        assert(fields_view(res@) =~= prev + final_chunk(a[k as int], v, pos as int));
        pos = pos + if af.op == AggOp::Avg { 2 } else { 1 };
        k = k + 1;
    }
    assert(a.take(a.len() as int) =~= a);
    res
}

/// The position of the group whose key has the values of `key`, if there is one.
fn find_group(groups: &Vec<(Vec<Field>, Vec<Field>)>, key: &Vec<Field>) -> (r: Option<usize>)
    ensures
        match r {
            Some(i) => i < groups.len() && fields_view(groups@[i as int].0@) == fields_view(key@),
            None => forall|j: int|
                0 <= j < groups.len() ==> fields_view(groups@[j].0@) != fields_view(key@),
        },
{
    let mut i: usize = 0;
    while i < groups.len()
        invariant
            i <= groups.len(),
            forall|j: int| 0 <= j < i ==> fields_view(groups@[j].0@) != fields_view(key@),
        decreases groups.len() - i,
    {
        if same_fields(&groups[i].0, key) {
            return Some(i);
        }
        i = i + 1;
    }
    None
}

/// The values of the groups of an aggregator.
pub open spec fn groups_view(g: Seq<(Vec<Field>, Vec<Field>)>) -> Seq<Group> {
    g.map_values(|e: (Vec<Field>, Vec<Field>)| (fields_view(e.0@), fields_view(e.1@)))
}

/// Computes aggregate functions over groups of tuples.
pub struct Aggregator {
    agg_fields: Vec<AggregateField>,
    groupby_fields: Vec<usize>,
    schema: TableSchema,
    group_vals: Vec<(Vec<Field>, Vec<Field>)>,
}

impl Aggregator {
    /// The aggregates computed.
    pub closed spec fn aggs(&self) -> Seq<AggregateField> {
        self.agg_fields@
    }

    /// The indices of the group-by fields.
    pub closed spec fn groupby(&self) -> Seq<usize> {
        self.groupby_fields@
    }

    /// The schema of the result tuples.
    pub closed spec fn schema_view(&self) -> Seq<AttributeV> {
        self.schema@
    }

    /// The groups met so far, in the order of their first tuple.
    pub closed spec fn groups(&self) -> Seq<Group> {
        groups_view(self.group_vals@)
    }

    /// The aggregator's invariant.
    pub closed spec fn wf(&self) -> bool {
        groups_wf(self.aggs(), self.groups())
    }

    /// An aggregator of `agg_fields` grouped by `groupby_fields`, with no group yet.
    pub fn new(agg_fields: Vec<AggregateField>, groupby_fields: Vec<usize>, schema: &TableSchema) -> (a: Aggregator)
        ensures
            a.wf(),
            a.aggs() == agg_fields@,
            a.groupby() == groupby_fields@,
            a.schema_view() == schema@,
            a.groups() == Seq::<Group>::empty(),
    {
        let a = Aggregator {
            agg_fields,
            groupby_fields,
            schema: schema.duplicate(),
            group_vals: Vec::new(),
        };
        assert(a.groups() =~= Seq::<Group>::empty());
        a
    }

    /// Adds a tuple to the group with its group-by values, creating that group
    /// when there is none.
    pub fn merge_tuple_into_group(&mut self, tuple: &Tuple)
        requires
            old(self).wf(),
            can_merge(old(self).aggs(), old(self).groupby(), old(self).groups(), tuple@),
        ensures
            final(self).wf(),
            final(self).aggs() == old(self).aggs(),
            final(self).groupby() == old(self).groupby(),
            final(self).schema_view() == old(self).schema_view(),
            final(self).groups() == merge_groups(old(self).aggs(), old(self).groupby(), old(self).groups(), tuple@),
    {
        let ghost a = self.agg_fields@;
        let ghost gb = self.groupby_fields@;
        let ghost g0 = self.groups();
        let ghost t = tuple@;
        let mut key: Vec<Field> = Vec::new();
        let mut i: usize = 0;
        while i < self.groupby_fields.len()
            invariant
                i <= gb.len(),
                self.groupby_fields@ == gb,
                tuple@ == t,
                tuple_fits(a, gb, t),
                key.len() == i,
                forall|j: int| 0 <= j < i ==> key@[j]@ == t[gb[j] as int],
            decreases gb.len() - i,
        {
            key.push(tuple.get_field(self.groupby_fields[i]).unwrap().duplicate());
            i = i + 1;
        }
        let ghost kv = group_key(gb, t);
        assert(fields_view(key@) =~= kv);
        match find_group(&self.group_vals, &key) {
            Some(gi) => {
                proof {
                    assert(g0[gi as int].0 == kv);
                    assert(has_group(g0, kv));
                    assert(group_index(g0, kv) == gi);
                    assert(vals_wf(a, g0[gi as int].1));
                }
                let vals = update_group_vals(&self.agg_fields, &self.group_vals[gi].1, tuple);
                let ghost nv = fields_view(vals@);
                self.group_vals.set(gi, (key, vals));
                assert(self.groups() =~= g0.update(gi as int, (kv, nv)));
            },
            None => {
                assert(!has_group(g0, kv));
                let vals = init_group_vals(&self.agg_fields, tuple);
                let ghost nv = fields_view(vals@);
                self.group_vals.push((key, vals));
                assert(self.groups() =~= g0.push((kv, nv)));
            },
        }
    }

    /// An iterator over the result tuples: for each group, in the order of its
    /// first tuple, its group-by values followed by its aggregate values.
    pub fn iterator(&self) -> (it: TupleIterator)
        requires
            self.wf(),
            forall|i: int| 0 <= i < self.groups().len() ==> finish_ok(self.aggs(), #[trigger] self.groups()[i].1),
        ensures
            it.wf(),
            !it.opened(),
            it.output() == group_rows(self.aggs(), self.groups()),
            it.schema_view() == self.schema_view(),
            it.valid_input(),
            it.can_open(),
            infallible(&it),
    {
        let ghost a = self.aggs();
        let ghost g = self.groups();
        let mut tuples: Vec<Tuple> = Vec::new();
        let mut i: usize = 0;
        while i < self.group_vals.len()
            invariant
                i <= g.len(),
                self.wf(),
                self.aggs() == a,
                self.groups() == g,
                forall|i: int| 0 <= i < g.len() ==> finish_ok(a, #[trigger] g[i].1),
                tuples.len() == i,
                forall|j: int| 0 <= j < i ==> #[trigger] tuples@[j]@ == g[j].0 + final_vals(a, g[j].1),
            decreases g.len() - i,
        {
            assert(vals_wf(a, g[i as int].1));
            let mut fields = duplicate_fields(&self.group_vals[i].0);
            let mut rest = final_group_vals(&self.agg_fields, &self.group_vals[i].1);
            let ghost f0 = fields_view(fields@);
            let ghost r0 = fields_view(rest@);
            fields.append(&mut rest);
            assert(fields_view(fields@) =~= f0 + r0);
            tuples.push(Tuple::new(fields));
            i = i + 1;
        }
        assert(tuples_view(tuples@) =~= group_rows(a, g));
        TupleIterator::new(tuples, self.schema.duplicate())
    }
}

} // verus!

verus! {

/// The error with which an aggregate's open fails: that of its input's open,
/// or else the error that ends its input, if any.
pub open spec fn input_error<O: OpIterator>(child: &O) -> Option<CrustyError> {
    match child.open_error() {
        Some(e) => Some(e),
        None => child.end_error(),
    }
}

/// The schema of an aggregate's result: each group-by attribute under its new
/// name with its type in the child's schema, then each aggregate under its name
/// as an integer.
pub open spec fn aggregate_schema(
    groupby: Seq<usize>,
    groupby_names: Seq<Seq<char>>,
    n_aggs: nat,
    agg_names: Seq<Seq<char>>,
    child_schema: Seq<AttributeV>,
) -> Seq<AttributeV> {
    Seq::new(groupby.len(), |i: int| (groupby_names[i], child_schema[groupby[i] as int].1)) + Seq::new(
        n_aggs,
        |i: int| (agg_names[i], DataType::Int),
    )
}

/// The values of a vector of names.
pub open spec fn names_view(s: Seq<&str>) -> Seq<Seq<char>> {
    s.map_values(|n: &str| n@)
}

/// Aggregate operator: groups the child's tuples by some of their fields and
/// computes aggregate functions over each group.
pub struct Aggregate<C: OpIterator> {
    groupby_fields: Vec<usize>,
    agg_fields: Vec<AggregateField>,
    agg_iter: Option<TupleIterator>,
    schema: TableSchema,
    open: bool,
    child: C,
}

impl<C: OpIterator> Aggregate<C> {
    /// The aggregates computed.
    pub closed spec fn aggs(&self) -> Seq<AggregateField> {
        self.agg_fields@
    }

    /// The indices of the group-by fields.
    pub closed spec fn groupby(&self) -> Seq<usize> {
        self.groupby_fields@
    }

    /// An aggregate over `child` grouped by the fields `groupby_indices`, named
    /// `groupby_names` in the result, computing `ops[i]` over field
    /// `agg_indices[i]`, named `agg_names[i]`; it is closed.
    pub fn new(
        groupby_indices: Vec<usize>,
        groupby_names: Vec<&str>,
        agg_indices: Vec<usize>,
        agg_names: Vec<&str>,
        ops: Vec<AggOp>,
        child: C,
    ) -> (ag: Aggregate<C>)
        requires
            child.wf(),
            groupby_names.len() >= groupby_indices.len(),
            forall|i: int| 0 <= i < groupby_indices.len() ==> groupby_indices@[i] < child.schema_view().len(),
            agg_names.len() >= agg_indices.len(),
            ops.len() >= agg_indices.len(),
        ensures
            ag.wf(),
            !ag.opened(),
            ag.groupby() == groupby_indices@,
            ag.aggs() == Seq::new(
                agg_indices.len() as nat,
                |i: int| (AggregateField { field: agg_indices@[i], op: ops@[i] }),
            ),
            ag.output() == aggregate_rows(ag.aggs(), groupby_indices@, child.output()),
            ag.schema_view() == aggregate_schema(
                groupby_indices@,
                names_view(groupby_names@),
                agg_indices.len() as nat,
                names_view(agg_names@),
                child.schema_view(),
            ),
            ag.valid_input() == (child.valid_input() && aggregate_ok(ag.aggs(), groupby_indices@, child.output())),
            ag.can_open() == (child.can_open() && aggregate_ok(ag.aggs(), groupby_indices@, child.output())),
            ag.open_error() == input_error(&child),
            ag.end_error() is None,
            ag.rewind_error() is None,
            ag.close_error() == child.close_error(),
            ag.can_close() == child.can_close(),
    {
        let child_schema = child.get_schema();
        let mut attributes: Vec<Attribute> = Vec::new();
        let mut idx: usize = 0;
        while idx < groupby_indices.len()
            invariant
                idx <= groupby_indices.len(),
                groupby_names.len() >= groupby_indices.len(),
                forall|i: int| 0 <= i < groupby_indices.len() ==> groupby_indices@[i] < child_schema@.len(),
                attributes.len() == idx,
                forall|j: int| 0 <= j < idx ==> attributes@[j]@ == (
                    groupby_names@[j]@,
                    child_schema@[groupby_indices@[j] as int].1,
                ),
            decreases groupby_indices.len() - idx,
        {
            let a = child_schema.get_attribute(groupby_indices[idx]).unwrap();
            attributes.push(Attribute::new(groupby_names[idx].to_owned(), a.dtype));
            idx = idx + 1;
        }
        let mut agg_fields: Vec<AggregateField> = Vec::new();
        let n = attributes.len();
        let mut idx: usize = 0;
        while idx < agg_indices.len()
            invariant
                idx <= agg_indices.len(),
                agg_names.len() >= agg_indices.len(),
                ops.len() >= agg_indices.len(),
                n == groupby_indices.len(),
                attributes.len() == n + idx,
                agg_fields.len() == idx,
                forall|j: int| 0 <= j < n ==> attributes@[j]@ == (
                    groupby_names@[j]@,
                    child_schema@[groupby_indices@[j] as int].1,
                ),
                forall|j: int| 0 <= j < idx ==> attributes@[n + j]@ == (agg_names@[j]@, DataType::Int),
                forall|j: int| 0 <= j < idx ==> agg_fields@[j] == (AggregateField { field: agg_indices@[j], op: ops@[j] }),
            decreases agg_indices.len() - idx,
        {
            agg_fields.push(AggregateField { field: agg_indices[idx], op: ops[idx] });
            attributes.push(Attribute::new(agg_names[idx].to_owned(), DataType::Int));
            idx = idx + 1;
        }
        let schema = TableSchema::new(attributes);
        assert(schema@ =~= aggregate_schema(
            groupby_indices@,
            names_view(groupby_names@),
            agg_indices.len() as nat,
            names_view(agg_names@),
            child.schema_view(),
        ));
        let ag = Aggregate {
            groupby_fields: groupby_indices,
            agg_fields,
            agg_iter: None,
            schema,
            open: false,
            child,
        };
        assert(ag.aggs() =~= Seq::new(
            agg_indices.len() as nat,
            |i: int| (AggregateField { field: agg_indices@[i], op: ops@[i] }),
        ));
        ag
    }

    /// Whether the operator is open.
    pub fn is_open(&self) -> (b: bool)
        ensures
            b == self.opened(),
    {
        self.open
    }
}

impl<C: OpIterator> OpIterator for Aggregate<C> {
    closed spec fn wf(&self) -> bool {
        &&& self.child.wf()
        &&& self.open == self.agg_iter is Some
        &&& self.open ==> {
            &&& self.agg_iter->0.wf()
            &&& self.agg_iter->0.opened()
            &&& self.agg_iter->0.output() == self.output()
            &&& infallible(&self.agg_iter->0)
            &&& self.agg_iter->0.pos() <= self.agg_iter->0.output().len()
            &&& self.child.opened()
        }
    }

    closed spec fn opened(&self) -> bool {
        self.open
    }

    closed spec fn output(&self) -> Seq<Seq<FieldV>> {
        aggregate_rows(self.agg_fields@, self.groupby_fields@, self.child.output())
    }

    closed spec fn pos(&self) -> nat {
        match self.agg_iter {
            Some(it) => it.pos(),
            None => 0,
        }
    }

    closed spec fn schema_view(&self) -> Seq<AttributeV> {
        self.schema@
    }

    closed spec fn valid_input(&self) -> bool {
        &&& self.child.valid_input()
        &&& aggregate_ok(self.agg_fields@, self.groupby_fields@, self.child.output())
    }

    closed spec fn can_open(&self) -> bool {
        &&& !self.open
        &&& self.child.can_open()
        &&& aggregate_ok(self.agg_fields@, self.groupby_fields@, self.child.output())
    }

    closed spec fn open_error(&self) -> Option<CrustyError> {
        input_error(&self.child)
    }

    closed spec fn end_error(&self) -> Option<CrustyError> {
        None
    }

    closed spec fn rewind_error(&self) -> Option<CrustyError> {
        None
    }

    closed spec fn close_error(&self) -> Option<CrustyError> {
        self.child.close_error()
    }

    closed spec fn can_close(&self) -> bool {
        self.child.can_close()
    }

    /// Opens the child and aggregates all its tuples; an error of the child is
    /// returned as it is, and the operator stays closed.
    fn open(&mut self) -> (r: Result<(), CrustyError>)
        ensures
            final(self).aggs() == old(self).aggs(),
            final(self).groupby() == old(self).groupby(),
    {
        let ghost ts = self.child.output();
        let ghost a = self.agg_fields@;
        let ghost gb = self.groupby_fields@;
        let ghost old_self = *self;
        match self.child.open() {
            Ok(()) => {},
            Err(e) => {
                return Err(e);
            },
        }
        let aggs = self.agg_fields.clone();
        let groupby = self.groupby_fields.clone();
        assert(aggs@ =~= a);
        assert(groupby@ =~= gb);
        let mut aggregator = Aggregator::new(aggs, groupby, &self.schema);
        assert(ts.take(0) =~= Seq::<Seq<FieldV>>::empty());
        let mut failure: Option<CrustyError> = None;
        let mut done = false;
        while !done
            invariant
                self.child.wf(),
                self.child.opened(),
                same_plan(&self.child, &old_self.child),
                self.child.pos() <= ts.len(),
                ts == self.child.output(),
                done ==> self.child.pos() == ts.len(),
                done ==> failure == old_self.child.end_error(),
                !done ==> failure is None,
                self.agg_fields@ == a,
                self.groupby_fields@ == gb,
                self.schema == old_self.schema,
                !self.open,
                self.agg_iter is None,
                aggregate_ok(a, gb, ts),
                aggregator.wf(),
                aggregator.aggs() == a,
                aggregator.groupby() == gb,
                aggregator.schema_view() == self.schema@,
                failure is None ==> aggregator.groups() == aggregate_groups(a, gb, ts.take(self.child.pos() as int)),
            decreases if done { 0int } else { 1int }, ts.len() - self.child.pos(),
        {
            let ghost i = self.child.pos() as int;
            match self.child.next() {
                Ok(Some(t)) => {
                    assert(ts.take(i + 1).drop_last() =~= ts.take(i));
                    proof {
                        lemma_aggregable_at(a, gb, ts, i);
                    }
                    aggregator.merge_tuple_into_group(&t);
                },
                Ok(None) => {
                    done = true;
                },
                Err(e) => {
                    failure = Some(e);
                    done = true;
                },
            }
        }
        match failure {
            Some(e) => Err(e),
            None => {
                assert(ts.take(ts.len() as int) =~= ts);
                let mut it = aggregator.iterator();
                let _ = it.open();
                self.agg_iter = Some(it);
                self.open = true;
                Ok(())
            },
        }
    }

    fn next(&mut self) -> (r: Result<Option<Tuple>, CrustyError>)
        ensures
            final(self).aggs() == old(self).aggs(),
            final(self).groupby() == old(self).groupby(),
    {
        let mut it = self.agg_iter.take().unwrap();
        let r = it.next();
        self.agg_iter = Some(it);
        r
    }

    /// Closes the child, then the result; an error of the child is returned as
    /// it is, and the operator stays open with its result.
    fn close(&mut self) -> (r: Result<(), CrustyError>)
        ensures
            final(self).aggs() == old(self).aggs(),
            final(self).groupby() == old(self).groupby(),
    {
        match self.child.close() {
            Ok(()) => {},
            Err(e) => {
                return Err(e);
            },
        }
        let mut it = self.agg_iter.take().unwrap();
        let _ = it.close();
        self.open = false;
        Ok(())
    }

    fn rewind(&mut self) -> (r: Result<(), CrustyError>)
        ensures
            final(self).aggs() == old(self).aggs(),
            final(self).groupby() == old(self).groupby(),
    {
        let mut it = self.agg_iter.take().unwrap();
        let r = it.rewind();
        self.agg_iter = Some(it);
        r
    }

    fn get_schema(&self) -> (s: &TableSchema) {
        &self.schema
    }
}

} // verus!
