use vstd::prelude::*;
use crate::field::{CrustyError, Field, FieldV, SimplePredicateOp};
use crate::opiterator::{infallible, same_plan, tuples_view, OpIterator, TupleIterator};
use crate::tuple::{AttributeV, TableSchema, Tuple};

verus! {

/// The joined tuples of one left tuple: `lt` followed by each right tuple whose
/// field `ri` stands in relation `op` to field `li` of `lt`, in the right order.
pub open spec fn join_row(
    op: SimplePredicateOp,
    li: int,
    ri: int,
    lt: Seq<FieldV>,
    rs: Seq<Seq<FieldV>>,
) -> Seq<Seq<FieldV>>
    decreases rs.len(),
{
    if rs.len() == 0 {
        Seq::empty()
    } else {
        let rest = join_row(op, li, ri, lt, rs.drop_last());
        if op.holds(lt[li], rs.last()[ri]) {
            rest.push(lt + rs.last())
        } else {
            rest
        }
    }
}

/// The result of a nested-loop join: the joined tuples of each left tuple, in
/// the left order.
pub open spec fn nested_loop_join(
    op: SimplePredicateOp,
    li: int,
    ri: int,
    ls: Seq<Seq<FieldV>>,
    rs: Seq<Seq<FieldV>>,
) -> Seq<Seq<FieldV>>
    decreases ls.len(),
{
    if ls.len() == 0 {
        Seq::empty()
    } else {
        nested_loop_join(op, li, ri, ls.drop_last(), rs) + join_row(op, li, ri, ls.last(), rs)
    }
}

/// Every pair of a left and a right tuple has the compared fields.
pub open spec fn join_fields_exist(
    li: int,
    ri: int,
    ls: Seq<Seq<FieldV>>,
    rs: Seq<Seq<FieldV>>,
) -> bool {
    forall|i: int, j: int|
        0 <= i < ls.len() && 0 <= j < rs.len() ==> li < ls[i].len() && ri < rs[j].len()
}

/// Compares the fields of two tuples using a predicate.
pub struct JoinPredicate {
    op: SimplePredicateOp,
    left_index: usize,
    right_index: usize,
}

impl JoinPredicate {
    pub closed spec fn op(&self) -> SimplePredicateOp {
        self.op
    }

    pub closed spec fn left_index(&self) -> usize {
        self.left_index
    }

    pub closed spec fn right_index(&self) -> usize {
        self.right_index
    }

    /// A predicate comparing field `left_index` of a left tuple with field
    /// `right_index` of a right tuple by `op`.
    fn new(op: SimplePredicateOp, left_index: usize, right_index: usize) -> (p: JoinPredicate)
        ensures
            p.op() == op,
            p.left_index() == left_index,
            p.right_index() == right_index,
    {
        JoinPredicate { op, left_index, right_index }
    }
}

/// Nested loop join.
pub struct Join<L: OpIterator, R: OpIterator> {
    predicate: JoinPredicate,
    left_child: L,
    right_child: R,
    schema: TableSchema,
    joined_iter: Option<TupleIterator>,
    open: bool,
}

/// The inputs of a nested-loop join open without failing, and its right input
/// rewinds without failing: the join panics otherwise.
pub open spec fn join_inputs_ok<L: OpIterator, R: OpIterator>(left: &L, right: &R) -> bool {
    &&& left.open_error() is None
    &&& right.open_error() is None
    &&& right.rewind_error() is None
}

/// The inputs of a join can be closed, and their closing does not fail: the join
/// panics otherwise.
pub open spec fn join_inputs_close<L: OpIterator, R: OpIterator>(left: &L, right: &R) -> bool {
    &&& left.can_close()
    &&& right.can_close()
    &&& left.close_error() is None
    &&& right.close_error() is None
}

impl<L: OpIterator, R: OpIterator> Join<L, R> {
    /// A nested-loop join of `left_child` and `right_child` on
    /// `left[left_index] op right[right_index]`; it is closed.
    pub fn new(
        op: SimplePredicateOp,
        left_index: usize,
        right_index: usize,
        left_child: L,
        right_child: R,
    ) -> (j: Join<L, R>)
        requires
            left_child.wf(),
            right_child.wf(),
        ensures
            j.wf(),
            !j.opened(),
            j.output() == nested_loop_join(
                op,
                left_index as int,
                right_index as int,
                left_child.output(),
                right_child.output(),
            ),
            j.schema_view() == left_child.schema_view() + right_child.schema_view(),
            j.valid_input() == (left_child.valid_input() && right_child.valid_input()
                && join_inputs_ok(&left_child, &right_child) && join_fields_exist(
                left_index as int,
                right_index as int,
                left_child.output(),
                right_child.output(),
            )),
            j.can_open() == (left_child.can_open() && right_child.can_open()
                && join_inputs_ok(&left_child, &right_child) && join_fields_exist(
                left_index as int,
                right_index as int,
                left_child.output(),
                right_child.output(),
            )),
            j.can_close() == join_inputs_close(&left_child, &right_child),
            j.open_error() is None,
            j.end_error() is None,
            j.rewind_error() is None,
            j.close_error() is None,
    {
        let schema = left_child.get_schema().merge(right_child.get_schema());
        Join {
            predicate: JoinPredicate::new(op, left_index, right_index),
            schema,
            left_child,
            right_child,
            joined_iter: None,
            open: false,
        }
    }
}

impl<L: OpIterator, R: OpIterator> OpIterator for Join<L, R> {
    closed spec fn wf(&self) -> bool {
        &&& self.left_child.wf()
        &&& self.right_child.wf()
        &&& self.open == self.joined_iter is Some
        &&& self.open ==> {
            &&& self.joined_iter->0.wf()
            &&& self.joined_iter->0.opened()
            &&& self.joined_iter->0.output() == self.output()
            &&& infallible(&self.joined_iter->0)
            &&& self.joined_iter->0.pos() <= self.joined_iter->0.output().len()
            &&& self.left_child.opened()
            &&& self.right_child.opened()
        }
    }

    closed spec fn opened(&self) -> bool {
        self.open
    }

    closed spec fn output(&self) -> Seq<Seq<FieldV>> {
        nested_loop_join(
            self.predicate.op,
            self.predicate.left_index as int,
            self.predicate.right_index as int,
            self.left_child.output(),
            self.right_child.output(),
        )
    }

    closed spec fn pos(&self) -> nat {
        match self.joined_iter {
            Some(it) => it.pos(),
            None => 0,
        }
    }

    closed spec fn schema_view(&self) -> Seq<AttributeV> {
        self.schema@
    }

    closed spec fn valid_input(&self) -> bool {
        &&& self.left_child.valid_input()
        &&& self.right_child.valid_input()
        &&& join_inputs_ok(&self.left_child, &self.right_child)
        &&& join_fields_exist(
            self.predicate.left_index as int,
            self.predicate.right_index as int,
            self.left_child.output(),
            self.right_child.output(),
        )
    }

    closed spec fn can_open(&self) -> bool {
        &&& self.left_child.can_open()
        &&& self.right_child.can_open()
        &&& join_inputs_ok(&self.left_child, &self.right_child)
        &&& join_fields_exist(
            self.predicate.left_index as int,
            self.predicate.right_index as int,
            self.left_child.output(),
            self.right_child.output(),
        )
    }

    closed spec fn open_error(&self) -> Option<CrustyError> {
        None
    }

    closed spec fn end_error(&self) -> Option<CrustyError> {
        None
    }

    closed spec fn rewind_error(&self) -> Option<CrustyError> {
        None
    }

    closed spec fn close_error(&self) -> Option<CrustyError> {
        None
    }

    closed spec fn can_close(&self) -> bool {
        join_inputs_close(&self.left_child, &self.right_child)
    }

    /// Reads the left input to its end, which may be an error, and for each left
    /// tuple the right input to its end, which may be an error, then rewinds it.
    fn open(&mut self) -> (r: Result<(), CrustyError>) {
        let ghost ls = self.left_child.output();
        let ghost rs = self.right_child.output();
        let ghost op = self.predicate.op;
        let ghost old_self = *self;
        let li = self.predicate.left_index;
        let ri = self.predicate.right_index;
        let _ = self.left_child.open();
        let _ = self.right_child.open();
        let mut tuples: Vec<Tuple> = Vec::new();
        let mut left_done = false;
        while !left_done
            invariant
                self.left_child.wf(),
                self.left_child.opened(),
                same_plan(&self.left_child, &old_self.left_child),
                self.right_child.wf(),
                self.right_child.opened(),
                same_plan(&self.right_child, &old_self.right_child),
                self.left_child.output() == ls,
                self.right_child.output() == rs,
                self.right_child.pos() == 0,
                self.right_child.rewind_error() is None,
                self.predicate == old_self.predicate,
                self.predicate.op == op,
                self.predicate.left_index == li,
                self.predicate.right_index == ri,
                join_fields_exist(li as int, ri as int, ls, rs),
                self.left_child.pos() <= ls.len(),
                self.schema == old_self.schema,
                left_done ==> self.left_child.pos() == ls.len(),
                tuples_view(tuples@) == nested_loop_join(
                    op,
                    li as int,
                    ri as int,
                    ls.take(self.left_child.pos() as int),
                    rs,
                ),
            decreases ls.len() - self.left_child.pos(), if left_done { 0int } else { 1int },
        {
            let ghost i = self.left_child.pos() as int;
            match self.left_child.next() {
                Ok(Some(lt)) => {
                    let ghost base = tuples_view(tuples@);
                    let mut right_done = false;
                    while !right_done
                        invariant
                            self.right_child.wf(),
                            self.right_child.opened(),
                            same_plan(&self.right_child, &old_self.right_child),
                            self.right_child.output() == rs,
                            self.right_child.rewind_error() is None,
                            self.right_child.pos() <= rs.len(),
                            right_done ==> self.right_child.pos() == rs.len(),
                            0 <= i < ls.len(),
                            lt@ == ls[i],
                            self.left_child.wf(),
                            self.left_child.opened(),
                            same_plan(&self.left_child, &old_self.left_child),
                            self.left_child.output() == ls,
                            self.left_child.pos() == i + 1,
                            self.schema == old_self.schema,
                            self.predicate == old_self.predicate,
                            self.predicate.left_index == li,
                            self.predicate.op == op,
                            self.predicate.right_index == ri,
                            join_fields_exist(li as int, ri as int, ls, rs),
                            tuples_view(tuples@) == base + join_row(
                                op,
                                li as int,
                                ri as int,
                                lt@,
                                rs.take(self.right_child.pos() as int),
                            ),
                        decreases rs.len() - self.right_child.pos(), if right_done { 0int } else { 1int },
                    {
                        let ghost j = self.right_child.pos() as int;
                        match self.right_child.next() {
                            Ok(Some(rt)) => {
                                let lf = lt.get_field(li).unwrap();
                                let rf = rt.get_field(ri).unwrap();
                                assert(rs.take(j + 1).drop_last() =~= rs.take(j));
                                if self.predicate.op.compare(lf, rf) {
                                    let m = lt.merge(&rt);
                                    let ghost prev = tuples@;
                                    tuples.push(m);
                                    assert(tuples_view(tuples@) =~= tuples_view(prev).push(m@));
                                    assert(tuples_view(tuples@) =~= base + join_row(
                                        op,
                                        li as int,
                                        ri as int,
                                        lt@,
                                        rs.take(j + 1),
                                    ));
                                }
                            },
                            _ => {
                                right_done = true;
                            },
                        }
                    }
                    assert(rs.take(rs.len() as int) =~= rs);
                    assert(ls.take(i + 1).drop_last() =~= ls.take(i));
                    let _ = self.right_child.rewind();
                },
                _ => {
                    left_done = true;
                },
            }
        }
        assert(ls.take(ls.len() as int) =~= ls);
        let mut it = TupleIterator::new(tuples, self.schema.duplicate());
        let _ = it.open();
        self.open = true;
        self.joined_iter = Some(it);
        Ok(())
    }

    fn next(&mut self) -> (r: Result<Option<Tuple>, CrustyError>) {
        let mut it = self.joined_iter.take().unwrap();
        let r = it.next();
        self.joined_iter = Some(it);
        r
    }

    fn close(&mut self) -> (r: Result<(), CrustyError>) {
        let mut it = self.joined_iter.take().unwrap();
        let _ = it.close();
        self.open = false;
        let _ = self.left_child.close();
        let _ = self.right_child.close();
        Ok(())
    }

    fn rewind(&mut self) -> (r: Result<(), CrustyError>) {
        let mut it = self.joined_iter.take().unwrap();
        let r = it.rewind();
        self.joined_iter = Some(it);
        r
    }

    fn get_schema(&self) -> (s: &TableSchema) {
        &self.schema
    }
}

} // verus!

verus! {

/// The left tuples whose field `li` is `k`, in the left order.
pub open spec fn left_matches(li: int, ls: Seq<Seq<FieldV>>, k: FieldV) -> Seq<Seq<FieldV>>
    decreases ls.len(),
{
    if ls.len() == 0 {
        Seq::empty()
    } else {
        let rest = left_matches(li, ls.drop_last(), k);
        if ls.last()[li] == k {
            rest.push(ls.last())
        } else {
            rest
        }
    }
}

/// The joined tuples of one right tuple: each left tuple whose field `li`
/// equals field `ri` of `r`, in the left order, followed by `r`.
pub open spec fn probe_row(li: int, ri: int, ls: Seq<Seq<FieldV>>, r: Seq<FieldV>) -> Seq<Seq<FieldV>> {
    left_matches(li, ls, r[ri]).map_values(|l: Seq<FieldV>| l + r)
}

/// The result of an equi-join taken right tuple by right tuple: the joined
/// tuples of each right tuple, in the right order.
pub open spec fn hash_join(li: int, ri: int, ls: Seq<Seq<FieldV>>, rs: Seq<Seq<FieldV>>) -> Seq<Seq<FieldV>>
    decreases rs.len(),
{
    if rs.len() == 0 {
        Seq::empty()
    } else {
        hash_join(li, ri, ls, rs.drop_last()) + probe_row(li, ri, ls, rs.last())
    }
}

/// Every tuple has field `i`.
pub open spec fn field_exists(i: int, ts: Seq<Seq<FieldV>>) -> bool {
    forall|j: int| 0 <= j < ts.len() ==> i < ts[j].len()
}

/// The joined tuples of a prefix of the right tuples are a prefix of those of
/// all of them.
pub proof fn lemma_hash_join_prefix(li: int, ri: int, ls: Seq<Seq<FieldV>>, rs: Seq<Seq<FieldV>>, a: int)
    requires
        0 <= a <= rs.len(),
    ensures
        hash_join(li, ri, ls, rs.take(a)).len() <= hash_join(li, ri, ls, rs).len(),
        forall|k: int| 0 <= k < hash_join(li, ri, ls, rs.take(a)).len()
            ==> hash_join(li, ri, ls, rs.take(a))[k] == hash_join(li, ri, ls, rs)[k],
    decreases rs.len(),
{
    if a == rs.len() {
        assert(rs.take(a) =~= rs);
    } else {
        assert(rs.take(a) =~= rs.drop_last().take(a));
        lemma_hash_join_prefix(li, ri, ls, rs.drop_last(), a);
    }
}

/// The entries of a hash table over the left tuples `ls`: distinct keys, each
/// with the left tuples that have it, in order; every key of a left tuple has
/// an entry.
pub open spec fn table_matches(entries: Seq<(Field, Vec<Tuple>)>, li: int, ls: Seq<Seq<FieldV>>) -> bool {
    &&& forall|i: int, j: int|
        0 <= i < entries.len() && 0 <= j < entries.len() && i != j ==> entries[i].0@ != entries[j].0@
    &&& forall|i: int|
        0 <= i < entries.len() ==> tuples_view(#[trigger] entries[i].1@) == left_matches(li, ls, entries[i].0@)
    &&& forall|k: FieldV|
        left_matches(li, ls, k).len() > 0 ==> exists|i: int| 0 <= i < entries.len() && entries[i].0@ == k
}

/// The entry of the table with the given key, if there is one.
fn table_find(entries: &Vec<(Field, Vec<Tuple>)>, key: &Field, Ghost(li): Ghost<int>, Ghost(ls): Ghost<Seq<Seq<FieldV>>>) -> (r: Option<usize>)
    requires
        table_matches(entries@, li, ls),
    ensures
        match r {
            Some(i) => {
                &&& i < entries.len()
                &&& entries@[i as int].0@ == key@
                &&& tuples_view(entries@[i as int].1@) == left_matches(li, ls, key@)
            },
            None => {
                &&& left_matches(li, ls, key@).len() == 0
                &&& forall|j: int| 0 <= j < entries.len() ==> entries@[j].0@ != key@
            },
        },
{
    let mut i: usize = 0;
    while i < entries.len()
        invariant
            i <= entries.len(),
            table_matches(entries@, li, ls),
            forall|j: int| 0 <= j < i ==> entries@[j].0@ != key@,
        decreases entries.len() - i,
    {
        if entries[i].0.same_value(key) {
            assert(tuples_view(entries@[i as int].1@) == left_matches(li, ls, entries@[i as int].0@));
            return Some(i);
        }
        i = i + 1;
    }
    None
}

/// Adds the left tuple `t`, whose field `li` is `key`, to the table.
fn table_insert(entries: &mut Vec<(Field, Vec<Tuple>)>, key: Field, t: Tuple, Ghost(li): Ghost<int>, Ghost(ls): Ghost<Seq<Seq<FieldV>>>)
    requires
        table_matches(old(entries)@, li, ls),
        0 <= li < t@.len(),
        key@ == t@[li],
    ensures
        table_matches(final(entries)@, li, ls.push(t@)),
{
    let ghost ls2 = ls.push(t@);
    let ghost tv = t@;
    assert(ls2.drop_last() =~= ls);
    assert forall|k: FieldV| left_matches(li, ls2, k) == if k == tv[li] {
        left_matches(li, ls, k).push(tv)
    } else {
        left_matches(li, ls, k)
    } by {
        assert(ls2.last() == tv);
    }
    match table_find(entries, &key, Ghost(li), Ghost(ls)) {
        Some(i) => {
            let ghost e0 = entries@;
            let mut e = entries.swap_remove(i);
            let ghost l0 = e.1@;
            e.1.push(t);
            assert(tuples_view(e.1@) =~= tuples_view(l0).push(tv));
            entries.push(e);
            let ghost e1 = entries@;
            assert(e1.len() == e0.len());
            assert forall|j: int| 0 <= j < e1.len() implies (#[trigger] e1[j]) == (if j == e1.len() - 1 {
                e1[j]
            } else if j == i {
                e0[e0.len() - 1]
            } else {
                e0[j]
            }) by {}
            assert forall|j: int, m: int|
                0 <= j < e1.len() && 0 <= m < e1.len() && j != m implies e1[j].0@ != e1[m].0@ by {
                let oj = if j == e1.len() - 1 { i as int } else if j == i { e0.len() - 1 } else { j };
                let om = if m == e1.len() - 1 { i as int } else if m == i { e0.len() - 1 } else { m };
                assert(e1[j].0@ == e0[oj].0@);
                assert(e1[m].0@ == e0[om].0@);
            }
            assert forall|j: int| 0 <= j < e1.len() implies tuples_view(#[trigger] e1[j].1@) == left_matches(li, ls2, e1[j].0@) by {
                if j != e1.len() - 1 {
                    let oj = if j == i { e0.len() - 1 } else { j };
                    assert(e1[j] == e0[oj]);
                    assert(e0[oj].0@ != key@);
                }
            }
            assert forall|k: FieldV| left_matches(li, ls2, k).len() > 0 implies exists|j: int|
                0 <= j < e1.len() && e1[j].0@ == k by {
                if k == key@ {
                    assert(e1[e1.len() - 1].0@ == k);
                } else {
                    assert(left_matches(li, ls, k).len() > 0);
                    let j = choose|j: int| 0 <= j < e0.len() && e0[j].0@ == k;
                    let nj = if j == i { e1.len() - 1 } else if j == e0.len() - 1 { i as int } else { j };
                    assert(e1[nj].0@ == k);
                }
            }
        },
        None => {
            let ghost e0 = entries@;
            let mut list: Vec<Tuple> = Vec::new();
            list.push(t);
            assert(left_matches(li, ls, key@) =~= Seq::<Seq<FieldV>>::empty());
            assert(tuples_view(list@) =~= seq![tv]);
            entries.push((key, list));
            let ghost e1 = entries@;
            assert forall|j: int| 0 <= j < e1.len() implies tuples_view(#[trigger] e1[j].1@) == left_matches(li, ls2, e1[j].0@) by {
                if j < e0.len() {
                    assert(e1[j] == e0[j]);
                    assert(e0[j].0@ != key@);
                }
            }
            assert forall|k: FieldV| left_matches(li, ls2, k).len() > 0 implies exists|j: int|
                0 <= j < e1.len() && e1[j].0@ == k by {
                if k == key@ {
                    assert(e1[e0.len() as int].0@ == k);
                } else {
                    assert(left_matches(li, ls, k).len() > 0);
                    let j = choose|j: int| 0 <= j < e0.len() && e0[j].0@ == k;
                    assert(e1[j].0@ == k);
                }
            }
        },
    }
}

/// Hash equi-join: the left tuples are put in a table by their field
/// `left_index`; each right tuple is joined, in the right order, with every
/// left tuple whose field equals its field `right_index`.
pub struct HashEqJoin<L: OpIterator, R: OpIterator> {
    predicate: JoinPredicate,
    left_child: L,
    right_child: R,
    schema: TableSchema,
    build_input: Vec<(Field, Vec<Tuple>)>,
    pending: Vec<Tuple>,
    produced: usize,
    open: bool,
}

impl<L: OpIterator, R: OpIterator> HashEqJoin<L, R> {
    /// A hash equi-join of `left_child` and `right_child` on
    /// `left[left_index] == right[right_index]`; it is closed. The operator `op`
    /// is kept with the predicate and plays no part in the result.
    pub fn new(
        op: SimplePredicateOp,
        left_index: usize,
        right_index: usize,
        left_child: L,
        right_child: R,
    ) -> (j: HashEqJoin<L, R>)
        requires
            left_child.wf(),
            right_child.wf(),
        ensures
            j.wf(),
            !j.opened(),
            j.output() == hash_join(
                left_index as int,
                right_index as int,
                left_child.output(),
                right_child.output(),
            ),
            j.schema_view() == left_child.schema_view() + right_child.schema_view(),
            j.valid_input() == (left_child.valid_input() && right_child.valid_input()
                && left_child.open_error() is None && right_child.open_error() is None
                && field_exists(left_index as int, left_child.output())
                && field_exists(right_index as int, right_child.output())),
            j.can_open() == (left_child.can_open() && right_child.can_open()
                && left_child.open_error() is None && right_child.open_error() is None
                && field_exists(left_index as int, left_child.output())
                && field_exists(right_index as int, right_child.output())),
            j.can_close() == join_inputs_close(&left_child, &right_child),
            j.open_error() is None,
            j.end_error() == right_child.end_error(),
            j.rewind_error() == right_child.rewind_error(),
            j.close_error() is None,
    {
        let schema = left_child.get_schema().merge(right_child.get_schema());
        HashEqJoin {
            predicate: JoinPredicate::new(op, left_index, right_index),
            schema,
            left_child,
            right_child,
            build_input: Vec::new(),
            pending: Vec::new(),
            produced: 0,
            open: false,
        }
    }
}

impl<L: OpIterator, R: OpIterator> HashEqJoin<L, R> {
    spec fn li(&self) -> int {
        self.predicate.left_index as int
    }

    spec fn ri(&self) -> int {
        self.predicate.right_index as int
    }

    spec fn ls(&self) -> Seq<Seq<FieldV>> {
        self.left_child.output()
    }

    spec fn rs(&self) -> Seq<Seq<FieldV>> {
        self.right_child.output()
    }

    /// The joined tuples of the right tuples read so far.
    spec fn joined_so_far(&self) -> Seq<Seq<FieldV>> {
        hash_join(self.li(), self.ri(), self.ls(), self.rs().take(self.right_child.pos() as int))
    }

    proof fn lemma_pos_bound(&self)
        requires
            self.right_child.pos() <= self.rs().len(),
        ensures
            self.joined_so_far().len() <= hash_join(self.li(), self.ri(), self.ls(), self.rs()).len(),
    {
        lemma_hash_join_prefix(self.li(), self.ri(), self.ls(), self.rs(), self.right_child.pos() as int);
    }

    /// The joined tuples of the last right tuple read are in `pending`, from
    /// position `produced` on not produced yet.
    spec fn pending_ok(&self) -> bool {
        &&& self.produced <= self.pending.len()
        &&& self.produced < self.pending.len() ==> {
            &&& self.right_child.pos() >= 1
            &&& tuples_view(self.pending@) == probe_row(
                self.li(),
                self.ri(),
                self.ls(),
                self.rs()[self.right_child.pos() - 1],
            )
        }
    }
}

impl<L: OpIterator, R: OpIterator> OpIterator for HashEqJoin<L, R> {
    closed spec fn wf(&self) -> bool {
        &&& self.left_child.wf()
        &&& self.right_child.wf()
        &&& self.pending_ok()
        &&& self.open ==> {
            &&& self.left_child.opened()
            &&& self.right_child.opened()
            &&& self.right_child.pos() <= self.rs().len()
            &&& field_exists(self.ri(), self.rs())
            &&& table_matches(self.build_input@, self.li(), self.ls())
        }
    }

    closed spec fn opened(&self) -> bool {
        self.open
    }

    closed spec fn output(&self) -> Seq<Seq<FieldV>> {
        hash_join(self.li(), self.ri(), self.ls(), self.rs())
    }

    closed spec fn pos(&self) -> nat {
        (self.joined_so_far().len() - (self.pending.len() - self.produced)) as nat
    }

    closed spec fn schema_view(&self) -> Seq<AttributeV> {
        self.schema@
    }

    closed spec fn valid_input(&self) -> bool {
        &&& self.left_child.valid_input()
        &&& self.right_child.valid_input()
        &&& self.left_child.open_error() is None
        &&& self.right_child.open_error() is None
        &&& field_exists(self.li(), self.ls())
        &&& field_exists(self.ri(), self.rs())
    }

    closed spec fn can_open(&self) -> bool {
        &&& self.left_child.can_open()
        &&& self.right_child.can_open()
        &&& self.left_child.open_error() is None
        &&& self.right_child.open_error() is None
        &&& field_exists(self.li(), self.ls())
        &&& field_exists(self.ri(), self.rs())
    }

    closed spec fn open_error(&self) -> Option<CrustyError> {
        None
    }

    closed spec fn end_error(&self) -> Option<CrustyError> {
        self.right_child.end_error()
    }

    closed spec fn rewind_error(&self) -> Option<CrustyError> {
        self.right_child.rewind_error()
    }

    closed spec fn close_error(&self) -> Option<CrustyError> {
        None
    }

    closed spec fn can_close(&self) -> bool {
        join_inputs_close(&self.left_child, &self.right_child)
    }

    fn open(&mut self) -> (r: Result<(), CrustyError>) {
        let ghost ls = self.ls();
        let ghost rs = self.rs();
        let ghost old_self = *self;
        let li = self.predicate.left_index;
        let _ = self.left_child.open();
        let _ = self.right_child.open();
        self.pending = Vec::new();
        self.produced = 0;
        let mut table: Vec<(Field, Vec<Tuple>)> = Vec::new();
        assert(forall|k: FieldV| left_matches(li as int, ls.take(0), k) =~= Seq::<Seq<FieldV>>::empty());
        let mut done = false;
        while !done
            invariant
                self.left_child.wf(),
                self.left_child.opened(),
                same_plan(&self.left_child, &old_self.left_child),
                self.left_child.pos() <= ls.len(),
                done ==> self.left_child.pos() == ls.len(),
                field_exists(li as int, ls),
                self.li() == li,
                ls == self.ls(),
                self.right_child.wf(),
                self.right_child.opened(),
                same_plan(&self.right_child, &old_self.right_child),
                self.right_child.pos() == 0,
                self.pending.len() == 0,
                self.produced == 0,
                self.predicate == old_self.predicate,
                self.schema == old_self.schema,
                table_matches(table@, li as int, ls.take(self.left_child.pos() as int)),
            decreases ls.len() - self.left_child.pos(), if done { 0int } else { 1int },
        {
            let ghost i = self.left_child.pos() as int;
            match self.left_child.next() {
                Ok(Some(lt)) => {
                    let key = lt.get_field(li).unwrap().duplicate();
                    assert(ls.take(i + 1) =~= ls.take(i).push(lt@));
                    table_insert(&mut table, key, lt, Ghost(li as int), Ghost(ls.take(i)));
                },
                _ => {
                    done = true;
                },
            }
        }
        assert(ls.take(ls.len() as int) =~= ls);
        self.build_input = table;
        self.open = true;
        assert(rs.take(0) =~= Seq::<Seq<FieldV>>::empty());
        Ok(())
    }

    fn next(&mut self) -> (r: Result<Option<Tuple>, CrustyError>) {
        let ghost old_self = *self;
        let ghost li = self.li();
        let ghost ls = self.ls();
        let ghost rs = self.rs();
        let ghost ri = self.ri();
        let ghost n0 = self.pos();
        let ri_exec = self.predicate.right_index;
        proof {
            lemma_hash_join_prefix(li, ri, ls, rs, self.right_child.pos() as int);
        }
        let mut result: Result<Option<Tuple>, CrustyError> = Ok(None);
        let mut done = false;
        while !done
            invariant
                self.wf(),
                self.opened(),
                self.predicate == old_self.predicate,
                self.schema == old_self.schema,
                same_plan(&self.left_child, &old_self.left_child),
                same_plan(&self.right_child, &old_self.right_child),
                self.left_child.can_open() == old_self.left_child.can_open(),
                self.right_child.can_open() == old_self.right_child.can_open(),
                self.ls() == ls,
                self.rs() == rs,
                ri_exec as int == ri,
                self.li() == li,
                self.ri() == ri,
                n0 <= hash_join(li, ri, ls, rs).len(),
                !done ==> self.pos() == n0 && result matches Ok(None),
                done ==> (result matches Ok(Some(t)) ==> {
                    &&& n0 < hash_join(li, ri, ls, rs).len()
                    &&& t@ == hash_join(li, ri, ls, rs)[n0 as int]
                    &&& self.pos() == n0 + 1
                }),
                done ==> (!(result matches Ok(Some(_))) ==> {
                    &&& n0 == hash_join(li, ri, ls, rs).len()
                    &&& self.pos() == n0
                    &&& result == match old_self.right_child.end_error() {
                        None => Ok::<Option<Tuple>, CrustyError>(None),
                        Some(e) => Err(e),
                    }
                }),
            decreases if done { 0int } else { 1int }, rs.len() - self.right_child.pos(), self.pending.len() - self.produced,
        {
            if self.produced < self.pending.len() {
                let t = self.pending[self.produced].duplicate();
                proof {
                    let p = self.right_child.pos() as int;
                    assert(rs.take(p).drop_last() =~= rs.take(p - 1));
                    assert(rs.take(p).last() == rs[p - 1]);
                    lemma_hash_join_prefix(li, ri, ls, rs, p);
                    let hp = hash_join(li, ri, ls, rs.take(p));
                    let hq = hash_join(li, ri, ls, rs.take(p - 1));
                    assert(hp == hq + probe_row(li, ri, ls, rs[p - 1]));
                    assert(n0 == hq.len() + self.produced);
                    assert(t@ == tuples_view(self.pending@)[self.produced as int]);
                    assert(hp[n0 as int] == t@);
                }
                self.produced = self.produced + 1;
                assert(self.pos() == n0 + 1);
                assert(n0 < hash_join(li, ri, ls, rs).len());
                assert(t@ == hash_join(li, ri, ls, rs)[n0 as int]);
                result = Ok(Some(t));
                done = true;
            } else {
                self.pending = Vec::new();
                self.produced = 0;
                let ghost j = self.right_child.pos() as int;
                match self.right_child.next() {
                    Ok(Some(rt)) => {
                        assert(rs.take(j + 1).drop_last() =~= rs.take(j));
                        let key = rt.get_field(ri_exec).unwrap();
                        match table_find(&self.build_input, key, Ghost(li), Ghost(ls)) {
                            Some(idx) => {
                                let mut joined: Vec<Tuple> = Vec::new();
                                let mut m: usize = 0;
                                let ghost lm = left_matches(li, ls, rt@[ri]);
                                while m < self.build_input[idx].1.len()
                                    invariant
                                        idx < self.build_input.len(),
                                        tuples_view(self.build_input@[idx as int].1@) == lm,
                                        m <= lm.len(),
                                        joined.len() == m,
                                        forall|q: int| 0 <= q < m ==> #[trigger] joined@[q]@ == lm[q] + rt@,
                                    decreases lm.len() - m,
                                {
                                    assert(self.build_input@[idx as int].1@[m as int]@ == lm[m as int]);
                                    joined.push(self.build_input[idx].1[m].merge(&rt));
                                    m = m + 1;
                                }
                                assert(tuples_view(joined@) =~= probe_row(li, ri, ls, rt@));
                                self.pending = joined;
                            },
                            None => {
                                assert(probe_row(li, ri, ls, rt@) =~= Seq::<Seq<FieldV>>::empty());
                            },
                        }
                    },
                    Ok(None) => {
                        assert(rs.take(j) =~= rs);
                        assert(self.pos() == n0);
                        assert(n0 == hash_join(li, ri, ls, rs).len());
                        done = true;
                    },
                    Err(e) => {
                        assert(rs.take(j) =~= rs);
                        assert(self.pos() == n0);
                        result = Err(e);
                        done = true;
                    },
                }
            }
        }
        proof {
            self.lemma_pos_bound();
        }
        result
    }

    fn close(&mut self) -> (r: Result<(), CrustyError>) {
        self.build_input.clear();
        self.pending = Vec::new();
        self.produced = 0;
        self.open = false;
        let _ = self.left_child.close();
        let _ = self.right_child.close();
        proof {
            self.lemma_pos_bound();
        }
        Ok(())
    }

    fn rewind(&mut self) -> (r: Result<(), CrustyError>) {
        let r = self.right_child.rewind();
        if r.is_ok() {
            self.pending = Vec::new();
            self.produced = 0;
            assert(self.right_child.output().take(0) =~= Seq::<Seq<FieldV>>::empty());
        }
        proof {
            self.lemma_pos_bound();
        }
        r
    }

    fn get_schema(&self) -> (s: &TableSchema) {
        &self.schema
    }
}

} // verus!
