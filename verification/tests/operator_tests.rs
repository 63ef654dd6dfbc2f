use queryexe::aggregate::{Aggregate, AggregateField, Aggregator};
use queryexe::field::{max_field, min_field, AggOp, CrustyError, DataType, Field, Order, SimplePredicateOp};
use queryexe::join::{HashEqJoin, Join};
use queryexe::opiterator::{OpIterator, TupleIterator};
use queryexe::tuple::{Attribute, TableSchema, Tuple};

fn ints(rows: Vec<Vec<i32>>) -> Vec<Tuple> {
    rows.into_iter()
        .map(|r| Tuple::new(r.into_iter().map(Field::IntField).collect()))
        .collect()
}

fn int_schema(width: usize) -> TableSchema {
    TableSchema::new((0..width).map(|i| Attribute::new(format!("c{}", i), DataType::Int)).collect())
}

fn scan(rows: Vec<Vec<i32>>, width: usize) -> TupleIterator {
    TupleIterator::new(ints(rows), int_schema(width))
}

fn drain(op: &mut impl OpIterator) -> Result<Vec<Tuple>, CrustyError> {
    let mut out = Vec::new();
    while let Some(t) = op.next()? {
        out.push(t);
    }
    Ok(out)
}

fn s(x: &str) -> Field {
    Field::StringField(x.to_string())
}

#[test]
fn string_fields_compare_by_bytes() {
    assert_eq!(s("B").compare(&s("a")), Order::Less);
    assert_eq!(s("ab").compare(&s("b")), Order::Less);
    assert_eq!(s("").compare(&s("a")), Order::Less);
    assert_eq!(s("abc").compare(&s("ab")), Order::Greater);
    assert_eq!(s("é").compare(&s("z")), Order::Greater);
    assert_eq!(s("G").compare(&s("G")), Order::Equal);
    assert_eq!(Field::IntField(7).compare(&s("0")), Order::Less);
    assert_eq!(Field::IntField(-3).compare(&Field::IntField(2)), Order::Less);
    assert_eq!(s("x").compare(&Field::IntField(2)), Order::Greater);
}

#[test]
fn max_and_min_of_equal_fields_pick_each_side() {
    assert_eq!(max_field(Field::IntField(3), Field::IntField(9)), Field::IntField(9));
    assert_eq!(max_field(s("b"), s("a")), s("b"));
    assert_eq!(min_field(Field::IntField(3), Field::IntField(9)), Field::IntField(3));
    assert_eq!(min_field(s("b"), Field::IntField(1)), Field::IntField(1));
}

#[test]
fn predicates_compare_left_with_right() {
    let one = Field::IntField(1);
    let two = Field::IntField(2);
    assert!(SimplePredicateOp::LessThan.compare(&one, &two));
    assert!(!SimplePredicateOp::GreaterThan.compare(&one, &two));
    assert!(SimplePredicateOp::GreaterThanOrEq.compare(&two, &two));
    assert!(SimplePredicateOp::LessThanOrEq.compare(&two, &two));
    assert!(SimplePredicateOp::NotEq.compare(&one, &two));
    assert!(!SimplePredicateOp::Equals.compare(&one, &two));
    assert!(SimplePredicateOp::All.compare(&one, &s("z")));
}

#[test]
fn tuple_merge_and_fields() {
    let a = Tuple::new(vec![Field::IntField(1), s("x")]);
    let b = Tuple::new(vec![Field::IntField(2)]);
    let m = a.merge(&b);
    assert_eq!(m, Tuple::new(vec![Field::IntField(1), s("x"), Field::IntField(2)]));
    assert_eq!(m.size(), 3);
    assert_eq!(m.get_field(1), Some(&s("x")));
    assert_eq!(m.get_field(3), None);
    assert_eq!(a.duplicate(), a);
}

#[test]
fn schema_from_vecs_pairs_the_shorter_length() {
    let schema = TableSchema::from_vecs(vec!["a", "b", "c"], vec![DataType::Int, DataType::String]);
    assert_eq!(schema.size(), 2);
    assert_eq!(schema.get_attribute(1).unwrap().name(), "b");
    assert_eq!(*schema.get_attribute(1).unwrap().dtype(), DataType::String);
    assert!(schema.get_attribute(2).is_none());
    let merged = schema.merge(&int_schema(1));
    assert_eq!(merged.size(), 3);
    assert_eq!(merged.attributes()[2].name(), "c0");
}

#[test]
fn tuple_iterator_stays_at_end_and_rewinds() -> Result<(), CrustyError> {
    let mut it = scan(vec![vec![1], vec![2]], 1);
    it.open()?;
    assert_eq!(drain(&mut it)?, ints(vec![vec![1], vec![2]]));
    assert_eq!(it.next()?, None);
    assert_eq!(it.next()?, None);
    it.rewind()?;
    assert_eq!(it.next()?, Some(ints(vec![vec![1]]).remove(0)));
    it.close()?;
    it.open()?;
    assert_eq!(drain(&mut it)?.len(), 2);
    Ok(())
}

#[test]
fn nested_loop_join_compares_the_right_index_of_right_tuples() -> Result<(), CrustyError> {
    // left field 0 against right field 1
    let left = scan(vec![vec![1, 10], vec![2, 20]], 2);
    let right = scan(vec![vec![7, 2], vec![8, 1], vec![9, 2]], 2);
    let mut j = Join::new(SimplePredicateOp::Equals, 0, 1, left, right);
    j.open()?;
    assert_eq!(
        drain(&mut j)?,
        ints(vec![vec![1, 10, 8, 1], vec![2, 20, 7, 2], vec![2, 20, 9, 2]])
    );
    Ok(())
}

#[test]
fn nested_loop_join_with_not_equal_and_all() -> Result<(), CrustyError> {
    let mut j = Join::new(
        SimplePredicateOp::NotEq,
        0,
        0,
        scan(vec![vec![1], vec![2]], 1),
        scan(vec![vec![1], vec![2]], 1),
    );
    j.open()?;
    assert_eq!(drain(&mut j)?, ints(vec![vec![1, 2], vec![2, 1]]));
    let mut all = Join::new(
        SimplePredicateOp::All,
        0,
        0,
        scan(vec![vec![1], vec![2]], 1),
        scan(vec![vec![3]], 1),
    );
    all.open()?;
    assert_eq!(drain(&mut all)?, ints(vec![vec![1, 3], vec![2, 3]]));
    Ok(())
}

#[test]
fn nested_loop_join_with_an_empty_side() -> Result<(), CrustyError> {
    let mut j = Join::new(SimplePredicateOp::Equals, 0, 0, scan(vec![vec![1]], 1), scan(vec![], 1));
    j.open()?;
    assert_eq!(j.next()?, None);
    Ok(())
}

#[test]
fn join_reopens_after_close() -> Result<(), CrustyError> {
    let mut j = Join::new(
        SimplePredicateOp::GreaterThanOrEq,
        0,
        0,
        scan(vec![vec![1], vec![2]], 1),
        scan(vec![vec![1], vec![2]], 1),
    );
    j.open()?;
    let first = drain(&mut j)?;
    j.close()?;
    j.open()?;
    assert_eq!(drain(&mut j)?, first);
    assert_eq!(first, ints(vec![vec![1, 1], vec![2, 1], vec![2, 2]]));
    Ok(())
}

#[test]
fn hash_join_joins_every_left_tuple_of_a_key() -> Result<(), CrustyError> {
    let left = scan(vec![vec![1, 10], vec![1, 11], vec![2, 20]], 2);
    let right = scan(vec![vec![1], vec![3], vec![2], vec![1]], 1);
    let mut h = HashEqJoin::new(SimplePredicateOp::Equals, 0, 0, left, right);
    h.open()?;
    let expected = ints(vec![vec![1, 10, 1], vec![1, 11, 1], vec![2, 20, 2], vec![1, 10, 1], vec![1, 11, 1]]);
    assert_eq!(drain(&mut h)?, expected);
    h.rewind()?;
    assert_eq!(drain(&mut h)?, expected);
    h.close()?;
    h.open()?;
    assert_eq!(drain(&mut h)?, expected);
    Ok(())
}

#[test]
fn hash_join_pairs_one_right_tuple_with_two_left_tuples() -> Result<(), CrustyError> {
    let left = scan(vec![vec![1, 10], vec![1, 20]], 2);
    let right = scan(vec![vec![1, 5]], 2);
    let mut h = HashEqJoin::new(SimplePredicateOp::Equals, 0, 0, left, right);
    h.open()?;
    assert_eq!(h.next()?, Some(ints(vec![vec![1, 10, 1, 5]]).remove(0)));
    assert_eq!(h.next()?, Some(ints(vec![vec![1, 20, 1, 5]]).remove(0)));
    assert_eq!(h.next()?, None);
    Ok(())
}

#[test]
fn hash_join_matches_nested_loop_join() -> Result<(), CrustyError> {
    let rows_l = vec![vec![3, 0], vec![1, 1], vec![2, 2], vec![3, 5]];
    let rows_r = vec![vec![2, 9], vec![3, 8], vec![4, 7], vec![3, 6]];
    let mut h = HashEqJoin::new(SimplePredicateOp::Equals, 0, 0, scan(rows_l.clone(), 2), scan(rows_r.clone(), 2));
    let mut n = Join::new(SimplePredicateOp::Equals, 0, 0, scan(rows_l, 2), scan(rows_r, 2));
    h.open()?;
    n.open()?;
    let mut a = drain(&mut h)?;
    let mut b = drain(&mut n)?;
    a.sort();
    b.sort();
    assert_eq!(a, b);
    assert_eq!(a.len(), 5);
    Ok(())
}

fn aggregate_of(rows: Vec<Vec<i32>>, aggs: Vec<AggregateField>, groupby: Vec<usize>) -> Vec<Tuple> {
    let schema = int_schema(groupby.len() + aggs.len());
    let mut agg = Aggregator::new(aggs, groupby, &schema);
    for t in ints(rows) {
        agg.merge_tuple_into_group(&t);
    }
    let mut it = agg.iterator();
    it.open().unwrap();
    drain(&mut it).unwrap()
}

#[test]
fn average_rounds_toward_zero() {
    let out = aggregate_of(
        vec![vec![-1], vec![-2], vec![7], vec![8]],
        vec![AggregateField { field: 0, op: AggOp::Avg }],
        vec![],
    );
    assert_eq!(out, ints(vec![vec![3]]));
    let neg = aggregate_of(vec![vec![-1], vec![-2]], vec![AggregateField { field: 0, op: AggOp::Avg }], vec![]);
    assert_eq!(neg, ints(vec![vec![-1]]));
}

#[test]
fn groups_come_in_order_of_first_tuple() {
    let out = aggregate_of(
        vec![vec![2, 5], vec![1, 7], vec![2, -1], vec![3, 0], vec![1, 1]],
        vec![
            AggregateField { field: 1, op: AggOp::Count },
            AggregateField { field: 1, op: AggOp::Sum },
            AggregateField { field: 1, op: AggOp::Min },
            AggregateField { field: 1, op: AggOp::Max },
            AggregateField { field: 1, op: AggOp::Avg },
        ],
        vec![0],
    );
    assert_eq!(
        out,
        ints(vec![vec![2, 2, 4, -1, 5, 2], vec![1, 2, 8, 1, 7, 4], vec![3, 1, 0, 0, 0, 0]])
    );
}

#[test]
fn empty_input_gives_no_group() {
    let out = aggregate_of(vec![], vec![AggregateField { field: 0, op: AggOp::Count }], vec![]);
    assert!(out.is_empty());
}

#[test]
fn sum_of_a_single_string_keeps_the_string() -> Result<(), CrustyError> {
    let schema = int_schema(1);
    let mut agg = Aggregator::new(vec![AggregateField { field: 0, op: AggOp::Sum }], vec![], &schema);
    agg.merge_tuple_into_group(&Tuple::new(vec![s("only")]));
    let mut it = agg.iterator();
    it.open()?;
    assert_eq!(it.next()?, Some(Tuple::new(vec![s("only")])));
    Ok(())
}

#[test]
fn count_ignores_the_field_it_names() -> Result<(), CrustyError> {
    let schema = int_schema(1);
    let mut agg = Aggregator::new(vec![AggregateField { field: 9, op: AggOp::Count }], vec![], &schema);
    agg.merge_tuple_into_group(&Tuple::new(vec![Field::IntField(4)]));
    agg.merge_tuple_into_group(&Tuple::new(vec![Field::IntField(5)]));
    let mut it = agg.iterator();
    it.open()?;
    assert_eq!(it.next()?, Some(Tuple::new(vec![Field::IntField(2)])));
    Ok(())
}

#[test]
fn aggregate_over_a_join_and_reopen() -> Result<(), CrustyError> {
    let join = Join::new(
        SimplePredicateOp::LessThan,
        0,
        0,
        scan(vec![vec![1], vec![2]], 1),
        scan(vec![vec![2], vec![3]], 1),
    );
    // join rows: [1,2] [1,3] [2,3]; group by the left value, count and max of the right
    let mut ag = Aggregate::new(
        vec![0],
        vec!["l"],
        vec![1, 1],
        vec!["n", "m"],
        vec![AggOp::Count, AggOp::Max],
        join,
    );
    assert_eq!(ag.get_schema().size(), 3);
    ag.open()?;
    assert_eq!(drain(&mut ag)?, ints(vec![vec![1, 2, 3], vec![2, 1, 3]]));
    ag.close()?;
    ag.open()?;
    assert_eq!(drain(&mut ag)?.len(), 2);
    ag.rewind()?;
    assert_eq!(drain(&mut ag)?.len(), 2);
    ag.close()
}

#[test]
fn aggregate_schema_takes_group_types_from_the_child() {
    let child = TupleIterator::new(
        vec![],
        TableSchema::from_vecs(vec!["a", "b"], vec![DataType::String, DataType::Int]),
    );
    let ag = Aggregate::new(vec![0], vec!["g"], vec![1], vec!["s"], vec![AggOp::Sum], child);
    let schema = ag.get_schema();
    assert_eq!(schema.get_attribute(0).unwrap(), &Attribute::new("g".to_string(), DataType::String));
    assert_eq!(schema.get_attribute(1).unwrap(), &Attribute::new("s".to_string(), DataType::Int));
}

#[test]
fn merge_order_does_not_change_the_result() {
    let rows = vec![vec![2, 5], vec![1, 7], vec![2, -1], vec![1, 1], vec![2, 9], vec![3, 0]];
    let aggs = || {
        vec![
            AggregateField { field: 1, op: AggOp::Count },
            AggregateField { field: 1, op: AggOp::Sum },
            AggregateField { field: 1, op: AggOp::Min },
            AggregateField { field: 1, op: AggOp::Max },
            AggregateField { field: 1, op: AggOp::Avg },
        ]
    };
    let mut forward = aggregate_of(rows.clone(), aggs(), vec![0]);
    let mut reversed_rows = rows;
    reversed_rows.reverse();
    let mut backward = aggregate_of(reversed_rows, aggs(), vec![0]);
    assert_ne!(forward, backward);
    forward.sort();
    backward.sort();
    assert_eq!(forward, backward);
    assert_eq!(
        forward,
        ints(vec![vec![1, 2, 8, 1, 7, 4], vec![2, 3, 13, -1, 9, 4], vec![3, 1, 0, 0, 0, 0]])
    );
}
