use queryexe::field::{CrustyError, DataType, Field, SimplePredicateOp};
use queryexe::join::{HashEqJoin, Join};
use queryexe::opiterator::{OpIterator, TupleIterator};
use queryexe::tuple::{Attribute, TableSchema, Tuple};

const WIDTH1: usize = 2;
const WIDTH2: usize = 3;

fn create_tuple_list(rows: Vec<Vec<i32>>) -> Vec<Tuple> {
    rows.into_iter()
        .map(|r| Tuple::new(r.into_iter().map(Field::IntField).collect()))
        .collect()
}

fn get_int_table_schema(width: usize) -> TableSchema {
    let attrs = (0..width).map(|_| Attribute::new(String::new(), DataType::Int)).collect();
    TableSchema::new(attrs)
}

fn scan1() -> TupleIterator {
    let tuples = create_tuple_list(vec![vec![1, 2], vec![3, 4], vec![5, 6], vec![7, 8]]);
    TupleIterator::new(tuples, get_int_table_schema(WIDTH1))
}

fn scan2() -> TupleIterator {
    let tuples = create_tuple_list(vec![
        vec![1, 2, 3],
        vec![2, 3, 4],
        vec![3, 4, 5],
        vec![4, 5, 6],
        vec![5, 6, 7],
    ]);
    TupleIterator::new(tuples, get_int_table_schema(WIDTH2))
}

fn eq_join_expected() -> TupleIterator {
    let tuples = create_tuple_list(vec![vec![1, 2, 1, 2, 3], vec![3, 4, 3, 4, 5], vec![5, 6, 5, 6, 7]]);
    TupleIterator::new(tuples, get_int_table_schema(WIDTH1 + WIDTH2))
}

fn gt_join_expected() -> TupleIterator {
    let tuples = create_tuple_list(vec![
        vec![3, 4, 1, 2, 3],
        vec![3, 4, 2, 3, 4],
        vec![5, 6, 1, 2, 3],
        vec![5, 6, 2, 3, 4],
        vec![5, 6, 3, 4, 5],
        vec![5, 6, 4, 5, 6],
        vec![7, 8, 1, 2, 3],
        vec![7, 8, 2, 3, 4],
        vec![7, 8, 3, 4, 5],
        vec![7, 8, 4, 5, 6],
        vec![7, 8, 5, 6, 7],
    ]);
    TupleIterator::new(tuples, get_int_table_schema(WIDTH1 + WIDTH2))
}

fn lt_join_expected() -> TupleIterator {
    let tuples = create_tuple_list(vec![
        vec![1, 2, 2, 3, 4],
        vec![1, 2, 3, 4, 5],
        vec![1, 2, 4, 5, 6],
        vec![1, 2, 5, 6, 7],
        vec![3, 4, 4, 5, 6],
        vec![3, 4, 5, 6, 7],
    ]);
    TupleIterator::new(tuples, get_int_table_schema(WIDTH1 + WIDTH2))
}

fn lt_or_eq_join_expected() -> TupleIterator {
    let tuples = create_tuple_list(vec![
        vec![1, 2, 1, 2, 3],
        vec![1, 2, 2, 3, 4],
        vec![1, 2, 3, 4, 5],
        vec![1, 2, 4, 5, 6],
        vec![1, 2, 5, 6, 7],
        vec![3, 4, 3, 4, 5],
        vec![3, 4, 4, 5, 6],
        vec![3, 4, 5, 6, 7],
        vec![5, 6, 5, 6, 7],
    ]);
    TupleIterator::new(tuples, get_int_table_schema(WIDTH1 + WIDTH2))
}

fn nested_loop(op: SimplePredicateOp) -> Join<TupleIterator, TupleIterator> {
    Join::new(op, 0, 0, scan1(), scan2())
}

fn hash_eq(op: SimplePredicateOp) -> HashEqJoin<TupleIterator, TupleIterator> {
    HashEqJoin::new(op, 0, 0, scan1(), scan2())
}

/// Asserts that two open operators produce the same tuples.
fn match_all_tuples(mut op: impl OpIterator, mut expected: impl OpIterator) -> Result<(), CrustyError> {
    while let Some(t) = expected.next()? {
        assert_eq!(Some(t), op.next()?);
    }
    assert_eq!(None, op.next()?);
    Ok(())
}

fn assert_schema(op: &impl OpIterator) {
    let expected = get_int_table_schema(WIDTH1 + WIDTH2);
    assert_eq!(&expected, op.get_schema());
}

fn assert_rewind(mut op: impl OpIterator) -> Result<(), CrustyError> {
    op.open()?;
    while op.next()?.is_some() {}
    op.rewind()?;
    let mut eq_join = eq_join_expected();
    eq_join.open()?;
    let actual = op.next()?;
    let expected = eq_join.next()?;
    assert_eq!(actual, expected);
    Ok(())
}

fn assert_join(mut op: impl OpIterator, mut expected: TupleIterator) -> Result<(), CrustyError> {
    op.open()?;
    expected.open()?;
    match_all_tuples(op, expected)
}

#[test]
fn join_get_schema() {
    assert_schema(&nested_loop(SimplePredicateOp::Equals));
    assert_schema(&hash_eq(SimplePredicateOp::Equals));
}

#[test]
fn join_rewind() -> Result<(), CrustyError> {
    assert_rewind(nested_loop(SimplePredicateOp::Equals))?;
    assert_rewind(hash_eq(SimplePredicateOp::Equals))
}

#[test]
fn join_eq_join() -> Result<(), CrustyError> {
    assert_join(nested_loop(SimplePredicateOp::Equals), eq_join_expected())?;
    assert_join(hash_eq(SimplePredicateOp::Equals), eq_join_expected())
}

#[test]
fn gt_join() -> Result<(), CrustyError> {
    assert_join(nested_loop(SimplePredicateOp::GreaterThan), gt_join_expected())
}

#[test]
fn lt_join() -> Result<(), CrustyError> {
    assert_join(nested_loop(SimplePredicateOp::LessThan), lt_join_expected())
}

#[test]
fn lt_or_eq_join() -> Result<(), CrustyError> {
    assert_join(nested_loop(SimplePredicateOp::LessThanOrEq), lt_or_eq_join_expected())
}
