use vstd::prelude::*;
use vstd::utf8::encode_utf8;

verus! {

/// Column types of a table.
#[derive(Clone, Copy, Debug, PartialEq, Eq, Structural)]
pub enum DataType {
    Int,
    String,
}

/// A single value of a tuple.
#[derive(Clone, Debug, PartialEq, Eq, PartialOrd, Ord, Hash)]
pub enum Field {
    IntField(i32),
    StringField(String),
}

/// The mathematical value of a field: an integer, or the characters of a string.
pub enum FieldV {
    Int(i32),
    Str(Seq<char>),
}

impl FieldV {
    /// The integer held by an integer field.
    pub open spec fn int_val(self) -> int {
        match self {
            FieldV::Int(i) => i as int,
            FieldV::Str(_) => 0,
        }
    }
}

impl View for Field {
    type V = FieldV;

    open spec fn view(&self) -> FieldV {
        match self {
            Field::IntField(i) => FieldV::Int(*i),
            Field::StringField(s) => FieldV::Str(s@),
        }
    }
}

/// The values of a sequence of fields.
pub open spec fn fields_view(s: Seq<Field>) -> Seq<FieldV> {
    s.map_values(|f: Field| f@)
}

/// Strict lexicographic order on byte strings (the order of `str`).
pub open spec fn bytes_lt(a: Seq<u8>, b: Seq<u8>) -> bool
    decreases a.len(),
{
    if b.len() == 0 {
        false
    } else if a.len() == 0 {
        true
    } else if a[0] != b[0] {
        a[0] < b[0]
    } else {
        bytes_lt(a.drop_first(), b.drop_first())
    }
}

/// Strict order on field values: integers by value, every integer before every
/// string, strings by the bytes of their UTF-8 encoding.
pub open spec fn field_lt(a: FieldV, b: FieldV) -> bool {
    match (a, b) {
        (FieldV::Int(x), FieldV::Int(y)) => x < y,
        (FieldV::Int(_), FieldV::Str(_)) => true,
        (FieldV::Str(_), FieldV::Int(_)) => false,
        (FieldV::Str(s), FieldV::Str(t)) => bytes_lt(encode_utf8(s), encode_utf8(t)),
    }
}

/// The larger of two values; the second one when they are equal.
pub open spec fn field_max(a: FieldV, b: FieldV) -> FieldV {
    if field_lt(b, a) { a } else { b }
}

/// The smaller of two values; the first one when they are equal.
pub open spec fn field_min(a: FieldV, b: FieldV) -> FieldV {
    if field_lt(b, a) { b } else { a }
}

pub proof fn lemma_bytes_lt_irreflexive(a: Seq<u8>)
    ensures !bytes_lt(a, a),
    decreases a.len(),
{
    if a.len() > 0 {
        lemma_bytes_lt_irreflexive(a.drop_first());
    }
}

pub proof fn lemma_bytes_lt_asymmetric(a: Seq<u8>, b: Seq<u8>)
    ensures !(bytes_lt(a, b) && bytes_lt(b, a)),
    decreases a.len(),
{
    if a.len() > 0 && b.len() > 0 && a[0] == b[0] {
        lemma_bytes_lt_asymmetric(a.drop_first(), b.drop_first());
    }
}

pub proof fn lemma_bytes_lt_total(a: Seq<u8>, b: Seq<u8>)
    ensures a =~= b || bytes_lt(a, b) || bytes_lt(b, a),
    decreases a.len(),
{
    if a.len() > 0 && b.len() > 0 && a[0] == b[0] {
        lemma_bytes_lt_total(a.drop_first(), b.drop_first());
        if a.drop_first() =~= b.drop_first() {
            assert(a =~= seq![a[0]] + a.drop_first());
            assert(b =~= seq![b[0]] + b.drop_first());
        }
    }
}

pub proof fn lemma_bytes_lt_transitive(a: Seq<u8>, b: Seq<u8>, c: Seq<u8>)
    requires bytes_lt(a, b), bytes_lt(b, c),
    ensures bytes_lt(a, c),
    decreases a.len(),
{
    if a.len() > 0 && a[0] == b[0] && b[0] == c[0] {
        lemma_bytes_lt_transitive(a.drop_first(), b.drop_first(), c.drop_first());
    }
}

/// `field_lt` is transitive.
pub proof fn lemma_field_lt_transitive(a: FieldV, b: FieldV, c: FieldV)
    requires
        field_lt(a, b),
        field_lt(b, c),
    ensures
        field_lt(a, c),
{
    match (a, b, c) {
        (FieldV::Str(x), FieldV::Str(y), FieldV::Str(z)) => {
            lemma_bytes_lt_transitive(encode_utf8(x), encode_utf8(y), encode_utf8(z));
        },
        _ => {},
    }
}

/// `field_lt` is a strict total order.
pub proof fn lemma_field_lt_order(a: FieldV, b: FieldV)
    ensures
        !field_lt(a, a),
        !(field_lt(a, b) && field_lt(b, a)),
        a == b || field_lt(a, b) || field_lt(b, a),
{
    match (a, b) {
        (FieldV::Str(s), FieldV::Str(t)) => {
            lemma_bytes_lt_irreflexive(encode_utf8(s));
            lemma_bytes_lt_asymmetric(encode_utf8(s), encode_utf8(t));
            lemma_bytes_lt_total(encode_utf8(s), encode_utf8(t));
            vstd::utf8::encode_utf8_decode_utf8(s);
            vstd::utf8::encode_utf8_decode_utf8(t);
        },
        (FieldV::Str(s), _) => {
            lemma_bytes_lt_irreflexive(encode_utf8(s));
        },
        _ => {},
    }
}

/// On integers the order is the numeric order; every integer comes before every
/// string; two strings compare as the bytes of their UTF-8 encodings, byte by
/// byte, a proper prefix first.
pub proof fn law_field_order(x: i32, y: i32, s: Seq<char>, t: Seq<char>)
    ensures
        field_lt(FieldV::Int(x), FieldV::Int(y)) <==> x < y,
        field_lt(FieldV::Int(x), FieldV::Str(s)),
        !field_lt(FieldV::Str(s), FieldV::Int(x)),
        encode_utf8(s).len() < encode_utf8(t).len() && encode_utf8(s) == encode_utf8(t).take(
            encode_utf8(s).len() as int,
        ) ==> field_lt(FieldV::Str(s), FieldV::Str(t)),
        forall|k: int|
            0 <= k < encode_utf8(s).len() && k < encode_utf8(t).len() && encode_utf8(s).take(k) == encode_utf8(t).take(k)
                && encode_utf8(s)[k] != encode_utf8(t)[k] ==> (field_lt(FieldV::Str(s), FieldV::Str(t)) <==> encode_utf8(s)[k]
                < encode_utf8(t)[k]),
{
    let a = encode_utf8(s);
    let b = encode_utf8(t);
    if a.len() < b.len() && a == b.take(a.len() as int) {
        lemma_bytes_lt_prefix(a, b);
    }
    assert forall|k: int|
        0 <= k < a.len() && k < b.len() && a.take(k) == b.take(k) && a[k] != b[k] implies (bytes_lt(a, b) <==> a[k] < b[k]) by {
        lemma_bytes_lt_first_difference(a, b, k);
    }
}

proof fn lemma_bytes_lt_prefix(a: Seq<u8>, b: Seq<u8>)
    requires
        a.len() < b.len(),
        a == b.take(a.len() as int),
    ensures
        bytes_lt(a, b),
    decreases a.len(),
{
    if a.len() > 0 {
        assert(a[0] == b.take(a.len() as int)[0]);
        assert(a.drop_first() =~= b.drop_first().take(a.drop_first().len() as int));
        lemma_bytes_lt_prefix(a.drop_first(), b.drop_first());
    }
}

proof fn lemma_bytes_lt_first_difference(a: Seq<u8>, b: Seq<u8>, k: int)
    requires
        0 <= k < a.len(),
        k < b.len(),
        a.take(k) == b.take(k),
        a[k] != b[k],
    ensures
        bytes_lt(a, b) <==> a[k] < b[k],
    decreases k,
{
    if k > 0 {
        assert(a[0] == a.take(k)[0]);
        assert(b[0] == b.take(k)[0]);
        assert(a.drop_first().take(k - 1) =~= b.drop_first().take(k - 1)) by {
            assert forall|j: int| 0 <= j < k - 1 implies a.drop_first()[j] == b.drop_first()[j] by {
                assert(a[j + 1] == a.take(k)[j + 1]);
                assert(b[j + 1] == b.take(k)[j + 1]);
            }
        }
        lemma_bytes_lt_first_difference(a.drop_first(), b.drop_first(), k - 1);
    }
}

/// The larger and the smaller of two integers are their numeric maximum and
/// minimum.
pub proof fn law_field_max_min_int(x: i32, y: i32)
    ensures
        field_max(FieldV::Int(x), FieldV::Int(y)) == FieldV::Int(if x < y { y } else { x }),
        field_min(FieldV::Int(x), FieldV::Int(y)) == FieldV::Int(if y < x { y } else { x }),
{
}

/// The outcome of comparing two values.
#[derive(Clone, Copy, Debug, PartialEq, Eq, Structural)]
pub enum Order {
    Less,
    Equal,
    Greater,
}

/// Compares two byte strings lexicographically.
pub fn compare_bytes(a: &[u8], b: &[u8]) -> (r: Order)
    ensures
        (r == Order::Less) == bytes_lt(a@, b@),
        (r == Order::Equal) == (a@ == b@),
        (r == Order::Greater) == bytes_lt(b@, a@),
{
    proof {
        lemma_bytes_lt_irreflexive(a@);
        lemma_bytes_lt_asymmetric(a@, b@);
        lemma_bytes_lt_total(a@, b@);
    }
    let mut i: usize = 0;
    assert(a@.skip(0) =~= a@);
    assert(b@.skip(0) =~= b@);
    while i < a.len() && i < b.len()
        invariant
            i <= a.len(),
            i <= b.len(),
            forall|j: int| 0 <= j < i ==> a@[j] == b@[j],
            bytes_lt(a@, b@) == bytes_lt(a@.skip(i as int), b@.skip(i as int)),
            bytes_lt(b@, a@) == bytes_lt(b@.skip(i as int), a@.skip(i as int)),
        decreases a.len() - i,
    {
        if a[i] < b[i] {
            return Order::Less;
        } else if a[i] > b[i] {
            return Order::Greater;
        }
        assert(a@.skip(i as int).drop_first() =~= a@.skip(i + 1));
        assert(b@.skip(i as int).drop_first() =~= b@.skip(i + 1));
        i = i + 1;
    }
    if i < b.len() {
        Order::Less
    } else if i < a.len() {
        Order::Greater
    } else {
        assert(a@ =~= b@);
        Order::Equal
    }
}

impl Field {
    /// Compares two fields: integers by value, integers before strings, strings
    /// as byte strings.
    pub fn compare(&self, other: &Field) -> (r: Order)
        ensures
            (r == Order::Less) == field_lt(self@, other@),
            (r == Order::Equal) == (self@ == other@),
            (r == Order::Greater) == field_lt(other@, self@),
    {
        proof {
            lemma_field_lt_order(self@, other@);
        }
        match (self, other) {
            (Field::IntField(x), Field::IntField(y)) => {
                if *x < *y {
                    Order::Less
                } else if *x == *y {
                    Order::Equal
                } else {
                    Order::Greater
                }
            },
            (Field::IntField(_), Field::StringField(_)) => Order::Less,
            (Field::StringField(_), Field::IntField(_)) => Order::Greater,
            (Field::StringField(s), Field::StringField(t)) => {
                let r = compare_bytes(s.as_str().as_bytes(), t.as_str().as_bytes());
                proof {
                    vstd::utf8::encode_utf8_decode_utf8(s@);
                    vstd::utf8::encode_utf8_decode_utf8(t@);
                }
                r
            },
        }
    }

    /// Whether two fields hold the same value.
    pub fn same_value(&self, other: &Field) -> (r: bool)
        ensures r == (self@ == other@),
    {
        match (self, other) {
            (Field::IntField(x), Field::IntField(y)) => *x == *y,
            (Field::StringField(s), Field::StringField(t)) => *s == *t,
            _ => false,
        }
    }

    /// A copy of this field.
    pub fn duplicate(&self) -> (r: Field)
        ensures r@ == self@,
    {
        match self {
            Field::IntField(i) => Field::IntField(*i),
            Field::StringField(s) => Field::StringField(s.clone()),
        }
    }

    /// The integer of an integer field.
    pub fn unwrap_int_field(&self) -> (r: i32)
        requires self@ is Int,
        ensures r == self@.int_val(),
    {
        match self {
            Field::IntField(i) => *i,
            Field::StringField(_) => 0,
        }
    }
}

/// The larger of two fields; the second one when they are equal.
pub fn max_field(a: Field, b: Field) -> (r: Field)
    ensures r@ == field_max(a@, b@),
{
    match a.compare(&b) {
        Order::Greater => a,
        _ => b,
    }
}

/// The smaller of two fields; the first one when they are equal.
pub fn min_field(a: Field, b: Field) -> (r: Field)
    ensures r@ == field_min(a@, b@),
{
    match a.compare(&b) {
        Order::Greater => b,
        _ => a,
    }
}

} // verus!

verus! {

/// Comparison operators of simple predicates.
#[derive(Clone, Copy, Debug, PartialEq, Eq, Structural)]
pub enum SimplePredicateOp {
    Equals,
    GreaterThan,
    LessThan,
    LessThanOrEq,
    GreaterThanOrEq,
    NotEq,
    All,
}

impl SimplePredicateOp {
    /// Whether `left op right` holds.
    pub open spec fn holds(self, left: FieldV, right: FieldV) -> bool {
        match self {
            SimplePredicateOp::Equals => left == right,
            SimplePredicateOp::GreaterThan => field_lt(right, left),
            SimplePredicateOp::LessThan => field_lt(left, right),
            SimplePredicateOp::LessThanOrEq => field_lt(left, right) || left == right,
            SimplePredicateOp::GreaterThanOrEq => field_lt(right, left) || left == right,
            SimplePredicateOp::NotEq => left != right,
            SimplePredicateOp::All => true,
        }
    }

    /// Compares two fields with this operator.
    pub fn compare(&self, left_field: &Field, right_field: &Field) -> (r: bool)
        ensures r == self.holds(left_field@, right_field@),
    {
        let o = left_field.compare(right_field);
        match self {
            SimplePredicateOp::Equals => o == Order::Equal,
            SimplePredicateOp::GreaterThan => o == Order::Greater,
            SimplePredicateOp::LessThan => o == Order::Less,
            SimplePredicateOp::LessThanOrEq => o != Order::Greater,
            SimplePredicateOp::GreaterThanOrEq => o != Order::Less,
            SimplePredicateOp::NotEq => o != Order::Equal,
            SimplePredicateOp::All => true,
        }
    }
}

/// Aggregation functions.
#[derive(Clone, Copy, Debug, PartialEq, Eq, Structural)]
pub enum AggOp {
    Avg,
    Count,
    Max,
    Min,
    Sum,
}

/// Errors of the query operators.
#[derive(Debug)]
pub enum CrustyError {
    ExecutionError(String),
}

} // verus!
