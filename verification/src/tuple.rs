use vstd::prelude::*;
use crate::field::{fields_view, DataType, Field, FieldV};

verus! {

/// A row of a table.
#[derive(Clone, Debug, PartialEq, Eq, PartialOrd, Ord, Hash)]
pub struct Tuple {
    pub field_vals: Vec<Field>,
}

impl View for Tuple {
    type V = Seq<FieldV>;

    open spec fn view(&self) -> Seq<FieldV> {
        fields_view(self.field_vals@)
    }
}

/// Copies a vector of fields.
pub fn duplicate_fields(v: &Vec<Field>) -> (r: Vec<Field>)
    ensures
        fields_view(r@) == fields_view(v@),
        r.len() == v.len(),
        forall|j: int| 0 <= j < v.len() ==> r@[j]@ == v@[j]@,
{
    let mut r: Vec<Field> = Vec::new();
    let mut i: usize = 0;
    while i < v.len()
        invariant
            i <= v.len(),
            r.len() == i,
            forall|j: int| 0 <= j < i ==> r@[j]@ == v@[j]@,
        decreases v.len() - i,
    {
        r.push(v[i].duplicate());
        i = i + 1;
    }
    assert(fields_view(r@) =~= fields_view(v@));
    r
}

/// Whether two vectors of fields hold the same values.
pub fn same_fields(a: &Vec<Field>, b: &Vec<Field>) -> (r: bool)
    ensures r == (fields_view(a@) == fields_view(b@)),
{
    if a.len() != b.len() {
        assert(fields_view(a@).len() != fields_view(b@).len());
        return false;
    }
    let mut i: usize = 0;
    while i < a.len()
        invariant
            i <= a.len(),
            a.len() == b.len(),
            forall|j: int| 0 <= j < i ==> a@[j]@ == b@[j]@,
        decreases a.len() - i,
    {
        if !a[i].same_value(&b[i]) {
            assert(fields_view(a@)[i as int] != fields_view(b@)[i as int]);
            return false;
        }
        i = i + 1;
    }
    assert(fields_view(a@) =~= fields_view(b@));
    true
}

impl Tuple {
    /// Creates a tuple holding the given fields.
    pub fn new(field_vals: Vec<Field>) -> (t: Tuple)
        ensures t@ == fields_view(field_vals@),
    {
        Tuple { field_vals }
    }

    /// The field at position `i`, if there is one.
    pub fn get_field(&self, i: usize) -> (r: Option<&Field>)
        ensures
            match r {
                Some(f) => i < self@.len() && f@ == self@[i as int],
                None => i >= self@.len(),
            },
    {
        if i < self.field_vals.len() {
            Some(&self.field_vals[i])
        } else {
            None
        }
    }

    /// The number of fields.
    pub fn size(&self) -> (n: usize)
        ensures n == self@.len(),
    {
        self.field_vals.len()
    }

    /// The fields of this tuple.
    pub fn field_vals(&self) -> (r: &Vec<Field>)
        ensures fields_view(r@) == self@,
    {
        &self.field_vals
    }

    /// A copy of this tuple.
    pub fn duplicate(&self) -> (t: Tuple)
        ensures t@ == self@,
    {
        Tuple { field_vals: duplicate_fields(&self.field_vals) }
    }

    /// The fields of this tuple followed by those of `other`.
    pub fn merge(&self, other: &Tuple) -> (t: Tuple)
        ensures t@ == self@ + other@,
    {
        let mut v = duplicate_fields(&self.field_vals);
        let n = v.len();
        let mut i: usize = 0;
        while i < other.field_vals.len()
            invariant
                i <= other.field_vals.len(),
                n == self.field_vals.len(),
                v.len() == n + i,
                forall|j: int| 0 <= j < n ==> v@[j]@ == self.field_vals@[j]@,
                forall|j: int| 0 <= j < i ==> v@[n + j]@ == other.field_vals@[j]@,
            decreases other.field_vals.len() - i,
        {
            v.push(other.field_vals[i].duplicate());
            i = i + 1;
        }
        assert(fields_view(v@) =~= fields_view(self.field_vals@) + fields_view(other.field_vals@));
        Tuple { field_vals: v }
    }
}

/// The value of an attribute: its name and its type.
pub type AttributeV = (Seq<char>, DataType);

/// A named, typed column.
#[derive(Clone, Debug, PartialEq, Eq)]
pub struct Attribute {
    pub name: String,
    pub dtype: DataType,
}

impl View for Attribute {
    type V = AttributeV;

    open spec fn view(&self) -> AttributeV {
        (self.name@, self.dtype)
    }
}

impl Attribute {
    /// Creates an attribute.
    pub fn new(name: String, dtype: DataType) -> (a: Attribute)
        ensures a@ == (name@, dtype),
    {
        Attribute { name, dtype }
    }

    /// The name of the attribute.
    pub fn name(&self) -> (r: &str)
        ensures r@ == self@.0,
    {
        self.name.as_str()
    }

    /// The type of the attribute.
    pub fn dtype(&self) -> (r: &DataType)
        ensures *r == self@.1,
    {
        &self.dtype
    }

    /// A copy of this attribute.
    pub fn duplicate(&self) -> (a: Attribute)
        ensures a@ == self@,
    {
        Attribute { name: self.name.clone(), dtype: self.dtype }
    }
}

/// The values of a sequence of attributes.
pub open spec fn attrs_view(s: Seq<Attribute>) -> Seq<AttributeV> {
    s.map_values(|a: Attribute| a@)
}

/// The columns of a table.
#[derive(Clone, Debug, PartialEq, Eq)]
pub struct TableSchema {
    attributes: Vec<Attribute>,
}

impl View for TableSchema {
    type V = Seq<AttributeV>;

    closed spec fn view(&self) -> Seq<AttributeV> {
        attrs_view(self.attributes@)
    }
}

/// Copies a vector of attributes.
fn duplicate_attributes(v: &Vec<Attribute>) -> (r: Vec<Attribute>)
    ensures
        attrs_view(r@) == attrs_view(v@),
        r.len() == v.len(),
        forall|j: int| 0 <= j < v.len() ==> r@[j]@ == v@[j]@,
{
    let mut r: Vec<Attribute> = Vec::new();
    let mut i: usize = 0;
    while i < v.len()
        invariant
            i <= v.len(),
            r.len() == i,
            forall|j: int| 0 <= j < i ==> r@[j]@ == v@[j]@,
        decreases v.len() - i,
    {
        r.push(v[i].duplicate());
        i = i + 1;
    }
    assert(attrs_view(r@) =~= attrs_view(v@));
    r
}

impl TableSchema {
    /// Creates a schema with the given attributes.
    pub fn new(attributes: Vec<Attribute>) -> (s: TableSchema)
        ensures s@ == attrs_view(attributes@),
    {
        TableSchema { attributes }
    }

    /// Creates a schema from attribute names and types, pairing them in order;
    /// the longer vector's surplus is ignored.
    pub fn from_vecs(names: Vec<&str>, dtypes: Vec<DataType>) -> (s: TableSchema)
        ensures
            s@.len() == if names.len() < dtypes.len() { names.len() } else { dtypes.len() },
            forall|i: int| 0 <= i < s@.len() ==> s@[i] == (names[i]@, dtypes[i]),
    {
        let mut attrs: Vec<Attribute> = Vec::new();
        let mut i: usize = 0;
        while i < names.len() && i < dtypes.len()
            invariant
                i <= names.len(),
                i <= dtypes.len(),
                attrs.len() == i,
                forall|j: int| 0 <= j < i ==> attrs@[j]@ == (names[j]@, dtypes[j]),
            decreases names.len() - i,
        {
            attrs.push(Attribute::new(names[i].to_owned(), dtypes[i]));
            i = i + 1;
        }
        TableSchema { attributes: attrs }
    }

    /// The attribute at position `i`, if there is one.
    pub fn get_attribute(&self, i: usize) -> (r: Option<&Attribute>)
        ensures
            match r {
                Some(a) => i < self@.len() && a@ == self@[i as int],
                None => i >= self@.len(),
            },
    {
        if i < self.attributes.len() {
            Some(&self.attributes[i])
        } else {
            None
        }
    }

    /// The attributes of this schema.
    pub fn attributes(&self) -> (r: &Vec<Attribute>)
        ensures attrs_view(r@) == self@,
    {
        &self.attributes
    }

    /// The number of attributes.
    pub fn size(&self) -> (n: usize)
        ensures n == self@.len(),
    {
        self.attributes.len()
    }

    /// A copy of this schema.
    pub fn duplicate(&self) -> (s: TableSchema)
        ensures s@ == self@,
    {
        TableSchema { attributes: duplicate_attributes(&self.attributes) }
    }

    /// The attributes of this schema followed by those of `other`.
    pub fn merge(&self, other: &TableSchema) -> (s: TableSchema)
        ensures s@ == self@ + other@,
    {
        let mut v = duplicate_attributes(&self.attributes);
        let n = v.len();
        let mut i: usize = 0;
        while i < other.attributes.len()
            invariant
                i <= other.attributes.len(),
                n == self.attributes.len(),
                v.len() == n + i,
                forall|j: int| 0 <= j < n ==> v@[j]@ == self.attributes@[j]@,
                forall|j: int| 0 <= j < i ==> v@[n + j]@ == other.attributes@[j]@,
            decreases other.attributes.len() - i,
        {
            v.push(other.attributes[i].duplicate());
            i = i + 1;
        }
        assert(attrs_view(v@) =~= attrs_view(self.attributes@) + attrs_view(other.attributes@));
        TableSchema { attributes: v }
    }
}

} // verus!
