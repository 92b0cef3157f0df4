//! Data types, scalar values and schemas.
use crate::interval::IntervalUnit;
use vstd::prelude::*;

verus! {

/// The type of a column or of an expression.
#[derive(Debug, Clone, Copy, PartialEq, Eq, Structural)]
pub enum DataType {
    Boolean,
    Int16,
    Int32,
    Int64,
    Float32,
    Float64,
    Decimal,
    Date,
    Time,
    Timestamp,
    Timestampz,
    Interval,
    Varchar,
    Struct,
    List,
}

/// A scalar value that is not null.
#[derive(Debug, PartialEq, Eq)]
pub enum ScalarImpl {
    Bool(bool),
    Int16(i16),
    Int32(i32),
    Int64(i64),
    /// The bit pattern of a 32-bit float.
    Float32(u32),
    /// The bit pattern of a 64-bit float.
    Float64(u64),
    Utf8(String),
    Interval(IntervalUnit),
    /// Microseconds since 1970-01-01T00:00:00, without a time zone.
    Timestamp(i64),
    /// A value of any other type, known by a number that its owner gave it.
    Opaque(u64),
}

/// A scalar value, or null.
pub type Datum = Option<ScalarImpl>;

/// Copies a value.
pub fn copy_datum(datum: &Datum) -> (r: Datum)
    ensures
        r == *datum,
{
    match datum {
        None => None,
        Some(scalar) => Some(
            match scalar {
                ScalarImpl::Bool(v) => ScalarImpl::Bool(*v),
                ScalarImpl::Int16(v) => ScalarImpl::Int16(*v),
                ScalarImpl::Int32(v) => ScalarImpl::Int32(*v),
                ScalarImpl::Int64(v) => ScalarImpl::Int64(*v),
                ScalarImpl::Float32(v) => ScalarImpl::Float32(*v),
                ScalarImpl::Float64(v) => ScalarImpl::Float64(*v),
                ScalarImpl::Utf8(v) => ScalarImpl::Utf8(v.clone()),
                ScalarImpl::Interval(v) => ScalarImpl::Interval(*v),
                ScalarImpl::Timestamp(v) => ScalarImpl::Timestamp(*v),
                ScalarImpl::Opaque(v) => ScalarImpl::Opaque(*v),
            },
        ),
    }
}

/// A named and typed column of a [`Schema`].
#[derive(Debug, PartialEq, Eq)]
pub struct Field {
    pub data_type: DataType,
    pub name: String,
}

impl Field {
    pub fn with_name(data_type: DataType, name: String) -> (r: Self)
        ensures
            r == (Field { data_type, name }),
    {
        Field { data_type, name }
    }

    /// A field whose name is empty.
    pub fn unnamed(data_type: DataType) -> (r: Self)
        ensures
            r.is_unnamed(data_type),
    {
        Field { data_type, name: String::new() }
    }

    pub open spec fn is_unnamed(self, data_type: DataType) -> bool {
        self.data_type == data_type && self.name@ == Seq::<char>::empty()
    }
}

/// The fields of a relation, in order.
#[derive(Debug, PartialEq, Eq)]
pub struct Schema {
    pub fields: Vec<Field>,
}

impl View for Schema {
    type V = Seq<Field>;

    open spec fn view(&self) -> Seq<Field> {
        self.fields@
    }
}

impl Schema {
    pub fn new(fields: Vec<Field>) -> (r: Self)
        ensures
            r.fields == fields,
    {
        Schema { fields }
    }

    /// Copies the schema.
    pub fn duplicate(&self) -> (r: Self)
        ensures
            r@ == self@,
    {
        let mut fields: Vec<Field> = Vec::new();
        for i in 0..self.fields.len()
            invariant
                fields@ == self@.take(i as int),
        {
            let field = &self.fields[i];
            fields.push(Field { data_type: field.data_type, name: field.name.clone() });
            assert(self@.take(i + 1) == self@.take(i as int).push(self@[i as int]));
        }
        assert(self@.take(self@.len() as int) == self@);
        Schema { fields }
    }
}

} // verus!
