//! The schema shapes that describe record values, and fallible
//! downcasting of a schema to a concrete shape.

use vstd::prelude::*;

verus! {

/// The error a failed downcast reports.
#[derive(Debug, PartialEq, Eq, Structural)]
pub enum ParquetError {
    /// The schema does not have the requested shape.
    Mismatch,
}

/// The shape of a required record value: one arm per value arm, with the
/// element shapes of the nested arms, and an optional shape for a
/// nullable field.
#[derive(Debug)]
pub enum ValueSchema {
    Bool,
    U8,
    I8,
    U16,
    I16,
    U32,
    I32,
    U64,
    I64,
    F32,
    F64,
    Date,
    DateWithoutTimezone,
    Time,
    TimeWithoutTimezone,
    DateTime,
    DateTimeWithoutTimezone,
    Timezone,
    Decimal,
    ByteArray,
    Bson,
    String,
    Json,
    Enum,
    Url,
    Webpage,
    IpAddr,
    List(Box<ValueSchema>),
    Mapping(Box<ValueSchema>, Box<ValueSchema>),
    Group(Vec<(String, ValueSchema)>),
    Option(Box<ValueSchema>),
}

/// Downcasting a dynamic shape to a concrete one; fallible, since the
/// dynamic shape may be anything.
pub trait Downcast<T>: Sized {
    /// What the downcast answers.
    spec fn downcast_spec(self) -> Result<T, ParquetError>;

    /// Downcast to the concrete shape, or report the mismatch.
    fn downcast(self) -> (r: Result<T, ParquetError>)
        ensures
            r == self.downcast_spec(),
    ;
}

impl Downcast<ValueSchema> for ValueSchema {
    open spec fn downcast_spec(self) -> Result<ValueSchema, ParquetError> {
        Ok(self)
    }

    fn downcast(self) -> (r: Result<ValueSchema, ParquetError>) {
        Ok(self)
    }
}

impl Downcast<Vec<(String, ValueSchema)>> for ValueSchema {
    open spec fn downcast_spec(self) -> Result<Vec<(String, ValueSchema)>, ParquetError> {
        match self {
            ValueSchema::Group(fields) => Ok(fields),
            _ => Err(ParquetError::Mismatch),
        }
    }

    fn downcast(self) -> (r: Result<Vec<(String, ValueSchema)>, ParquetError>) {
        match self {
            ValueSchema::Group(fields) => Ok(fields),
            _ => Err(ParquetError::Mismatch),
        }
    }
}

/// Downcast a named schema, keeping the name with the concrete shape.
pub fn downcast<T>(named: (String, ValueSchema)) -> (r: Result<(String, T), ParquetError>)
    where
        ValueSchema: Downcast<T>,
    ensures
        (match Downcast::<T>::downcast_spec(named.1) {
            Ok(schema) => r matches Ok(p) && p.0 == named.0 && p.1 == schema,
            Err(e) => r == Err::<(String, T), ParquetError>(e),
        }),
{
    let (name, schema) = named;
    match schema.downcast() {
        Ok(schema) => Ok((name, schema)),
        Err(e) => Err(e),
    }
}

/// Marks the top-level shape of a record tree.
#[derive(Clone, Hash, PartialEq, Eq, Debug)]
pub struct Root<T>(pub T);

} // verus!
