//! The typed record value model: a closed sum of dynamic values
//! ([`Value`]), and its non-recursive core ([`ValueRequired`]) that exists
//! so that only the outer value can be optional.
//!
//! Floating-point payloads are carried as their raw IEEE bits; equality
//! and ordering on those arms follow IEEE semantics, computed on the bits.

use vstd::prelude::*;
use core::cmp::Ordering;

use crate::bits::{
    bytes_cmp_spec, bytes_eq, i64_bits_spec, f32_bits_cmp, f32_bits_eq, f32_cmp, f32_eq, f64_bits_cmp,
    f64_bits_eq, f64_cmp, f64_eq, str_bytes_eq, string_bytes,
};
use crate::types::{
    int_ordering, AmadeusOrd, ip_cmp_spec, url_cmp_spec, webpage_cmp_spec, Bson, Date, DateTime,
    DateTimeWithoutTimezone, DateWithoutTimezone, Decimal, Enum, IpAddr, Json, Time,
    TimeWithoutTimezone, Timezone, Url, Webpage,
};

verus! {

/// A named-field record: field names paired with their values, in
/// declaration order.
#[derive(Debug)]
pub struct Group {
    pub fields: Vec<(String, Value)>,
}

/// Any valid required record value: the full sum minus the option arm.
/// Exists to bound option nesting at one level and so keep [`Value`]
/// finitely sized.
#[derive(Debug)]
pub enum ValueRequired {
    /// Boolean value.
    Bool(bool),
    /// Unsigned 8-bit integer.
    U8(u8),
    /// Signed 8-bit integer.
    I8(i8),
    /// Unsigned 16-bit integer.
    U16(u16),
    /// Signed 16-bit integer.
    I16(i16),
    /// Unsigned 32-bit integer.
    U32(u32),
    /// Signed 32-bit integer.
    I32(i32),
    /// Unsigned 64-bit integer.
    U64(u64),
    /// Signed 64-bit integer.
    I64(i64),
    /// IEEE 32-bit floating point value, carried as its raw bits.
    F32(u32),
    /// IEEE 64-bit floating point value, carried as its raw bits.
    F64(u64),
    /// Date with a timezone.
    Date(Date),
    /// Date without a timezone.
    DateWithoutTimezone(DateWithoutTimezone),
    /// Time of day with a timezone.
    Time(Time),
    /// Time of day without a timezone.
    TimeWithoutTimezone(TimeWithoutTimezone),
    /// Instant with a timezone.
    DateTime(DateTime),
    /// Instant without a timezone.
    DateTimeWithoutTimezone(DateTimeWithoutTimezone),
    /// Timezone alone.
    Timezone(Timezone),
    /// Decimal value.
    Decimal(Decimal),
    /// General binary value.
    ByteArray(Vec<u8>),
    /// BSON binary value.
    Bson(Bson),
    /// UTF-8 encoded character string.
    String(String),
    /// JSON string.
    Json(Json),
    /// Enum string.
    Enum(Enum),
    /// URL.
    Url(Url),
    /// Web page.
    Webpage(Webpage),
    /// IP address.
    IpAddr(IpAddr),
    /// List of values.
    List(Vec<Value>),
    /// Key-value pairs, held as an association list in insertion order.
    Mapping(Vec<(Value, Value)>),
    /// Named-field record.
    Group(Group),
}

/// Any valid record value: every required arm, plus an optional required
/// value. Nullability lives only at this outer shell.
#[derive(Debug)]
pub enum Value {
    /// Boolean value.
    Bool(bool),
    /// Unsigned 8-bit integer.
    U8(u8),
    /// Signed 8-bit integer.
    I8(i8),
    /// Unsigned 16-bit integer.
    U16(u16),
    /// Signed 16-bit integer.
    I16(i16),
    /// Unsigned 32-bit integer.
    U32(u32),
    /// Signed 32-bit integer.
    I32(i32),
    /// Unsigned 64-bit integer.
    U64(u64),
    /// Signed 64-bit integer.
    I64(i64),
    /// IEEE 32-bit floating point value, carried as its raw bits.
    F32(u32),
    /// IEEE 64-bit floating point value, carried as its raw bits.
    F64(u64),
    /// Date with a timezone.
    Date(Date),
    /// Date without a timezone.
    DateWithoutTimezone(DateWithoutTimezone),
    /// Time of day with a timezone.
    Time(Time),
    /// Time of day without a timezone.
    TimeWithoutTimezone(TimeWithoutTimezone),
    /// Instant with a timezone.
    DateTime(DateTime),
    /// Instant without a timezone.
    DateTimeWithoutTimezone(DateTimeWithoutTimezone),
    /// Timezone alone.
    Timezone(Timezone),
    /// Decimal value.
    Decimal(Decimal),
    /// General binary value.
    ByteArray(Vec<u8>),
    /// BSON binary value.
    Bson(Bson),
    /// UTF-8 encoded character string.
    String(String),
    /// JSON string.
    Json(Json),
    /// Enum string.
    Enum(Enum),
    /// URL.
    Url(Url),
    /// Web page.
    Webpage(Webpage),
    /// IP address.
    IpAddr(IpAddr),
    /// List of values.
    List(Vec<Value>),
    /// Key-value pairs, held as an association list in insertion order.
    Mapping(Vec<(Value, Value)>),
    /// Named-field record.
    Group(Group),
    /// An optional required value.
    Option(Option<ValueRequired>),
}

/// Structural equality of two required values: equal arms with equal
/// payloads, where floating-point payloads compare by IEEE semantics and
/// string payloads by their UTF-8 bytes.
pub open spec fn vr_eq(a: ValueRequired, b: ValueRequired) -> bool
    decreases a,
{
    match (a, b) {
        (ValueRequired::Bool(x), ValueRequired::Bool(y)) => x == y,
        (ValueRequired::U8(x), ValueRequired::U8(y)) => x == y,
        (ValueRequired::I8(x), ValueRequired::I8(y)) => x == y,
        (ValueRequired::U16(x), ValueRequired::U16(y)) => x == y,
        (ValueRequired::I16(x), ValueRequired::I16(y)) => x == y,
        (ValueRequired::U32(x), ValueRequired::U32(y)) => x == y,
        (ValueRequired::I32(x), ValueRequired::I32(y)) => x == y,
        (ValueRequired::U64(x), ValueRequired::U64(y)) => x == y,
        (ValueRequired::I64(x), ValueRequired::I64(y)) => x == y,
        (ValueRequired::F32(x), ValueRequired::F32(y)) => f32_eq(x, y),
        (ValueRequired::F64(x), ValueRequired::F64(y)) => f64_eq(x, y),
        (ValueRequired::Date(x), ValueRequired::Date(y)) => x == y,
        (ValueRequired::DateWithoutTimezone(x), ValueRequired::DateWithoutTimezone(y)) => x == y,
        (ValueRequired::Time(x), ValueRequired::Time(y)) => x == y,
        (ValueRequired::TimeWithoutTimezone(x), ValueRequired::TimeWithoutTimezone(y)) => x == y,
        (ValueRequired::DateTime(x), ValueRequired::DateTime(y)) => x == y,
        (
            ValueRequired::DateTimeWithoutTimezone(x),
            ValueRequired::DateTimeWithoutTimezone(y),
        ) => x == y,
        (ValueRequired::Timezone(x), ValueRequired::Timezone(y)) => x == y,
        (ValueRequired::Decimal(x), ValueRequired::Decimal(y)) => x == y,
        (ValueRequired::ByteArray(x), ValueRequired::ByteArray(y)) => x@ == y@,
        (ValueRequired::Bson(x), ValueRequired::Bson(y)) => x.bytes@ == y.bytes@,
        (ValueRequired::String(x), ValueRequired::String(y)) => string_bytes(x) == string_bytes(
            y,
        ),
        (ValueRequired::Json(x), ValueRequired::Json(y)) => string_bytes(x.text) == string_bytes(
            y.text,
        ),
        (ValueRequired::Enum(x), ValueRequired::Enum(y)) => string_bytes(x.name) == string_bytes(
            y.name,
        ),
        (ValueRequired::Url(x), ValueRequired::Url(y)) => string_bytes(x.text) == string_bytes(
            y.text,
        ),
        (ValueRequired::Webpage(x), ValueRequired::Webpage(y)) => webpage_eq(x, y),
        (ValueRequired::IpAddr(x), ValueRequired::IpAddr(y)) => x == y,
        (ValueRequired::List(x), ValueRequired::List(y)) => vals_eq(x@, y@),
        (ValueRequired::Mapping(x), ValueRequired::Mapping(y)) => pairs_eq(x@, y@),
        (ValueRequired::Group(x), ValueRequired::Group(y)) => fields_eq(x.fields@, y.fields@),
        _ => false,
    }
}

/// Field-wise equality of two web pages.
pub open spec fn webpage_eq(a: Webpage, b: Webpage) -> bool {
    a.ip == b.ip && string_bytes(a.url.text) == string_bytes(b.url.text) && a.contents@
        == b.contents@
}

/// Structural equality of two values; the option arm is equal to another
/// option arm with an equal content.
pub open spec fn val_eq(a: Value, b: Value) -> bool
    decreases a,
{
    match (a, b) {
        (Value::Bool(x), Value::Bool(y)) => x == y,
        (Value::U8(x), Value::U8(y)) => x == y,
        (Value::I8(x), Value::I8(y)) => x == y,
        (Value::U16(x), Value::U16(y)) => x == y,
        (Value::I16(x), Value::I16(y)) => x == y,
        (Value::U32(x), Value::U32(y)) => x == y,
        (Value::I32(x), Value::I32(y)) => x == y,
        (Value::U64(x), Value::U64(y)) => x == y,
        (Value::I64(x), Value::I64(y)) => x == y,
        (Value::F32(x), Value::F32(y)) => f32_eq(x, y),
        (Value::F64(x), Value::F64(y)) => f64_eq(x, y),
        (Value::Date(x), Value::Date(y)) => x == y,
        (Value::DateWithoutTimezone(x), Value::DateWithoutTimezone(y)) => x == y,
        (Value::Time(x), Value::Time(y)) => x == y,
        (Value::TimeWithoutTimezone(x), Value::TimeWithoutTimezone(y)) => x == y,
        (Value::DateTime(x), Value::DateTime(y)) => x == y,
        (Value::DateTimeWithoutTimezone(x), Value::DateTimeWithoutTimezone(y)) => x == y,
        (Value::Timezone(x), Value::Timezone(y)) => x == y,
        (Value::Decimal(x), Value::Decimal(y)) => x == y,
        (Value::ByteArray(x), Value::ByteArray(y)) => x@ == y@,
        (Value::Bson(x), Value::Bson(y)) => x.bytes@ == y.bytes@,
        (Value::String(x), Value::String(y)) => string_bytes(x) == string_bytes(y),
        (Value::Json(x), Value::Json(y)) => string_bytes(x.text) == string_bytes(y.text),
        (Value::Enum(x), Value::Enum(y)) => string_bytes(x.name) == string_bytes(y.name),
        (Value::Url(x), Value::Url(y)) => string_bytes(x.text) == string_bytes(y.text),
        (Value::Webpage(x), Value::Webpage(y)) => webpage_eq(x, y),
        (Value::IpAddr(x), Value::IpAddr(y)) => x == y,
        (Value::List(x), Value::List(y)) => vals_eq(x@, y@),
        (Value::Mapping(x), Value::Mapping(y)) => pairs_eq(x@, y@),
        (Value::Group(x), Value::Group(y)) => fields_eq(x.fields@, y.fields@),
        (Value::Option(x), Value::Option(y)) => match (x, y) {
            (Some(vx), Some(vy)) => vr_eq(vx, vy),
            (None, None) => true,
            _ => false,
        },
        _ => false,
    }
}

/// Element-wise equality of two value sequences.
pub open spec fn vals_eq(a: Seq<Value>, b: Seq<Value>) -> bool
    decreases a,
{
    a.len() == b.len() && (a.len() == 0 || (val_eq(a[0], b[0]) && vals_eq(
        a.skip(1),
        b.skip(1),
    )))
}

/// Pair-wise equality of two key-value sequences.
pub open spec fn pairs_eq(a: Seq<(Value, Value)>, b: Seq<(Value, Value)>) -> bool
    decreases a,
{
    a.len() == b.len() && (a.len() == 0 || (val_eq(a[0].0, b[0].0) && val_eq(a[0].1, b[0].1)
        && pairs_eq(a.skip(1), b.skip(1))))
}

/// Field-wise equality of two named-field sequences: equal names and
/// equal values, in the same order.
pub open spec fn fields_eq(a: Seq<(String, Value)>, b: Seq<(String, Value)>) -> bool
    decreases a,
{
    a.len() == b.len() && (a.len() == 0 || (string_bytes(a[0].0) == string_bytes(b[0].0)
        && val_eq(a[0].1, b[0].1) && fields_eq(a.skip(1), b.skip(1))))
}

impl ValueRequired {
    /// Decide structural equality with another required value.
    pub fn value_eq(&self, other: &ValueRequired) -> (r: bool)
        ensures
            r == vr_eq(*self, *other),
        decreases *self,
    {
        match (self, other) {
            (ValueRequired::Bool(x), ValueRequired::Bool(y)) => x == y,
            (ValueRequired::U8(x), ValueRequired::U8(y)) => x == y,
            (ValueRequired::I8(x), ValueRequired::I8(y)) => x == y,
            (ValueRequired::U16(x), ValueRequired::U16(y)) => x == y,
            (ValueRequired::I16(x), ValueRequired::I16(y)) => x == y,
            (ValueRequired::U32(x), ValueRequired::U32(y)) => x == y,
            (ValueRequired::I32(x), ValueRequired::I32(y)) => x == y,
            (ValueRequired::U64(x), ValueRequired::U64(y)) => x == y,
            (ValueRequired::I64(x), ValueRequired::I64(y)) => x == y,
            (ValueRequired::F32(x), ValueRequired::F32(y)) => f32_bits_eq(*x, *y),
            (ValueRequired::F64(x), ValueRequired::F64(y)) => f64_bits_eq(*x, *y),
            (ValueRequired::Date(x), ValueRequired::Date(y)) => x == y,
            (
                ValueRequired::DateWithoutTimezone(x),
                ValueRequired::DateWithoutTimezone(y),
            ) => x == y,
            (ValueRequired::Time(x), ValueRequired::Time(y)) => x == y,
            (
                ValueRequired::TimeWithoutTimezone(x),
                ValueRequired::TimeWithoutTimezone(y),
            ) => x == y,
            (ValueRequired::DateTime(x), ValueRequired::DateTime(y)) => x == y,
            (
                ValueRequired::DateTimeWithoutTimezone(x),
                ValueRequired::DateTimeWithoutTimezone(y),
            ) => x == y,
            (ValueRequired::Timezone(x), ValueRequired::Timezone(y)) => x == y,
            (ValueRequired::Decimal(x), ValueRequired::Decimal(y)) => x == y,
            (ValueRequired::ByteArray(x), ValueRequired::ByteArray(y)) => bytes_eq(
                x.as_slice(),
                y.as_slice(),
            ),
            (ValueRequired::Bson(x), ValueRequired::Bson(y)) => bytes_eq(
                x.bytes.as_slice(),
                y.bytes.as_slice(),
            ),
            (ValueRequired::String(x), ValueRequired::String(y)) => str_bytes_eq(
                x.as_str(),
                y.as_str(),
            ),
            (ValueRequired::Json(x), ValueRequired::Json(y)) => str_bytes_eq(
                x.text.as_str(),
                y.text.as_str(),
            ),
            (ValueRequired::Enum(x), ValueRequired::Enum(y)) => str_bytes_eq(
                x.name.as_str(),
                y.name.as_str(),
            ),
            (ValueRequired::Url(x), ValueRequired::Url(y)) => str_bytes_eq(
                x.text.as_str(),
                y.text.as_str(),
            ),
            (ValueRequired::Webpage(x), ValueRequired::Webpage(y)) => webpage_eq_exec(x, y),
            (ValueRequired::IpAddr(x), ValueRequired::IpAddr(y)) => x == y,
            (ValueRequired::List(x), ValueRequired::List(y)) => vals_eq_exec(x, y),
            (ValueRequired::Mapping(x), ValueRequired::Mapping(y)) => pairs_eq_exec(x, y),
            (ValueRequired::Group(x), ValueRequired::Group(y)) => fields_eq_exec(
                &x.fields,
                &y.fields,
            ),
            _ => false,
        }
    }
}

impl Value {
    /// Decide structural equality with another value.
    pub fn value_eq(&self, other: &Value) -> (r: bool)
        ensures
            r == val_eq(*self, *other),
        decreases *self,
    {
        match (self, other) {
            (Value::Bool(x), Value::Bool(y)) => x == y,
            (Value::U8(x), Value::U8(y)) => x == y,
            (Value::I8(x), Value::I8(y)) => x == y,
            (Value::U16(x), Value::U16(y)) => x == y,
            (Value::I16(x), Value::I16(y)) => x == y,
            (Value::U32(x), Value::U32(y)) => x == y,
            (Value::I32(x), Value::I32(y)) => x == y,
            (Value::U64(x), Value::U64(y)) => x == y,
            (Value::I64(x), Value::I64(y)) => x == y,
            (Value::F32(x), Value::F32(y)) => f32_bits_eq(*x, *y),
            (Value::F64(x), Value::F64(y)) => f64_bits_eq(*x, *y),
            (Value::Date(x), Value::Date(y)) => x == y,
            (Value::DateWithoutTimezone(x), Value::DateWithoutTimezone(y)) => x == y,
            (Value::Time(x), Value::Time(y)) => x == y,
            (Value::TimeWithoutTimezone(x), Value::TimeWithoutTimezone(y)) => x == y,
            (Value::DateTime(x), Value::DateTime(y)) => x == y,
            (Value::DateTimeWithoutTimezone(x), Value::DateTimeWithoutTimezone(y)) => x == y,
            (Value::Timezone(x), Value::Timezone(y)) => x == y,
            (Value::Decimal(x), Value::Decimal(y)) => x == y,
            (Value::ByteArray(x), Value::ByteArray(y)) => bytes_eq(x.as_slice(), y.as_slice()),
            (Value::Bson(x), Value::Bson(y)) => bytes_eq(x.bytes.as_slice(), y.bytes.as_slice()),
            (Value::String(x), Value::String(y)) => str_bytes_eq(x.as_str(), y.as_str()),
            (Value::Json(x), Value::Json(y)) => str_bytes_eq(x.text.as_str(), y.text.as_str()),
            (Value::Enum(x), Value::Enum(y)) => str_bytes_eq(x.name.as_str(), y.name.as_str()),
            (Value::Url(x), Value::Url(y)) => str_bytes_eq(x.text.as_str(), y.text.as_str()),
            (Value::Webpage(x), Value::Webpage(y)) => webpage_eq_exec(x, y),
            (Value::IpAddr(x), Value::IpAddr(y)) => x == y,
            (Value::List(x), Value::List(y)) => vals_eq_exec(x, y),
            (Value::Mapping(x), Value::Mapping(y)) => pairs_eq_exec(x, y),
            (Value::Group(x), Value::Group(y)) => fields_eq_exec(&x.fields, &y.fields),
            (Value::Option(x), Value::Option(y)) => match (x, y) {
                (Some(vx), Some(vy)) => vx.value_eq(vy),
                (None, None) => true,
                _ => false,
            },
            _ => false,
        }
    }
}

/// Decide field-wise equality of two web pages.
fn webpage_eq_exec(a: &Webpage, b: &Webpage) -> (r: bool)
    ensures
        r == webpage_eq(*a, *b),
{
    if a.ip == b.ip {
        if str_bytes_eq(a.url.text.as_str(), b.url.text.as_str()) {
            bytes_eq(a.contents.as_slice(), b.contents.as_slice())
        } else {
            false
        }
    } else {
        false
    }
}

/// Decide element-wise equality of two value vectors.
fn vals_eq_exec(a: &Vec<Value>, b: &Vec<Value>) -> (r: bool)
    ensures
        r == vals_eq(a@, b@),
    decreases a@,
{
    if a.len() != b.len() {
        return false;
    }
    let n = a.len();
    let mut i: usize = 0;
    proof {
        assert(a@.skip(0) =~= a@);
        assert(b@.skip(0) =~= b@);
    }
    loop
        invariant
            i <= n,
            n == a@.len(),
            n == b@.len(),
            vals_eq(a@, b@) == vals_eq(a@.skip(i as int), b@.skip(i as int)),
        decreases n - i,
    {
        if i == n {
            return true;
        }
        let eq = a[i].value_eq(&b[i]);
        proof {
            assert(a@.skip(i as int)[0] == a@[i as int]);
            assert(b@.skip(i as int)[0] == b@[i as int]);
            assert(a@.skip(i as int).skip(1) =~= a@.skip(i + 1));
            assert(b@.skip(i as int).skip(1) =~= b@.skip(i + 1));
        }
        if !eq {
            return false;
        }
        i = i + 1;
    }
}

/// Decide pair-wise equality of two key-value vectors.
fn pairs_eq_exec(a: &Vec<(Value, Value)>, b: &Vec<(Value, Value)>) -> (r: bool)
    ensures
        r == pairs_eq(a@, b@),
    decreases a@,
{
    if a.len() != b.len() {
        return false;
    }
    let n = a.len();
    let mut i: usize = 0;
    proof {
        assert(a@.skip(0) =~= a@);
        assert(b@.skip(0) =~= b@);
    }
    loop
        invariant
            i <= n,
            n == a@.len(),
            n == b@.len(),
            pairs_eq(a@, b@) == pairs_eq(a@.skip(i as int), b@.skip(i as int)),
        decreases n - i,
    {
        if i == n {
            return true;
        }
        let key_eq = a[i].0.value_eq(&b[i].0);
        let val_equal = if key_eq {
            a[i].1.value_eq(&b[i].1)
        } else {
            false
        };
        proof {
            assert(a@.skip(i as int)[0] == a@[i as int]);
            assert(b@.skip(i as int)[0] == b@[i as int]);
            assert(a@.skip(i as int).skip(1) =~= a@.skip(i + 1));
            assert(b@.skip(i as int).skip(1) =~= b@.skip(i + 1));
        }
        if !(key_eq && val_equal) {
            return false;
        }
        i = i + 1;
    }
}

/// Decide field-wise equality of two named-field vectors.
fn fields_eq_exec(a: &Vec<(String, Value)>, b: &Vec<(String, Value)>) -> (r: bool)
    ensures
        r == fields_eq(a@, b@),
    decreases a@,
{
    if a.len() != b.len() {
        return false;
    }
    let n = a.len();
    let mut i: usize = 0;
    proof {
        assert(a@.skip(0) =~= a@);
        assert(b@.skip(0) =~= b@);
    }
    loop
        invariant
            i <= n,
            n == a@.len(),
            n == b@.len(),
            fields_eq(a@, b@) == fields_eq(a@.skip(i as int), b@.skip(i as int)),
        decreases n - i,
    {
        if i == n {
            return true;
        }
        let name_eq = str_bytes_eq(a[i].0.as_str(), b[i].0.as_str());
        let val_equal = if name_eq {
            a[i].1.value_eq(&b[i].1)
        } else {
            false
        };
        proof {
            assert(a@.skip(i as int)[0] == a@[i as int]);
            assert(b@.skip(i as int)[0] == b@[i as int]);
            assert(a@.skip(i as int).skip(1) =~= a@.skip(i + 1));
            assert(b@.skip(i as int).skip(1) =~= b@.skip(i + 1));
        }
        if !(name_eq && val_equal) {
            return false;
        }
        i = i + 1;
    }
}

/// The value that a required value lifts to: the same arm with the same
/// payload.
pub open spec fn vr_to_value(v: ValueRequired) -> Value {
    match v {
        ValueRequired::Bool(x) => Value::Bool(x),
        ValueRequired::U8(x) => Value::U8(x),
        ValueRequired::I8(x) => Value::I8(x),
        ValueRequired::U16(x) => Value::U16(x),
        ValueRequired::I16(x) => Value::I16(x),
        ValueRequired::U32(x) => Value::U32(x),
        ValueRequired::I32(x) => Value::I32(x),
        ValueRequired::U64(x) => Value::U64(x),
        ValueRequired::I64(x) => Value::I64(x),
        ValueRequired::F32(x) => Value::F32(x),
        ValueRequired::F64(x) => Value::F64(x),
        ValueRequired::Date(x) => Value::Date(x),
        ValueRequired::DateWithoutTimezone(x) => Value::DateWithoutTimezone(x),
        ValueRequired::Time(x) => Value::Time(x),
        ValueRequired::TimeWithoutTimezone(x) => Value::TimeWithoutTimezone(x),
        ValueRequired::DateTime(x) => Value::DateTime(x),
        ValueRequired::DateTimeWithoutTimezone(x) => Value::DateTimeWithoutTimezone(x),
        ValueRequired::Timezone(x) => Value::Timezone(x),
        ValueRequired::Decimal(x) => Value::Decimal(x),
        ValueRequired::ByteArray(x) => Value::ByteArray(x),
        ValueRequired::Bson(x) => Value::Bson(x),
        ValueRequired::String(x) => Value::String(x),
        ValueRequired::Json(x) => Value::Json(x),
        ValueRequired::Enum(x) => Value::Enum(x),
        ValueRequired::Url(x) => Value::Url(x),
        ValueRequired::Webpage(x) => Value::Webpage(x),
        ValueRequired::IpAddr(x) => Value::IpAddr(x),
        ValueRequired::List(x) => Value::List(x),
        ValueRequired::Mapping(x) => Value::Mapping(x),
        ValueRequired::Group(x) => Value::Group(x),
    }
}

/// The required value inside a value: absent exactly when the value is
/// the empty option arm; the full option arm yields its content, and any
/// other arm yields the matching required variant.
pub open spec fn value_to_required(v: Value) -> Option<ValueRequired> {
    match v {
        Value::Bool(x) => Some(ValueRequired::Bool(x)),
        Value::U8(x) => Some(ValueRequired::U8(x)),
        Value::I8(x) => Some(ValueRequired::I8(x)),
        Value::U16(x) => Some(ValueRequired::U16(x)),
        Value::I16(x) => Some(ValueRequired::I16(x)),
        Value::U32(x) => Some(ValueRequired::U32(x)),
        Value::I32(x) => Some(ValueRequired::I32(x)),
        Value::U64(x) => Some(ValueRequired::U64(x)),
        Value::I64(x) => Some(ValueRequired::I64(x)),
        Value::F32(x) => Some(ValueRequired::F32(x)),
        Value::F64(x) => Some(ValueRequired::F64(x)),
        Value::Date(x) => Some(ValueRequired::Date(x)),
        Value::DateWithoutTimezone(x) => Some(ValueRequired::DateWithoutTimezone(x)),
        Value::Time(x) => Some(ValueRequired::Time(x)),
        Value::TimeWithoutTimezone(x) => Some(ValueRequired::TimeWithoutTimezone(x)),
        Value::DateTime(x) => Some(ValueRequired::DateTime(x)),
        Value::DateTimeWithoutTimezone(x) => Some(ValueRequired::DateTimeWithoutTimezone(x)),
        Value::Timezone(x) => Some(ValueRequired::Timezone(x)),
        Value::Decimal(x) => Some(ValueRequired::Decimal(x)),
        Value::ByteArray(x) => Some(ValueRequired::ByteArray(x)),
        Value::Bson(x) => Some(ValueRequired::Bson(x)),
        Value::String(x) => Some(ValueRequired::String(x)),
        Value::Json(x) => Some(ValueRequired::Json(x)),
        Value::Enum(x) => Some(ValueRequired::Enum(x)),
        Value::Url(x) => Some(ValueRequired::Url(x)),
        Value::Webpage(x) => Some(ValueRequired::Webpage(x)),
        Value::IpAddr(x) => Some(ValueRequired::IpAddr(x)),
        Value::List(x) => Some(ValueRequired::List(x)),
        Value::Mapping(x) => Some(ValueRequired::Mapping(x)),
        Value::Group(x) => Some(ValueRequired::Group(x)),
        Value::Option(x) => x,
    }
}

impl From<ValueRequired> for Value {
    /// Lift a required value losslessly into the value sum.
    fn from(value: ValueRequired) -> (r: Self) {
        match value {
            ValueRequired::Bool(x) => Value::Bool(x),
            ValueRequired::U8(x) => Value::U8(x),
            ValueRequired::I8(x) => Value::I8(x),
            ValueRequired::U16(x) => Value::U16(x),
            ValueRequired::I16(x) => Value::I16(x),
            ValueRequired::U32(x) => Value::U32(x),
            ValueRequired::I32(x) => Value::I32(x),
            ValueRequired::U64(x) => Value::U64(x),
            ValueRequired::I64(x) => Value::I64(x),
            ValueRequired::F32(x) => Value::F32(x),
            ValueRequired::F64(x) => Value::F64(x),
            ValueRequired::Date(x) => Value::Date(x),
            ValueRequired::DateWithoutTimezone(x) => Value::DateWithoutTimezone(x),
            ValueRequired::Time(x) => Value::Time(x),
            ValueRequired::TimeWithoutTimezone(x) => Value::TimeWithoutTimezone(x),
            ValueRequired::DateTime(x) => Value::DateTime(x),
            ValueRequired::DateTimeWithoutTimezone(x) => Value::DateTimeWithoutTimezone(x),
            ValueRequired::Timezone(x) => Value::Timezone(x),
            ValueRequired::Decimal(x) => Value::Decimal(x),
            ValueRequired::ByteArray(x) => Value::ByteArray(x),
            ValueRequired::Bson(x) => Value::Bson(x),
            ValueRequired::String(x) => Value::String(x),
            ValueRequired::Json(x) => Value::Json(x),
            ValueRequired::Enum(x) => Value::Enum(x),
            ValueRequired::Url(x) => Value::Url(x),
            ValueRequired::Webpage(x) => Value::Webpage(x),
            ValueRequired::IpAddr(x) => Value::IpAddr(x),
            ValueRequired::List(x) => Value::List(x),
            ValueRequired::Mapping(x) => Value::Mapping(x),
            ValueRequired::Group(x) => Value::Group(x),
        }
    }
}

impl vstd::std_specs::convert::FromSpecImpl<ValueRequired> for Value {
    open spec fn obeys_from_spec() -> bool {
        true
    }

    open spec fn from_spec(v: ValueRequired) -> Self {
        vr_to_value(v)
    }
}

impl From<Value> for Option<ValueRequired> {
    /// Unwrap a value to its required core: `None` exactly for the empty
    /// option arm.
    fn from(value: Value) -> (r: Self) {
        match value {
            Value::Bool(x) => Some(ValueRequired::Bool(x)),
            Value::U8(x) => Some(ValueRequired::U8(x)),
            Value::I8(x) => Some(ValueRequired::I8(x)),
            Value::U16(x) => Some(ValueRequired::U16(x)),
            Value::I16(x) => Some(ValueRequired::I16(x)),
            Value::U32(x) => Some(ValueRequired::U32(x)),
            Value::I32(x) => Some(ValueRequired::I32(x)),
            Value::U64(x) => Some(ValueRequired::U64(x)),
            Value::I64(x) => Some(ValueRequired::I64(x)),
            Value::F32(x) => Some(ValueRequired::F32(x)),
            Value::F64(x) => Some(ValueRequired::F64(x)),
            Value::Date(x) => Some(ValueRequired::Date(x)),
            Value::DateWithoutTimezone(x) => Some(ValueRequired::DateWithoutTimezone(x)),
            Value::Time(x) => Some(ValueRequired::Time(x)),
            Value::TimeWithoutTimezone(x) => Some(ValueRequired::TimeWithoutTimezone(x)),
            Value::DateTime(x) => Some(ValueRequired::DateTime(x)),
            Value::DateTimeWithoutTimezone(x) => Some(ValueRequired::DateTimeWithoutTimezone(x)),
            Value::Timezone(x) => Some(ValueRequired::Timezone(x)),
            Value::Decimal(x) => Some(ValueRequired::Decimal(x)),
            Value::ByteArray(x) => Some(ValueRequired::ByteArray(x)),
            Value::Bson(x) => Some(ValueRequired::Bson(x)),
            Value::String(x) => Some(ValueRequired::String(x)),
            Value::Json(x) => Some(ValueRequired::Json(x)),
            Value::Enum(x) => Some(ValueRequired::Enum(x)),
            Value::Url(x) => Some(ValueRequired::Url(x)),
            Value::Webpage(x) => Some(ValueRequired::Webpage(x)),
            Value::IpAddr(x) => Some(ValueRequired::IpAddr(x)),
            Value::List(x) => Some(ValueRequired::List(x)),
            Value::Mapping(x) => Some(ValueRequired::Mapping(x)),
            Value::Group(x) => Some(ValueRequired::Group(x)),
            Value::Option(x) => x,
        }
    }
}

impl vstd::std_specs::convert::FromSpecImpl<Value> for Option<ValueRequired> {
    open spec fn obeys_from_spec() -> bool {
        true
    }

    open spec fn from_spec(v: Value) -> Self {
        value_to_required(v)
    }
}

/// A required value lifts losslessly: unwrapping the lifted value gives
/// it back.
pub proof fn lemma_lift_then_unwrap(v: ValueRequired)
    ensures
        value_to_required(vr_to_value(v)) == Some(v),
{
}

/// Unwrapping and lifting round-trips every value that is not an option
/// arm, and the empty option arm unwraps to nothing.
pub proof fn lemma_unwrap_then_lift(v: Value)
    ensures
        !(v is Option) ==> (match value_to_required(v) {
            Some(r) => vr_to_value(r) == v,
            None => false,
        }),
        v == Value::Option(None::<ValueRequired>) ==> value_to_required(v) is None,
{
}

/// The first order unless it is a tie, else the second.
pub open spec fn pair_ordering(first: Ordering, second: Ordering) -> Ordering {
    if first != Ordering::Equal {
        first
    } else {
        second
    }
}

/// The partial order of two required values. Same-arm payloads compare
/// in their natural order; floating-point arms have no order when either
/// side is a NaN; decimals have no order at different scales; key-value
/// mappings and values of different arms have no order.
pub open spec fn vr_cmp(a: ValueRequired, b: ValueRequired) -> Option<Ordering>
    decreases a,
{
    match (a, b) {
        (ValueRequired::Bool(x), ValueRequired::Bool(y)) => Some(bool_ordering(x, y)),
        (ValueRequired::U8(x), ValueRequired::U8(y)) => Some(int_ordering(x as int, y as int)),
        (ValueRequired::I8(x), ValueRequired::I8(y)) => Some(int_ordering(x as int, y as int)),
        (ValueRequired::U16(x), ValueRequired::U16(y)) => Some(int_ordering(x as int, y as int)),
        (ValueRequired::I16(x), ValueRequired::I16(y)) => Some(int_ordering(x as int, y as int)),
        (ValueRequired::U32(x), ValueRequired::U32(y)) => Some(int_ordering(x as int, y as int)),
        (ValueRequired::I32(x), ValueRequired::I32(y)) => Some(int_ordering(x as int, y as int)),
        (ValueRequired::U64(x), ValueRequired::U64(y)) => Some(int_ordering(x as int, y as int)),
        (ValueRequired::I64(x), ValueRequired::I64(y)) => Some(int_ordering(x as int, y as int)),
        (ValueRequired::F32(x), ValueRequired::F32(y)) => f32_cmp(x, y),
        (ValueRequired::F64(x), ValueRequired::F64(y)) => f64_cmp(x, y),
        (ValueRequired::Date(x), ValueRequired::Date(y)) => Some(date_ordering(x, y)),
        (ValueRequired::DateWithoutTimezone(x), ValueRequired::DateWithoutTimezone(y)) => Some(
            int_ordering(x.days as int, y.days as int),
        ),
        (ValueRequired::Time(x), ValueRequired::Time(y)) => Some(time_ordering(x, y)),
        (ValueRequired::TimeWithoutTimezone(x), ValueRequired::TimeWithoutTimezone(y)) => Some(
            int_ordering(x.micros as int, y.micros as int),
        ),
        (ValueRequired::DateTime(x), ValueRequired::DateTime(y)) => Some(date_time_ordering(x, y)),
        (
            ValueRequired::DateTimeWithoutTimezone(x),
            ValueRequired::DateTimeWithoutTimezone(y),
        ) => Some(int_ordering(x.millis as int, y.millis as int)),
        (ValueRequired::Timezone(x), ValueRequired::Timezone(y)) => Some(
            int_ordering(x.offset_seconds as int, y.offset_seconds as int),
        ),
        (ValueRequired::Decimal(x), ValueRequired::Decimal(y)) => if x.scale == y.scale {
            Some(int_ordering(x.unscaled as int, y.unscaled as int))
        } else {
            None
        },
        (ValueRequired::ByteArray(x), ValueRequired::ByteArray(y)) => Some(bytes_cmp_spec(x@, y@)),
        (ValueRequired::Bson(x), ValueRequired::Bson(y)) => Some(
            bytes_cmp_spec(x.bytes@, y.bytes@),
        ),
        (ValueRequired::String(x), ValueRequired::String(y)) => Some(
            bytes_cmp_spec(string_bytes(x), string_bytes(y)),
        ),
        (ValueRequired::Json(x), ValueRequired::Json(y)) => Some(
            bytes_cmp_spec(string_bytes(x.text), string_bytes(y.text)),
        ),
        (ValueRequired::Enum(x), ValueRequired::Enum(y)) => Some(
            bytes_cmp_spec(string_bytes(x.name), string_bytes(y.name)),
        ),
        (ValueRequired::Url(x), ValueRequired::Url(y)) => Some(url_cmp_spec(x, y)),
        (ValueRequired::Webpage(x), ValueRequired::Webpage(y)) => Some(webpage_cmp_spec(x, y)),
        (ValueRequired::IpAddr(x), ValueRequired::IpAddr(y)) => Some(ip_cmp_spec(x, y)),
        (ValueRequired::List(x), ValueRequired::List(y)) => vals_cmp(x@, y@),
        (ValueRequired::Mapping(_x), ValueRequired::Mapping(_y)) => None,
        (ValueRequired::Group(x), ValueRequired::Group(y)) => fields_cmp(x.fields@, y.fields@),
        _ => None,
    }
}

/// The partial order of two values: as for required values, with the
/// option arm ordered as none-first, and contents compared recursively.
pub open spec fn val_cmp(a: Value, b: Value) -> Option<Ordering>
    decreases a,
{
    match (a, b) {
        (Value::Bool(x), Value::Bool(y)) => Some(bool_ordering(x, y)),
        (Value::U8(x), Value::U8(y)) => Some(int_ordering(x as int, y as int)),
        (Value::I8(x), Value::I8(y)) => Some(int_ordering(x as int, y as int)),
        (Value::U16(x), Value::U16(y)) => Some(int_ordering(x as int, y as int)),
        (Value::I16(x), Value::I16(y)) => Some(int_ordering(x as int, y as int)),
        (Value::U32(x), Value::U32(y)) => Some(int_ordering(x as int, y as int)),
        (Value::I32(x), Value::I32(y)) => Some(int_ordering(x as int, y as int)),
        (Value::U64(x), Value::U64(y)) => Some(int_ordering(x as int, y as int)),
        (Value::I64(x), Value::I64(y)) => Some(int_ordering(x as int, y as int)),
        (Value::F32(x), Value::F32(y)) => f32_cmp(x, y),
        (Value::F64(x), Value::F64(y)) => f64_cmp(x, y),
        (Value::Date(x), Value::Date(y)) => Some(date_ordering(x, y)),
        (Value::DateWithoutTimezone(x), Value::DateWithoutTimezone(y)) => Some(
            int_ordering(x.days as int, y.days as int),
        ),
        (Value::Time(x), Value::Time(y)) => Some(time_ordering(x, y)),
        (Value::TimeWithoutTimezone(x), Value::TimeWithoutTimezone(y)) => Some(
            int_ordering(x.micros as int, y.micros as int),
        ),
        (Value::DateTime(x), Value::DateTime(y)) => Some(date_time_ordering(x, y)),
        (Value::DateTimeWithoutTimezone(x), Value::DateTimeWithoutTimezone(y)) => Some(
            int_ordering(x.millis as int, y.millis as int),
        ),
        (Value::Timezone(x), Value::Timezone(y)) => Some(
            int_ordering(x.offset_seconds as int, y.offset_seconds as int),
        ),
        (Value::Decimal(x), Value::Decimal(y)) => if x.scale == y.scale {
            Some(int_ordering(x.unscaled as int, y.unscaled as int))
        } else {
            None
        },
        (Value::ByteArray(x), Value::ByteArray(y)) => Some(bytes_cmp_spec(x@, y@)),
        (Value::Bson(x), Value::Bson(y)) => Some(bytes_cmp_spec(x.bytes@, y.bytes@)),
        (Value::String(x), Value::String(y)) => Some(
            bytes_cmp_spec(string_bytes(x), string_bytes(y)),
        ),
        (Value::Json(x), Value::Json(y)) => Some(
            bytes_cmp_spec(string_bytes(x.text), string_bytes(y.text)),
        ),
        (Value::Enum(x), Value::Enum(y)) => Some(
            bytes_cmp_spec(string_bytes(x.name), string_bytes(y.name)),
        ),
        (Value::Url(x), Value::Url(y)) => Some(url_cmp_spec(x, y)),
        (Value::Webpage(x), Value::Webpage(y)) => Some(webpage_cmp_spec(x, y)),
        (Value::IpAddr(x), Value::IpAddr(y)) => Some(ip_cmp_spec(x, y)),
        (Value::List(x), Value::List(y)) => vals_cmp(x@, y@),
        (Value::Mapping(_x), Value::Mapping(_y)) => None,
        (Value::Group(x), Value::Group(y)) => fields_cmp(x.fields@, y.fields@),
        (Value::Option(x), Value::Option(y)) => match (x, y) {
            (Some(vx), Some(vy)) => vr_cmp(vx, vy),
            (None, None) => Some(Ordering::Equal),
            (None, Some(_)) => Some(Ordering::Less),
            (Some(_), None) => Some(Ordering::Greater),
        },
        _ => None,
    }
}

/// The order of two booleans: false before true.
pub open spec fn bool_ordering(a: bool, b: bool) -> Ordering {
    if a == b {
        Ordering::Equal
    } else if !a {
        Ordering::Less
    } else {
        Ordering::Greater
    }
}

/// The order of two dates: by day, then by timezone offset.
pub open spec fn date_ordering(a: Date, b: Date) -> Ordering {
    pair_ordering(
        int_ordering(a.days as int, b.days as int),
        int_ordering(a.timezone.offset_seconds as int, b.timezone.offset_seconds as int),
    )
}

/// The order of two times of day: by microsecond, then by timezone
/// offset.
pub open spec fn time_ordering(a: Time, b: Time) -> Ordering {
    pair_ordering(
        int_ordering(a.micros as int, b.micros as int),
        int_ordering(a.timezone.offset_seconds as int, b.timezone.offset_seconds as int),
    )
}

/// The order of two instants: by millisecond, then by timezone offset.
pub open spec fn date_time_ordering(a: DateTime, b: DateTime) -> Ordering {
    pair_ordering(
        int_ordering(a.millis as int, b.millis as int),
        int_ordering(a.timezone.offset_seconds as int, b.timezone.offset_seconds as int),
    )
}

/// The lexicographic partial order of two value sequences: the first
/// unequal pair decides; on a tie of a whole prefix the shorter side
/// comes first; an unordered pair makes the sequences unordered.
pub open spec fn vals_cmp(a: Seq<Value>, b: Seq<Value>) -> Option<Ordering>
    decreases a,
{
    if a.len() == 0 && b.len() == 0 {
        Some(Ordering::Equal)
    } else if a.len() == 0 {
        Some(Ordering::Less)
    } else if b.len() == 0 {
        Some(Ordering::Greater)
    } else {
        match val_cmp(a[0], b[0]) {
            None => None,
            Some(Ordering::Equal) => vals_cmp(a.skip(1), b.skip(1)),
            Some(o) => Some(o),
        }
    }
}

/// The lexicographic partial order of two named-field sequences: by
/// name, then by value, pair by pair.
pub open spec fn fields_cmp(a: Seq<(String, Value)>, b: Seq<(String, Value)>) -> Option<Ordering>
    decreases a,
{
    if a.len() == 0 && b.len() == 0 {
        Some(Ordering::Equal)
    } else if a.len() == 0 {
        Some(Ordering::Less)
    } else if b.len() == 0 {
        Some(Ordering::Greater)
    } else {
        if bytes_cmp_spec(string_bytes(a[0].0), string_bytes(b[0].0)) != Ordering::Equal {
            Some(bytes_cmp_spec(string_bytes(a[0].0), string_bytes(b[0].0)))
        } else {
            match val_cmp(a[0].1, b[0].1) {
                None => None,
                Some(Ordering::Equal) => fields_cmp(a.skip(1), b.skip(1)),
                Some(o) => Some(o),
            }
        }
    }
}

/// Compare two signed 128-bit integers.
fn cmp_i128(a: i128, b: i128) -> (r: Ordering)
    ensures
        r == int_ordering(a as int, b as int),
{
    if a < b {
        Ordering::Less
    } else if a == b {
        Ordering::Equal
    } else {
        Ordering::Greater
    }
}

/// Compare two booleans, false before true.
fn cmp_bool(a: bool, b: bool) -> (r: Ordering)
    ensures
        r == bool_ordering(a, b),
{
    if a == b {
        Ordering::Equal
    } else if !a {
        Ordering::Less
    } else {
        Ordering::Greater
    }
}

/// Compare two dates: by day, then by timezone offset.
fn cmp_date(a: &Date, b: &Date) -> (r: Ordering)
    ensures
        r == date_ordering(*a, *b),
{
    let by_days = cmp_i128(a.days as i128, b.days as i128);
    match by_days {
        Ordering::Equal => cmp_i128(
            a.timezone.offset_seconds as i128,
            b.timezone.offset_seconds as i128,
        ),
        _ => by_days,
    }
}

/// Compare two times of day: by microsecond, then by timezone offset.
fn cmp_time(a: &Time, b: &Time) -> (r: Ordering)
    ensures
        r == time_ordering(*a, *b),
{
    let by_micros = cmp_i128(a.micros as i128, b.micros as i128);
    match by_micros {
        Ordering::Equal => cmp_i128(
            a.timezone.offset_seconds as i128,
            b.timezone.offset_seconds as i128,
        ),
        _ => by_micros,
    }
}

/// Compare two instants: by millisecond, then by timezone offset.
fn cmp_date_time(a: &DateTime, b: &DateTime) -> (r: Ordering)
    ensures
        r == date_time_ordering(*a, *b),
{
    let by_millis = cmp_i128(a.millis as i128, b.millis as i128);
    match by_millis {
        Ordering::Equal => cmp_i128(
            a.timezone.offset_seconds as i128,
            b.timezone.offset_seconds as i128,
        ),
        _ => by_millis,
    }
}

/// Compare two value vectors lexicographically.
fn vals_cmp_exec(a: &Vec<Value>, b: &Vec<Value>) -> (r: Option<Ordering>)
    ensures
        r == vals_cmp(a@, b@),
    decreases a@,
{
    let alen = a.len();
    let blen = b.len();
    let mut i: usize = 0;
    proof {
        assert(a@.skip(0) =~= a@);
        assert(b@.skip(0) =~= b@);
    }
    loop
        invariant
            i <= alen,
            i <= blen,
            alen == a@.len(),
            blen == b@.len(),
            vals_cmp(a@, b@) == vals_cmp(a@.skip(i as int), b@.skip(i as int)),
        decreases alen - i,
    {
        if i == alen && i == blen {
            return Some(Ordering::Equal);
        } else if i == alen {
            return Some(Ordering::Less);
        } else if i == blen {
            return Some(Ordering::Greater);
        }
        let by_elem = a[i].partial_cmp(&b[i]);
        proof {
            assert(a@.skip(i as int)[0] == a@[i as int]);
            assert(b@.skip(i as int)[0] == b@[i as int]);
            assert(a@.skip(i as int).skip(1) =~= a@.skip(i + 1));
            assert(b@.skip(i as int).skip(1) =~= b@.skip(i + 1));
        }
        match by_elem {
            None => {
                return None;
            },
            Some(Ordering::Equal) => {},
            Some(o) => {
                return Some(o);
            },
        }
        i = i + 1;
    }
}

/// Compare two named-field vectors lexicographically: by name, then by
/// value, pair by pair.
fn fields_cmp_exec(a: &Vec<(String, Value)>, b: &Vec<(String, Value)>) -> (r: Option<Ordering>)
    ensures
        r == fields_cmp(a@, b@),
    decreases a@,
{
    let alen = a.len();
    let blen = b.len();
    let mut i: usize = 0;
    proof {
        assert(a@.skip(0) =~= a@);
        assert(b@.skip(0) =~= b@);
    }
    loop
        invariant
            i <= alen,
            i <= blen,
            alen == a@.len(),
            blen == b@.len(),
            fields_cmp(a@, b@) == fields_cmp(a@.skip(i as int), b@.skip(i as int)),
        decreases alen - i,
    {
        if i == alen && i == blen {
            return Some(Ordering::Equal);
        } else if i == alen {
            return Some(Ordering::Less);
        } else if i == blen {
            return Some(Ordering::Greater);
        }
        let by_name = crate::bits::str_cmp(a[i].0.as_str(), b[i].0.as_str());
        proof {
            assert(a@.skip(i as int)[0] == a@[i as int]);
            assert(b@.skip(i as int)[0] == b@[i as int]);
            assert(a@.skip(i as int).skip(1) =~= a@.skip(i + 1));
            assert(b@.skip(i as int).skip(1) =~= b@.skip(i + 1));
        }
        match by_name {
            Ordering::Equal => {
                let by_val = a[i].1.partial_cmp(&b[i].1);
                match by_val {
                    None => {
                        return None;
                    },
                    Some(Ordering::Equal) => {},
                    Some(o) => {
                        return Some(o);
                    },
                }
            },
            o => {
                return Some(o);
            },
        }
        i = i + 1;
    }
}

impl ValueRequired {
    /// The partial order of this required value against another: payloads
    /// of the same arm compare in their natural order; NaN floats,
    /// differently scaled decimals, key-value mappings and values of
    /// different arms have no order.
    pub fn partial_cmp(&self, other: &ValueRequired) -> (r: Option<Ordering>)
        ensures
            r == vr_cmp(*self, *other),
        decreases *self,
    {
        match (self, other) {
            (ValueRequired::Bool(x), ValueRequired::Bool(y)) => Some(cmp_bool(*x, *y)),
            (ValueRequired::U8(x), ValueRequired::U8(y)) => Some(cmp_i128(*x as i128, *y as i128)),
            (ValueRequired::I8(x), ValueRequired::I8(y)) => Some(cmp_i128(*x as i128, *y as i128)),
            (ValueRequired::U16(x), ValueRequired::U16(y)) => Some(
                cmp_i128(*x as i128, *y as i128),
            ),
            (ValueRequired::I16(x), ValueRequired::I16(y)) => Some(
                cmp_i128(*x as i128, *y as i128),
            ),
            (ValueRequired::U32(x), ValueRequired::U32(y)) => Some(
                cmp_i128(*x as i128, *y as i128),
            ),
            (ValueRequired::I32(x), ValueRequired::I32(y)) => Some(
                cmp_i128(*x as i128, *y as i128),
            ),
            (ValueRequired::U64(x), ValueRequired::U64(y)) => Some(
                cmp_i128(*x as i128, *y as i128),
            ),
            (ValueRequired::I64(x), ValueRequired::I64(y)) => Some(
                cmp_i128(*x as i128, *y as i128),
            ),
            (ValueRequired::F32(x), ValueRequired::F32(y)) => f32_bits_cmp(*x, *y),
            (ValueRequired::F64(x), ValueRequired::F64(y)) => f64_bits_cmp(*x, *y),
            (ValueRequired::Date(x), ValueRequired::Date(y)) => Some(cmp_date(x, y)),
            (
                ValueRequired::DateWithoutTimezone(x),
                ValueRequired::DateWithoutTimezone(y),
            ) => Some(cmp_i128(x.days as i128, y.days as i128)),
            (ValueRequired::Time(x), ValueRequired::Time(y)) => Some(cmp_time(x, y)),
            (
                ValueRequired::TimeWithoutTimezone(x),
                ValueRequired::TimeWithoutTimezone(y),
            ) => Some(cmp_i128(x.micros as i128, y.micros as i128)),
            (ValueRequired::DateTime(x), ValueRequired::DateTime(y)) => Some(cmp_date_time(x, y)),
            (
                ValueRequired::DateTimeWithoutTimezone(x),
                ValueRequired::DateTimeWithoutTimezone(y),
            ) => Some(cmp_i128(x.millis as i128, y.millis as i128)),
            (ValueRequired::Timezone(x), ValueRequired::Timezone(y)) => Some(
                cmp_i128(x.offset_seconds as i128, y.offset_seconds as i128),
            ),
            (ValueRequired::Decimal(x), ValueRequired::Decimal(y)) => if x.scale == y.scale {
                Some(cmp_i128(x.unscaled, y.unscaled))
            } else {
                None
            },
            (ValueRequired::ByteArray(x), ValueRequired::ByteArray(y)) => Some(
                crate::bits::bytes_cmp(x.as_slice(), y.as_slice()),
            ),
            (ValueRequired::Bson(x), ValueRequired::Bson(y)) => Some(
                crate::bits::bytes_cmp(x.bytes.as_slice(), y.bytes.as_slice()),
            ),
            (ValueRequired::String(x), ValueRequired::String(y)) => Some(
                crate::bits::str_cmp(x.as_str(), y.as_str()),
            ),
            (ValueRequired::Json(x), ValueRequired::Json(y)) => Some(
                crate::bits::str_cmp(x.text.as_str(), y.text.as_str()),
            ),
            (ValueRequired::Enum(x), ValueRequired::Enum(y)) => Some(
                crate::bits::str_cmp(x.name.as_str(), y.name.as_str()),
            ),
            (ValueRequired::Url(x), ValueRequired::Url(y)) => Some(x.amadeus_cmp(y)),
            (ValueRequired::Webpage(x), ValueRequired::Webpage(y)) => Some(x.amadeus_cmp(y)),
            (ValueRequired::IpAddr(x), ValueRequired::IpAddr(y)) => Some(
                crate::types::ip_cmp(x, y),
            ),
            (ValueRequired::List(x), ValueRequired::List(y)) => vals_cmp_exec(x, y),
            (ValueRequired::Mapping(_x), ValueRequired::Mapping(_y)) => None,
            (ValueRequired::Group(x), ValueRequired::Group(y)) => fields_cmp_exec(
                &x.fields,
                &y.fields,
            ),
            _ => None,
        }
    }
}

impl Value {
    /// The partial order of this value against another: as for required
    /// values, with the option arm ordered none-first.
    pub fn partial_cmp(&self, other: &Value) -> (r: Option<Ordering>)
        ensures
            r == val_cmp(*self, *other),
        decreases *self,
    {
        match (self, other) {
            (Value::Bool(x), Value::Bool(y)) => Some(cmp_bool(*x, *y)),
            (Value::U8(x), Value::U8(y)) => Some(cmp_i128(*x as i128, *y as i128)),
            (Value::I8(x), Value::I8(y)) => Some(cmp_i128(*x as i128, *y as i128)),
            (Value::U16(x), Value::U16(y)) => Some(cmp_i128(*x as i128, *y as i128)),
            (Value::I16(x), Value::I16(y)) => Some(cmp_i128(*x as i128, *y as i128)),
            (Value::U32(x), Value::U32(y)) => Some(cmp_i128(*x as i128, *y as i128)),
            (Value::I32(x), Value::I32(y)) => Some(cmp_i128(*x as i128, *y as i128)),
            (Value::U64(x), Value::U64(y)) => Some(cmp_i128(*x as i128, *y as i128)),
            (Value::I64(x), Value::I64(y)) => Some(cmp_i128(*x as i128, *y as i128)),
            (Value::F32(x), Value::F32(y)) => f32_bits_cmp(*x, *y),
            (Value::F64(x), Value::F64(y)) => f64_bits_cmp(*x, *y),
            (Value::Date(x), Value::Date(y)) => Some(cmp_date(x, y)),
            (Value::DateWithoutTimezone(x), Value::DateWithoutTimezone(y)) => Some(
                cmp_i128(x.days as i128, y.days as i128),
            ),
            (Value::Time(x), Value::Time(y)) => Some(cmp_time(x, y)),
            (Value::TimeWithoutTimezone(x), Value::TimeWithoutTimezone(y)) => Some(
                cmp_i128(x.micros as i128, y.micros as i128),
            ),
            (Value::DateTime(x), Value::DateTime(y)) => Some(cmp_date_time(x, y)),
            (Value::DateTimeWithoutTimezone(x), Value::DateTimeWithoutTimezone(y)) => Some(
                cmp_i128(x.millis as i128, y.millis as i128),
            ),
            (Value::Timezone(x), Value::Timezone(y)) => Some(
                cmp_i128(x.offset_seconds as i128, y.offset_seconds as i128),
            ),
            (Value::Decimal(x), Value::Decimal(y)) => if x.scale == y.scale {
                Some(cmp_i128(x.unscaled, y.unscaled))
            } else {
                None
            },
            (Value::ByteArray(x), Value::ByteArray(y)) => Some(
                crate::bits::bytes_cmp(x.as_slice(), y.as_slice()),
            ),
            (Value::Bson(x), Value::Bson(y)) => Some(
                crate::bits::bytes_cmp(x.bytes.as_slice(), y.bytes.as_slice()),
            ),
            (Value::String(x), Value::String(y)) => Some(
                crate::bits::str_cmp(x.as_str(), y.as_str()),
            ),
            (Value::Json(x), Value::Json(y)) => Some(
                crate::bits::str_cmp(x.text.as_str(), y.text.as_str()),
            ),
            (Value::Enum(x), Value::Enum(y)) => Some(
                crate::bits::str_cmp(x.name.as_str(), y.name.as_str()),
            ),
            (Value::Url(x), Value::Url(y)) => Some(x.amadeus_cmp(y)),
            (Value::Webpage(x), Value::Webpage(y)) => Some(x.amadeus_cmp(y)),
            (Value::IpAddr(x), Value::IpAddr(y)) => Some(crate::types::ip_cmp(x, y)),
            (Value::List(x), Value::List(y)) => vals_cmp_exec(x, y),
            (Value::Mapping(_x), Value::Mapping(_y)) => None,
            (Value::Group(x), Value::Group(y)) => fields_cmp_exec(&x.fields, &y.fields),
            (Value::Option(x), Value::Option(y)) => match (x, y) {
                (Some(vx), Some(vy)) => vx.partial_cmp(vy),
                (None, None) => Some(Ordering::Equal),
                (None, Some(_)) => Some(Ordering::Less),
                (Some(_), None) => Some(Ordering::Greater),
            },
            _ => None,
        }
    }
}

/// A hasher that records the words a value feeds it, in order: a
/// discriminator word for the arm, then the arm's payload words.
pub struct ValueHasher {
    pub parts: Vec<u64>,
}

impl ValueHasher {
    /// The words written so far, in order.
    pub open spec fn words(&self) -> Seq<u64> {
        self.parts@
    }

    /// A hasher that has seen nothing yet.
    pub fn new() -> (r: ValueHasher)
        ensures
            r.words() == Seq::<u64>::empty(),
    {
        let r = ValueHasher { parts: Vec::new() };
        proof {
            assert(r.words() =~= Seq::<u64>::empty());
        }
        r
    }

    /// Feed one word.
    pub fn write(&mut self, w: u64)
        ensures
            final(self).words() == old(self).words().push(w),
    {
        self.parts.push(w);
    }

    /// Feed a byte string, one word per byte.
    pub fn write_bytes(&mut self, bytes: &[u8])
        ensures
            final(self).words() == old(self).words() + bytes_words(bytes@),
    {
        let n = bytes.len();
        let mut i: usize = 0;
        proof {
            assert(self.words() =~= old(self).words() + bytes_words(bytes@.take(0)));
        }
        loop
            invariant
                i <= n,
                n == bytes@.len(),
                self.words() == old(self).words() + bytes_words(bytes@.take(i as int)),
            decreases n - i,
        {
            if i == n {
                proof {
                    assert(bytes@.take(n as int) =~= bytes@);
                }
                return ;
            }
            self.parts.push(bytes[i] as u64);
            proof {
                assert(bytes_words(bytes@.take(i + 1)) =~= bytes_words(bytes@.take(i as int)).push(
                    bytes@[i as int] as u64,
                ));
                assert(self.words() =~= old(self).words() + bytes_words(bytes@.take(i + 1)));
            }
            i = i + 1;
        }
    }
}

/// The words of a byte string: each byte widened to a word.
pub open spec fn bytes_words(s: Seq<u8>) -> Seq<u64> {
    Seq::new(s.len(), |i: int| s[i] as u64)
}

/// The words of an IP address: a version tag, then the address value.
pub open spec fn ip_words(ip: IpAddr) -> Seq<u64> {
    match ip {
        IpAddr::V4(x) => seq![4u64, x as u64],
        IpAddr::V6(x) => seq![6u64, crate::bits::u128_hi_spec(x), crate::bits::u128_lo_spec(x)],
    }
}

/// The words a required value hashes to. Arms of one logical family
/// share a discriminator; floating-point and decimal arms contribute
/// their discriminator only, as do key-value mappings and groups.
pub open spec fn vr_hash(a: ValueRequired) -> Seq<u64>
    decreases a,
{
    match a {
        ValueRequired::Bool(x) => seq![0u64, if x { 1u64 } else { 0u64 }],
        ValueRequired::U8(x) => seq![1u64, x as u64],
        ValueRequired::I8(x) => seq![2u64, i64_bits_spec(x as i64)],
        ValueRequired::U16(x) => seq![3u64, x as u64],
        ValueRequired::I16(x) => seq![4u64, i64_bits_spec(x as i64)],
        ValueRequired::U32(x) => seq![5u64, x as u64],
        ValueRequired::I32(x) => seq![6u64, i64_bits_spec(x as i64)],
        ValueRequired::U64(x) => seq![7u64, x],
        ValueRequired::I64(x) => seq![8u64, i64_bits_spec(x)],
        ValueRequired::F32(_x) => seq![9u64],
        ValueRequired::F64(_x) => seq![10u64],
        ValueRequired::Date(x) => seq![
            11u64,
            i64_bits_spec(x.days),
            i64_bits_spec(x.timezone.offset_seconds as i64),
        ],
        ValueRequired::DateWithoutTimezone(x) => seq![11u64, i64_bits_spec(x.days)],
        ValueRequired::Time(x) => seq![
            12u64,
            x.micros,
            i64_bits_spec(x.timezone.offset_seconds as i64),
        ],
        ValueRequired::TimeWithoutTimezone(x) => seq![12u64, x.micros],
        ValueRequired::DateTime(x) => seq![
            13u64,
            i64_bits_spec(x.millis),
            i64_bits_spec(x.timezone.offset_seconds as i64),
        ],
        ValueRequired::DateTimeWithoutTimezone(x) => seq![13u64, i64_bits_spec(x.millis)],
        ValueRequired::Timezone(x) => seq![13u64, i64_bits_spec(x.offset_seconds as i64)],
        ValueRequired::Decimal(_x) => seq![14u64],
        ValueRequired::ByteArray(x) => seq![15u64, x@.len() as u64] + bytes_words(x@),
        ValueRequired::Bson(x) => seq![16u64, x.bytes@.len() as u64] + bytes_words(x.bytes@),
        ValueRequired::String(x) => seq![17u64, string_bytes(x).len() as u64] + bytes_words(
            string_bytes(x),
        ),
        ValueRequired::Json(x) => seq![18u64, string_bytes(x.text).len() as u64] + bytes_words(
            string_bytes(x.text),
        ),
        ValueRequired::Enum(x) => seq![19u64, string_bytes(x.name).len() as u64] + bytes_words(
            string_bytes(x.name),
        ),
        ValueRequired::Url(x) => seq![19u64, string_bytes(x.text).len() as u64] + bytes_words(
            string_bytes(x.text),
        ),
        ValueRequired::Webpage(x) => seq![19u64] + ip_words(x.ip) + seq![
            string_bytes(x.url.text).len() as u64,
        ] + bytes_words(string_bytes(x.url.text)) + seq![x.contents@.len() as u64] + bytes_words(
            x.contents@,
        ),
        ValueRequired::IpAddr(x) => seq![19u64] + ip_words(x),
        ValueRequired::List(x) => seq![20u64, x@.len() as u64] + vals_hash(x@),
        ValueRequired::Mapping(_x) => seq![21u64],
        ValueRequired::Group(_x) => seq![22u64],
    }
}

/// The words a value hashes to: as its required arm would, and the
/// option arm under its own discriminator, tagging presence.
pub open spec fn val_hash(a: Value) -> Seq<u64>
    decreases a,
{
    match a {
        Value::Bool(x) => seq![0u64, if x { 1u64 } else { 0u64 }],
        Value::U8(x) => seq![1u64, x as u64],
        Value::I8(x) => seq![2u64, i64_bits_spec(x as i64)],
        Value::U16(x) => seq![3u64, x as u64],
        Value::I16(x) => seq![4u64, i64_bits_spec(x as i64)],
        Value::U32(x) => seq![5u64, x as u64],
        Value::I32(x) => seq![6u64, i64_bits_spec(x as i64)],
        Value::U64(x) => seq![7u64, x],
        Value::I64(x) => seq![8u64, i64_bits_spec(x)],
        Value::F32(_x) => seq![9u64],
        Value::F64(_x) => seq![10u64],
        Value::Date(x) => seq![
            11u64,
            i64_bits_spec(x.days),
            i64_bits_spec(x.timezone.offset_seconds as i64),
        ],
        Value::DateWithoutTimezone(x) => seq![11u64, i64_bits_spec(x.days)],
        Value::Time(x) => seq![12u64, x.micros, i64_bits_spec(x.timezone.offset_seconds as i64)],
        Value::TimeWithoutTimezone(x) => seq![12u64, x.micros],
        Value::DateTime(x) => seq![
            13u64,
            i64_bits_spec(x.millis),
            i64_bits_spec(x.timezone.offset_seconds as i64),
        ],
        Value::DateTimeWithoutTimezone(x) => seq![13u64, i64_bits_spec(x.millis)],
        Value::Timezone(x) => seq![13u64, i64_bits_spec(x.offset_seconds as i64)],
        Value::Decimal(_x) => seq![14u64],
        Value::ByteArray(x) => seq![15u64, x@.len() as u64] + bytes_words(x@),
        Value::Bson(x) => seq![16u64, x.bytes@.len() as u64] + bytes_words(x.bytes@),
        Value::String(x) => seq![17u64, string_bytes(x).len() as u64] + bytes_words(
            string_bytes(x),
        ),
        Value::Json(x) => seq![18u64, string_bytes(x.text).len() as u64] + bytes_words(
            string_bytes(x.text),
        ),
        Value::Enum(x) => seq![19u64, string_bytes(x.name).len() as u64] + bytes_words(
            string_bytes(x.name),
        ),
        Value::Url(x) => seq![19u64, string_bytes(x.text).len() as u64] + bytes_words(
            string_bytes(x.text),
        ),
        Value::Webpage(x) => seq![19u64] + ip_words(x.ip) + seq![
            string_bytes(x.url.text).len() as u64,
        ] + bytes_words(string_bytes(x.url.text)) + seq![x.contents@.len() as u64] + bytes_words(
            x.contents@,
        ),
        Value::IpAddr(x) => seq![19u64] + ip_words(x),
        Value::List(x) => seq![20u64, x@.len() as u64] + vals_hash(x@),
        Value::Mapping(_x) => seq![21u64],
        Value::Group(_x) => seq![22u64],
        Value::Option(x) => match x {
            Some(v) => seq![23u64, 1u64] + vr_hash(v),
            None => seq![23u64, 0u64],
        },
    }
}

/// The words of a value sequence: each element's words in order.
pub open spec fn vals_hash(s: Seq<Value>) -> Seq<u64>
    decreases s,
{
    if s.len() == 0 {
        Seq::<u64>::empty()
    } else {
        val_hash(s[0]) + vals_hash(s.skip(1))
    }
}

/// Extending a hashed prefix by one element appends that element's
/// words.
proof fn lemma_vals_hash_snoc(s: Seq<Value>, i: int)
    requires
        0 <= i < s.len(),
    ensures
        vals_hash(s.take(i + 1)) == vals_hash(s.take(i)) + val_hash(s[i]),
    decreases i,
{
    if i == 0 {
        assert(s.take(1) =~= seq![s[0]]);
        assert(s.take(1).skip(1) =~= Seq::<Value>::empty());
        assert(s.take(0) =~= Seq::<Value>::empty());
        assert(vals_hash(s.take(1)) =~= vals_hash(s.take(0)) + val_hash(s[0]));
    } else {
        lemma_vals_hash_snoc(s.skip(1), i - 1);
        assert(s.take(i + 1).skip(1) =~= s.skip(1).take(i));
        assert(s.take(i).skip(1) =~= s.skip(1).take(i - 1));
        assert(s.take(i + 1)[0] == s[0]);
        assert(s.take(i)[0] == s[0]);
        assert(s.skip(1)[i - 1] == s[i]);
        assert(vals_hash(s.take(i + 1)) == val_hash(s[0]) + vals_hash(s.skip(1).take(i)));
        assert(vals_hash(s.take(i)) == val_hash(s[0]) + vals_hash(s.skip(1).take(i - 1)));
        assert(vals_hash(s.take(i + 1)) =~= vals_hash(s.take(i)) + val_hash(s[i]));
    }
}

/// Feed an IP address's words to a hasher.
fn hash_ip(ip: &IpAddr, state: &mut ValueHasher)
    ensures
        final(state).words() == old(state).words() + ip_words(*ip),
{
    match ip {
        IpAddr::V4(x) => {
            state.write(4);
            state.write(*x as u64);
            proof {
                assert(state.words() =~= old(state).words() + ip_words(*ip));
            }
        },
        IpAddr::V6(x) => {
            let halves = crate::bits::u128_split(*x);
            state.write(6);
            state.write(halves.0);
            state.write(halves.1);
            proof {
                assert(state.words() =~= old(state).words() + ip_words(*ip));
            }
        },
    }
}

/// Feed each element of a value vector to a hasher, in order.
fn hash_vals(elems: &Vec<Value>, state: &mut ValueHasher)
    ensures
        final(state).words() == old(state).words() + vals_hash(elems@),
    decreases elems@,
{
    let n = elems.len();
    let mut i: usize = 0;
    proof {
        assert(elems@.take(0) =~= Seq::<Value>::empty());
        assert(state.words() =~= old(state).words() + vals_hash(elems@.take(0)));
    }
    loop
        invariant
            i <= n,
            n == elems@.len(),
            state.words() == old(state).words() + vals_hash(elems@.take(i as int)),
        decreases n - i,
    {
        if i == n {
            proof {
                assert(elems@.take(n as int) =~= elems@);
            }
            return ;
        }
        elems[i].hash(state);
        proof {
            lemma_vals_hash_snoc(elems@, i as int);
            assert(state.words() =~= old(state).words() + vals_hash(elems@.take(i + 1)));
        }
        i = i + 1;
    }
}

impl ValueRequired {
    /// Feed this required value's words to a hasher: the arm's
    /// discriminator word, then its payload words.
    pub fn hash(&self, state: &mut ValueHasher)
        ensures
            final(state).words() == old(state).words() + vr_hash(*self),
        decreases *self,
    {
        match self {
            ValueRequired::Bool(x) => {
                state.write(0);
                state.write(if *x { 1 } else { 0 });
                proof {
                    assert(state.words() =~= old(state).words() + vr_hash(*self));
                }
            },
            ValueRequired::U8(x) => {
                state.write(1);
                state.write(*x as u64);
                proof {
                    assert(state.words() =~= old(state).words() + vr_hash(*self));
                }
            },
            ValueRequired::I8(x) => {
                state.write(2);
                state.write(crate::bits::i64_bits(*x as i64));
                proof {
                    assert(state.words() =~= old(state).words() + vr_hash(*self));
                }
            },
            ValueRequired::U16(x) => {
                state.write(3);
                state.write(*x as u64);
                proof {
                    assert(state.words() =~= old(state).words() + vr_hash(*self));
                }
            },
            ValueRequired::I16(x) => {
                state.write(4);
                state.write(crate::bits::i64_bits(*x as i64));
                proof {
                    assert(state.words() =~= old(state).words() + vr_hash(*self));
                }
            },
            ValueRequired::U32(x) => {
                state.write(5);
                state.write(*x as u64);
                proof {
                    assert(state.words() =~= old(state).words() + vr_hash(*self));
                }
            },
            ValueRequired::I32(x) => {
                state.write(6);
                state.write(crate::bits::i64_bits(*x as i64));
                proof {
                    assert(state.words() =~= old(state).words() + vr_hash(*self));
                }
            },
            ValueRequired::U64(x) => {
                state.write(7);
                state.write(*x);
                proof {
                    assert(state.words() =~= old(state).words() + vr_hash(*self));
                }
            },
            ValueRequired::I64(x) => {
                state.write(8);
                state.write(crate::bits::i64_bits(*x));
                proof {
                    assert(state.words() =~= old(state).words() + vr_hash(*self));
                }
            },
            ValueRequired::F32(x) => {
                state.write(9);
                proof {
                    assert(state.words() =~= old(state).words() + vr_hash(*self));
                }
            },
            ValueRequired::F64(x) => {
                state.write(10);
                proof {
                    assert(state.words() =~= old(state).words() + vr_hash(*self));
                }
            },
            ValueRequired::Date(x) => {
                state.write(11);
                state.write(crate::bits::i64_bits(x.days));
                state.write(crate::bits::i64_bits(x.timezone.offset_seconds as i64));
                proof {
                    assert(state.words() =~= old(state).words() + vr_hash(*self));
                }
            },
            ValueRequired::DateWithoutTimezone(x) => {
                state.write(11);
                state.write(crate::bits::i64_bits(x.days));
                proof {
                    assert(state.words() =~= old(state).words() + vr_hash(*self));
                }
            },
            ValueRequired::Time(x) => {
                state.write(12);
                state.write(x.micros);
                state.write(crate::bits::i64_bits(x.timezone.offset_seconds as i64));
                proof {
                    assert(state.words() =~= old(state).words() + vr_hash(*self));
                }
            },
            ValueRequired::TimeWithoutTimezone(x) => {
                state.write(12);
                state.write(x.micros);
                proof {
                    assert(state.words() =~= old(state).words() + vr_hash(*self));
                }
            },
            ValueRequired::DateTime(x) => {
                state.write(13);
                state.write(crate::bits::i64_bits(x.millis));
                state.write(crate::bits::i64_bits(x.timezone.offset_seconds as i64));
                proof {
                    assert(state.words() =~= old(state).words() + vr_hash(*self));
                }
            },
            ValueRequired::DateTimeWithoutTimezone(x) => {
                state.write(13);
                state.write(crate::bits::i64_bits(x.millis));
                proof {
                    assert(state.words() =~= old(state).words() + vr_hash(*self));
                }
            },
            ValueRequired::Timezone(x) => {
                state.write(13);
                state.write(crate::bits::i64_bits(x.offset_seconds as i64));
                proof {
                    assert(state.words() =~= old(state).words() + vr_hash(*self));
                }
            },
            ValueRequired::Decimal(x) => {
                state.write(14);
                proof {
                    assert(state.words() =~= old(state).words() + vr_hash(*self));
                }
            },
            ValueRequired::ByteArray(x) => {
                state.write(15);
                state.write(x.len() as u64);
                state.write_bytes(x.as_slice());
                proof {
                    assert(state.words() =~= old(state).words() + vr_hash(*self));
                }
            },
            ValueRequired::Bson(x) => {
                state.write(16);
                state.write(x.bytes.len() as u64);
                state.write_bytes(x.bytes.as_slice());
                proof {
                    assert(state.words() =~= old(state).words() + vr_hash(*self));
                }
            },
            ValueRequired::String(x) => {
                let bs = x.as_str().as_bytes();
                state.write(17);
                state.write(bs.len() as u64);
                state.write_bytes(bs);
                proof {
                    assert(state.words() =~= old(state).words() + vr_hash(*self));
                }
            },
            ValueRequired::Json(x) => {
                let bs = x.text.as_str().as_bytes();
                state.write(18);
                state.write(bs.len() as u64);
                state.write_bytes(bs);
                proof {
                    assert(state.words() =~= old(state).words() + vr_hash(*self));
                }
            },
            ValueRequired::Enum(x) => {
                let bs = x.name.as_str().as_bytes();
                state.write(19);
                state.write(bs.len() as u64);
                state.write_bytes(bs);
                proof {
                    assert(state.words() =~= old(state).words() + vr_hash(*self));
                }
            },
            ValueRequired::Url(x) => {
                let bs = x.text.as_str().as_bytes();
                state.write(19);
                state.write(bs.len() as u64);
                state.write_bytes(bs);
                proof {
                    assert(state.words() =~= old(state).words() + vr_hash(*self));
                }
            },
            ValueRequired::Webpage(x) => {
                state.write(19);
                hash_ip(&x.ip, state);
                let ubs = x.url.text.as_str().as_bytes();
                state.write(ubs.len() as u64);
                state.write_bytes(ubs);
                state.write(x.contents.len() as u64);
                state.write_bytes(x.contents.as_slice());
                proof {
                    assert(state.words() =~= old(state).words() + vr_hash(*self));
                }
            },
            ValueRequired::IpAddr(x) => {
                state.write(19);
                hash_ip(x, state);
                proof {
                    assert(state.words() =~= old(state).words() + vr_hash(*self));
                }
            },
            ValueRequired::List(x) => {
                state.write(20);
                state.write(x.len() as u64);
                hash_vals(x, state);
                proof {
                    assert(state.words() =~= old(state).words() + vr_hash(*self));
                }
            },
            ValueRequired::Mapping(_x) => {
                state.write(21);
                proof {
                    assert(state.words() =~= old(state).words() + vr_hash(*self));
                }
            },
            ValueRequired::Group(_x) => {
                state.write(22);
                proof {
                    assert(state.words() =~= old(state).words() + vr_hash(*self));
                }
            },
        }
    }
}

impl Value {
    /// Feed this value's words to a hasher: the arm's discriminator
    /// word, then its payload words.
    pub fn hash(&self, state: &mut ValueHasher)
        ensures
            final(state).words() == old(state).words() + val_hash(*self),
        decreases *self,
    {
        match self {
            Value::Bool(x) => {
                state.write(0);
                state.write(if *x { 1 } else { 0 });
                proof {
                    assert(state.words() =~= old(state).words() + val_hash(*self));
                }
            },
            Value::U8(x) => {
                state.write(1);
                state.write(*x as u64);
                proof {
                    assert(state.words() =~= old(state).words() + val_hash(*self));
                }
            },
            Value::I8(x) => {
                state.write(2);
                state.write(crate::bits::i64_bits(*x as i64));
                proof {
                    assert(state.words() =~= old(state).words() + val_hash(*self));
                }
            },
            Value::U16(x) => {
                state.write(3);
                state.write(*x as u64);
                proof {
                    assert(state.words() =~= old(state).words() + val_hash(*self));
                }
            },
            Value::I16(x) => {
                state.write(4);
                state.write(crate::bits::i64_bits(*x as i64));
                proof {
                    assert(state.words() =~= old(state).words() + val_hash(*self));
                }
            },
            Value::U32(x) => {
                state.write(5);
                state.write(*x as u64);
                proof {
                    assert(state.words() =~= old(state).words() + val_hash(*self));
                }
            },
            Value::I32(x) => {
                state.write(6);
                state.write(crate::bits::i64_bits(*x as i64));
                proof {
                    assert(state.words() =~= old(state).words() + val_hash(*self));
                }
            },
            Value::U64(x) => {
                state.write(7);
                state.write(*x);
                proof {
                    assert(state.words() =~= old(state).words() + val_hash(*self));
                }
            },
            Value::I64(x) => {
                state.write(8);
                state.write(crate::bits::i64_bits(*x));
                proof {
                    assert(state.words() =~= old(state).words() + val_hash(*self));
                }
            },
            Value::F32(x) => {
                state.write(9);
                proof {
                    assert(state.words() =~= old(state).words() + val_hash(*self));
                }
            },
            Value::F64(x) => {
                state.write(10);
                proof {
                    assert(state.words() =~= old(state).words() + val_hash(*self));
                }
            },
            Value::Date(x) => {
                state.write(11);
                state.write(crate::bits::i64_bits(x.days));
                state.write(crate::bits::i64_bits(x.timezone.offset_seconds as i64));
                proof {
                    assert(state.words() =~= old(state).words() + val_hash(*self));
                }
            },
            Value::DateWithoutTimezone(x) => {
                state.write(11);
                state.write(crate::bits::i64_bits(x.days));
                proof {
                    assert(state.words() =~= old(state).words() + val_hash(*self));
                }
            },
            Value::Time(x) => {
                state.write(12);
                state.write(x.micros);
                state.write(crate::bits::i64_bits(x.timezone.offset_seconds as i64));
                proof {
                    assert(state.words() =~= old(state).words() + val_hash(*self));
                }
            },
            Value::TimeWithoutTimezone(x) => {
                state.write(12);
                state.write(x.micros);
                proof {
                    assert(state.words() =~= old(state).words() + val_hash(*self));
                }
            },
            Value::DateTime(x) => {
                state.write(13);
                state.write(crate::bits::i64_bits(x.millis));
                state.write(crate::bits::i64_bits(x.timezone.offset_seconds as i64));
                proof {
                    assert(state.words() =~= old(state).words() + val_hash(*self));
                }
            },
            Value::DateTimeWithoutTimezone(x) => {
                state.write(13);
                state.write(crate::bits::i64_bits(x.millis));
                proof {
                    assert(state.words() =~= old(state).words() + val_hash(*self));
                }
            },
            Value::Timezone(x) => {
                state.write(13);
                state.write(crate::bits::i64_bits(x.offset_seconds as i64));
                proof {
                    assert(state.words() =~= old(state).words() + val_hash(*self));
                }
            },
            Value::Decimal(x) => {
                state.write(14);
                proof {
                    assert(state.words() =~= old(state).words() + val_hash(*self));
                }
            },
            Value::ByteArray(x) => {
                state.write(15);
                state.write(x.len() as u64);
                state.write_bytes(x.as_slice());
                proof {
                    assert(state.words() =~= old(state).words() + val_hash(*self));
                }
            },
            Value::Bson(x) => {
                state.write(16);
                state.write(x.bytes.len() as u64);
                state.write_bytes(x.bytes.as_slice());
                proof {
                    assert(state.words() =~= old(state).words() + val_hash(*self));
                }
            },
            Value::String(x) => {
                let bs = x.as_str().as_bytes();
                state.write(17);
                state.write(bs.len() as u64);
                state.write_bytes(bs);
                proof {
                    assert(state.words() =~= old(state).words() + val_hash(*self));
                }
            },
            Value::Json(x) => {
                let bs = x.text.as_str().as_bytes();
                state.write(18);
                state.write(bs.len() as u64);
                state.write_bytes(bs);
                proof {
                    assert(state.words() =~= old(state).words() + val_hash(*self));
                }
            },
            Value::Enum(x) => {
                let bs = x.name.as_str().as_bytes();
                state.write(19);
                state.write(bs.len() as u64);
                state.write_bytes(bs);
                proof {
                    assert(state.words() =~= old(state).words() + val_hash(*self));
                }
            },
            Value::Url(x) => {
                let bs = x.text.as_str().as_bytes();
                state.write(19);
                state.write(bs.len() as u64);
                state.write_bytes(bs);
                proof {
                    assert(state.words() =~= old(state).words() + val_hash(*self));
                }
            },
            Value::Webpage(x) => {
                state.write(19);
                hash_ip(&x.ip, state);
                let ubs = x.url.text.as_str().as_bytes();
                state.write(ubs.len() as u64);
                state.write_bytes(ubs);
                state.write(x.contents.len() as u64);
                state.write_bytes(x.contents.as_slice());
                proof {
                    assert(state.words() =~= old(state).words() + val_hash(*self));
                }
            },
            Value::IpAddr(x) => {
                state.write(19);
                hash_ip(x, state);
                proof {
                    assert(state.words() =~= old(state).words() + val_hash(*self));
                }
            },
            Value::List(x) => {
                state.write(20);
                state.write(x.len() as u64);
                hash_vals(x, state);
                proof {
                    assert(state.words() =~= old(state).words() + val_hash(*self));
                }
            },
            Value::Mapping(_x) => {
                state.write(21);
                proof {
                    assert(state.words() =~= old(state).words() + val_hash(*self));
                }
            },
            Value::Group(_x) => {
                state.write(22);
                proof {
                    assert(state.words() =~= old(state).words() + val_hash(*self));
                }
            },
            Value::Option(x) => {
                match x {
                    Some(v) => {
                        state.write(23);
                        state.write(1);
                        v.hash(state);
                    },
                    None => {
                        state.write(23);
                        state.write(0);
                    },
                }
                proof {
                    assert(state.words() =~= old(state).words() + val_hash(*self));
                }
            },
        }
    }
}

/// Equal value sequences hash to the same words.
proof fn lemma_vals_eq_hash(a: Seq<Value>, b: Seq<Value>)
    requires
        vals_eq(a, b),
    ensures
        vals_hash(a) == vals_hash(b),
    decreases a,
{
    if a.len() == 0 {
        assert(vals_hash(a) =~= vals_hash(b));
    } else {
        lemma_val_eq_hash(a[0], b[0]);
        lemma_vals_eq_hash(a.skip(1), b.skip(1));
    }
}

/// Hash/equality consistency for required values: equal values feed a
/// hasher the same words. Floating-point arms hash their discriminator
/// alone, so the rule covers them although their equality is IEEE.
pub proof fn lemma_vr_eq_hash(a: ValueRequired, b: ValueRequired)
    requires
        vr_eq(a, b),
    ensures
        vr_hash(a) == vr_hash(b),
    decreases a,
{
    match (a, b) {
        (ValueRequired::List(x), ValueRequired::List(y)) => {
            lemma_vals_eq_hash(x@, y@);
        },
        _ => {},
    }
}

/// Hash/equality consistency for values: equal values feed a hasher the
/// same words.
pub proof fn lemma_val_eq_hash(a: Value, b: Value)
    requires
        val_eq(a, b),
    ensures
        val_hash(a) == val_hash(b),
    decreases a,
{
    match (a, b) {
        (Value::List(x), Value::List(y)) => {
            lemma_vals_eq_hash(x@, y@);
        },
        (Value::Option(x), Value::Option(y)) => {
            match (x, y) {
                (Some(vx), Some(vy)) => {
                    lemma_vr_eq_hash(vx, vy);
                },
                _ => {},
            }
        },
        _ => {},
    }
}

/// Whether two required values carry the same arm.
pub open spec fn vr_same_arm(a: ValueRequired, b: ValueRequired) -> bool {
    match (a, b) {
        (ValueRequired::Bool(_), ValueRequired::Bool(_)) => true,
        (ValueRequired::U8(_), ValueRequired::U8(_)) => true,
        (ValueRequired::I8(_), ValueRequired::I8(_)) => true,
        (ValueRequired::U16(_), ValueRequired::U16(_)) => true,
        (ValueRequired::I16(_), ValueRequired::I16(_)) => true,
        (ValueRequired::U32(_), ValueRequired::U32(_)) => true,
        (ValueRequired::I32(_), ValueRequired::I32(_)) => true,
        (ValueRequired::U64(_), ValueRequired::U64(_)) => true,
        (ValueRequired::I64(_), ValueRequired::I64(_)) => true,
        (ValueRequired::F32(_), ValueRequired::F32(_)) => true,
        (ValueRequired::F64(_), ValueRequired::F64(_)) => true,
        (ValueRequired::Date(_), ValueRequired::Date(_)) => true,
        (ValueRequired::DateWithoutTimezone(_), ValueRequired::DateWithoutTimezone(_)) => true,
        (ValueRequired::Time(_), ValueRequired::Time(_)) => true,
        (ValueRequired::TimeWithoutTimezone(_), ValueRequired::TimeWithoutTimezone(_)) => true,
        (ValueRequired::DateTime(_), ValueRequired::DateTime(_)) => true,
        (
            ValueRequired::DateTimeWithoutTimezone(_),
            ValueRequired::DateTimeWithoutTimezone(_),
        ) => true,
        (ValueRequired::Timezone(_), ValueRequired::Timezone(_)) => true,
        (ValueRequired::Decimal(_), ValueRequired::Decimal(_)) => true,
        (ValueRequired::ByteArray(_), ValueRequired::ByteArray(_)) => true,
        (ValueRequired::Bson(_), ValueRequired::Bson(_)) => true,
        (ValueRequired::String(_), ValueRequired::String(_)) => true,
        (ValueRequired::Json(_), ValueRequired::Json(_)) => true,
        (ValueRequired::Enum(_), ValueRequired::Enum(_)) => true,
        (ValueRequired::Url(_), ValueRequired::Url(_)) => true,
        (ValueRequired::Webpage(_), ValueRequired::Webpage(_)) => true,
        (ValueRequired::IpAddr(_), ValueRequired::IpAddr(_)) => true,
        (ValueRequired::List(_), ValueRequired::List(_)) => true,
        (ValueRequired::Mapping(_), ValueRequired::Mapping(_)) => true,
        (ValueRequired::Group(_), ValueRequired::Group(_)) => true,
        _ => false,
    }
}

/// Whether a required value's arm is totally ordered against any other
/// value of the same arm. Floating-point arms are excluded for NaN,
/// decimals for mixed scales, key-value mappings always, and lists and
/// groups because their elements may themselves be unordered.
pub open spec fn vr_totally_ordered_arm(a: ValueRequired) -> bool {
    match a {
        ValueRequired::F32(_) => false,
        ValueRequired::F64(_) => false,
        ValueRequired::Decimal(_) => false,
        ValueRequired::List(_) => false,
        ValueRequired::Mapping(_) => false,
        ValueRequired::Group(_) => false,
        _ => true,
    }
}

/// Two required values of different arms have no order.
pub proof fn lemma_no_order_across_arms(a: ValueRequired, b: ValueRequired)
    requires
        !vr_same_arm(a, b),
    ensures
        vr_cmp(a, b) is None,
{
}

/// Within a totally ordered arm, any two required values are ordered;
/// two floating-point values of one width are ordered when neither is a
/// NaN; two decimals are ordered at equal scale; two key-value mappings
/// never are.
pub proof fn lemma_order_within_arm(a: ValueRequired, b: ValueRequired)
    requires
        vr_same_arm(a, b),
    ensures
        vr_totally_ordered_arm(a) ==> vr_cmp(a, b) is Some,
        (a is F32 && b is F32 && !crate::bits::f32_is_nan(a->F32_0) && !crate::bits::f32_is_nan(
            b->F32_0,
        )) ==> vr_cmp(a, b) is Some,
        (a is F64 && b is F64 && !crate::bits::f64_is_nan(a->F64_0) && !crate::bits::f64_is_nan(
            b->F64_0,
        )) ==> vr_cmp(a, b) is Some,
        (a is Decimal && b is Decimal && a->Decimal_0.scale == b->Decimal_0.scale) ==> vr_cmp(
            a,
            b,
        ) is Some,
        a is Mapping ==> vr_cmp(a, b) is None,
{
}
} // verus!
