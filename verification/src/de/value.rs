//! Decisions on a single value: what it is read as for each kind of
//! request.
use vstd::prelude::*;
use vstd::string::*;
use crate::content::{Content, ContentModel};
use crate::error::{Error, Found};
use crate::model::Value;

verus! {

/// What a value hands to a visitor that accepts anything.
pub open spec fn value_content(v: Value) -> ContentModel {
    match v {
        Value::String(s) => ContentModel::Str(s),
        Value::Integer(i) => ContentModel::Int(i),
        Value::Float(f) => ContentModel::Float(f),
        Value::Bool(b) => ContentModel::Bool(b),
        Value::Null => ContentModel::Null,
    }
}

/// A value read by a visitor that accepts anything.
pub fn value_any(v: &Value) -> (r: Content)
    ensures
        r.model() == value_content(*v),
        match *v {
            Value::String(s) => r == Content::Str(s),
            Value::Integer(i) => r == Content::Int(i),
            Value::Float(f) => r == Content::Float(f),
            Value::Bool(b) => r == Content::Bool(b),
            Value::Null => r == Content::Null,
        },
{
    match v {
        Value::String(s) => Content::Str(s.clone()),
        Value::Integer(i) => Content::Int(*i),
        Value::Float(f) => Content::Float(*f),
        Value::Bool(b) => Content::Bool(*b),
        Value::Null => Content::Null,
    }
}

/// A value read by a visitor that accepts anything is handed over
/// unchanged: an integer `i` gives `Int(i)`, a string `s` gives `Str(s)`, a
/// float the same bits, a bool `b` gives `Bool(b)`, `#null` gives `Null`.
pub proof fn law_value_read_unchanged(v: Value)
    ensures
        match v {
            Value::String(s) => value_content(v) == ContentModel::Str(s),
            Value::Integer(i) => value_content(v) == ContentModel::Int(i),
            Value::Float(f) => value_content(v) == ContentModel::Float(f),
            Value::Bool(b) => value_content(v) == ContentModel::Bool(b),
            Value::Null => value_content(v) == ContentModel::Null,
        },
{
}

/// The error of a value of the wrong kind.
pub open spec fn mismatch(expected: &'static str, v: Value) -> Error {
    Error::TypeMismatch { expected, got: Found::Value(v) }
}

/// A number as written: an integer, or a float by its IEEE-754 bits (whose
/// conversion is left to the caller).
pub enum Number {
    Int(i128),
    FloatBits(u64),
}

/// A value read as an integer: an integer, or a float to be converted.
pub fn integer_of(v: &Value) -> (r: Result<Number, Error>)
    ensures
        match *v {
            Value::Integer(i) => r == Ok::<Number, Error>(Number::Int(i)),
            Value::Float(f) => r == Ok::<Number, Error>(Number::FloatBits(f)),
            _ => r == Err::<Number, Error>(mismatch("integer", *v)),
        },
{
    match v {
        Value::Integer(i) => Ok(Number::Int(*i)),
        Value::Float(f) => Ok(Number::FloatBits(*f)),
        _ => Err(Error::TypeMismatch { expected: "integer", got: Found::Value(v.duplicate()) }),
    }
}

/// A value read as a float: a float, or an integer to be converted.
pub fn float_of(v: &Value) -> (r: Result<Number, Error>)
    ensures
        match *v {
            Value::Integer(i) => r == Ok::<Number, Error>(Number::Int(i)),
            Value::Float(f) => r == Ok::<Number, Error>(Number::FloatBits(f)),
            _ => r == Err::<Number, Error>(mismatch("float", *v)),
        },
{
    match v {
        Value::Integer(i) => Ok(Number::Int(*i)),
        Value::Float(f) => Ok(Number::FloatBits(*f)),
        _ => Err(Error::TypeMismatch { expected: "float", got: Found::Value(v.duplicate()) }),
    }
}

/// `i` as an `i8`, when it is in range.
pub fn to_i8(i: i128) -> (r: Result<i8, Error>)
    ensures
        match r {
            Ok(x) => i8::MIN <= i <= i8::MAX && x == i,
            Err(e) => !(i8::MIN <= i <= i8::MAX) && e == Error::IntegerOutOfRange(i),
        },
{
    if -128 <= i && i <= 127 {
        Ok(i as i8)
    } else {
        Err(Error::IntegerOutOfRange(i))
    }
}

/// `i` as an `i16`, when it is in range.
pub fn to_i16(i: i128) -> (r: Result<i16, Error>)
    ensures
        match r {
            Ok(x) => i16::MIN <= i <= i16::MAX && x == i,
            Err(e) => !(i16::MIN <= i <= i16::MAX) && e == Error::IntegerOutOfRange(i),
        },
{
    if -32768 <= i && i <= 32767 {
        Ok(i as i16)
    } else {
        Err(Error::IntegerOutOfRange(i))
    }
}

/// `i` as an `i32`, when it is in range.
pub fn to_i32(i: i128) -> (r: Result<i32, Error>)
    ensures
        match r {
            Ok(x) => i32::MIN <= i <= i32::MAX && x == i,
            Err(e) => !(i32::MIN <= i <= i32::MAX) && e == Error::IntegerOutOfRange(i),
        },
{
    if -2147483648 <= i && i <= 2147483647 {
        Ok(i as i32)
    } else {
        Err(Error::IntegerOutOfRange(i))
    }
}

/// `i` as an `i64`, when it is in range.
pub fn to_i64(i: i128) -> (r: Result<i64, Error>)
    ensures
        match r {
            Ok(x) => i64::MIN <= i <= i64::MAX && x == i,
            Err(e) => !(i64::MIN <= i <= i64::MAX) && e == Error::IntegerOutOfRange(i),
        },
{
    if -9223372036854775808 <= i && i <= 9223372036854775807 {
        Ok(i as i64)
    } else {
        Err(Error::IntegerOutOfRange(i))
    }
}

/// `i` as a `u8`, when it is in range.
pub fn to_u8(i: i128) -> (r: Result<u8, Error>)
    ensures
        match r {
            Ok(x) => 0 <= i <= u8::MAX && x == i,
            Err(e) => !(0 <= i <= u8::MAX) && e == Error::IntegerOutOfRange(i),
        },
{
    if 0 <= i && i <= 255 {
        Ok(i as u8)
    } else {
        Err(Error::IntegerOutOfRange(i))
    }
}

/// `i` as a `u16`, when it is in range.
pub fn to_u16(i: i128) -> (r: Result<u16, Error>)
    ensures
        match r {
            Ok(x) => 0 <= i <= u16::MAX && x == i,
            Err(e) => !(0 <= i <= u16::MAX) && e == Error::IntegerOutOfRange(i),
        },
{
    if 0 <= i && i <= 65535 {
        Ok(i as u16)
    } else {
        Err(Error::IntegerOutOfRange(i))
    }
}

/// `i` as a `u32`, when it is in range.
pub fn to_u32(i: i128) -> (r: Result<u32, Error>)
    ensures
        match r {
            Ok(x) => 0 <= i <= u32::MAX && x == i,
            Err(e) => !(0 <= i <= u32::MAX) && e == Error::IntegerOutOfRange(i),
        },
{
    if 0 <= i && i <= 4294967295 {
        Ok(i as u32)
    } else {
        Err(Error::IntegerOutOfRange(i))
    }
}

/// `i` as a `u64`, when it is in range.
pub fn to_u64(i: i128) -> (r: Result<u64, Error>)
    ensures
        match r {
            Ok(x) => 0 <= i <= u64::MAX && x == i,
            Err(e) => !(0 <= i <= u64::MAX) && e == Error::IntegerOutOfRange(i),
        },
{
    if 0 <= i && i <= 18446744073709551615 {
        Ok(i as u64)
    } else {
        Err(Error::IntegerOutOfRange(i))
    }
}

/// `i` as a `u128`, when it is not negative.
pub fn to_u128(i: i128) -> (r: Result<u128, Error>)
    ensures
        match r {
            Ok(x) => 0 <= i && x == i,
            Err(e) => i < 0 && e == Error::IntegerOutOfRange(i),
        },
{
    if 0 <= i {
        Ok(i as u128)
    } else {
        Err(Error::IntegerOutOfRange(i))
    }
}

/// A value read as a boolean.
pub fn value_bool(v: &Value) -> (r: Result<bool, Error>)
    ensures
        match *v {
            Value::Bool(b) => r == Ok::<bool, Error>(b),
            _ => r == Err::<bool, Error>(mismatch("bool", *v)),
        },
{
    match v {
        Value::Bool(b) => Ok(*b),
        _ => Err(Error::TypeMismatch { expected: "bool", got: Found::Value(v.duplicate()) }),
    }
}

/// A value read as a character: a string of exactly one character.
pub fn value_char(v: &Value) -> (r: Result<char, Error>)
    ensures
        match r {
            Ok(c) => v is String && v->String_0@ == seq![c],
            Err(e) => !(v is String && v->String_0@.len() == 1) && e == mismatch(
                "single character",
                *v,
            ),
        },
{
    match v {
        Value::String(s) => {
            let t = s.as_str();
            if t.unicode_len() == 1 {
                let c = t.get_char(0);
                assert(s@ =~= seq![c]);
                return Ok(c);
            }
        },
        _ => {},
    }
    Err(Error::TypeMismatch { expected: "single character", got: Found::Value(v.duplicate()) })
}

/// A value read as text (a string, the bytes of a string, or the name of a
/// unit variant): a string, else the mismatch that names `expected`.
pub fn value_text<'a>(v: &'a Value, expected: &'static str) -> (r: Result<&'a String, Error>)
    ensures
        match *v {
            Value::String(s) => r matches Ok(t) && *t == s,
            _ => r == Err::<&String, Error>(mismatch(expected, *v)),
        },
{
    match v {
        Value::String(s) => Ok(s),
        _ => Err(Error::TypeMismatch { expected, got: Found::Value(v.duplicate()) }),
    }
}

/// A value read as unit: only `#null` is.
pub fn value_unit(v: &Value) -> (r: Result<(), Error>)
    ensures
        match *v {
            Value::Null => r is Ok,
            _ => r == Err::<(), Error>(mismatch("null", *v)),
        },
{
    match v {
        Value::Null => Ok(()),
        _ => Err(Error::TypeMismatch { expected: "null", got: Found::Value(v.duplicate()) }),
    }
}

/// The error of a scalar value read as a sequence, map or struct (named by
/// `expected`).
pub fn scalar_shape_error(v: &Value, expected: &'static str) -> (e: Error)
    ensures
        e == (Error::TypeMismatch { expected, got: Found::ScalarValue(*v) }),
{
    Error::TypeMismatch { expected, got: Found::ScalarValue(v.duplicate()) }
}

} // verus!
