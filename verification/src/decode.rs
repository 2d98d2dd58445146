use vstd::prelude::*;

use crate::value::{ConfigValue, SpecValue};
use ron::Number;
use ron::Value as RonValue;

verus! {

/// Declares ron's value type so that signatures here can carry it.
#[verifier::external_type_specification]
#[verifier::external_body]
pub struct ExRonValue(ron::Value);

/// Declares ron's number type so that signatures here can carry it.
#[verifier::external_type_specification]
#[verifier::external_body]
pub struct ExRonNumber(ron::Number);

/// The tree that parsing a configuration text yields, or nothing when the
/// text does not parse: it depends on the text alone.
pub uninterp spec fn parsed_tree(text: Seq<char>) -> Option<SpecValue>;

/// Relies on ron::Number's variants: integers that fit i64 are carried
/// over; a number the tree model cannot hold (a float, an integer beyond
/// i64) reads as unit.
#[verifier::external_body]
fn number_from_ron(n: Number) -> ConfigValue {
    match n {
        Number::I8(v) => ConfigValue::Int(v as i64),
        Number::I16(v) => ConfigValue::Int(v as i64),
        Number::I32(v) => ConfigValue::Int(v as i64),
        Number::I64(v) => ConfigValue::Int(v),
        Number::U8(v) => ConfigValue::Int(v as i64),
        Number::U16(v) => ConfigValue::Int(v as i64),
        Number::U32(v) => ConfigValue::Int(v as i64),
        Number::U64(v) => match i64::try_from(v) {
            Ok(i) => ConfigValue::Int(i),
            Err(_) => ConfigValue::Unit,
        },
        _ => ConfigValue::Unit,
    }
}

/// Relies on ron::Value's variants: each is carried to the corresponding
/// tree shape, map entries in the order ron's map iterates them; bytes,
/// like floats, read as unit.
#[verifier::external_body]
fn value_from_ron(v: RonValue) -> ConfigValue {
    match v {
        RonValue::Unit => ConfigValue::Unit,
        RonValue::Bool(b) => ConfigValue::Bool(b),
        RonValue::Char(c) => ConfigValue::Char(c),
        RonValue::Number(n) => number_from_ron(n),
        RonValue::String(s) => ConfigValue::Text(s),
        RonValue::Bytes(_) => ConfigValue::Unit,
        RonValue::Option(o) => ConfigValue::Maybe(o.map(|b| Box::new(value_from_ron(*b)))),
        RonValue::Seq(vs) => ConfigValue::List(vs.into_iter().map(value_from_ron).collect()),
        RonValue::Map(m) => ConfigValue::Table(
            m.into_iter().map(|(k, w)| (value_from_ron(k), value_from_ron(w))).collect(),
        ),
    }
}

/// Relies on ron::from_str: parsing is a function of the text alone, and a
/// text that does not parse yields nothing.
#[verifier::external_body]
pub(crate) fn parse_str(text: &str) -> (r: Option<ConfigValue>)
    ensures
        match r {
            Some(v) => parsed_tree(text@) == Some(v@),
            None => parsed_tree(text@) is None,
        },
{
    ron::from_str::<RonValue>(text).ok().map(value_from_ron)
}

/// Relies on ron::Value's constructors: carries a tree back into ron's
/// value type, shape for shape.
#[verifier::external_body]
fn value_to_ron(v: &ConfigValue) -> RonValue {
    match v {
        ConfigValue::Unit => RonValue::Unit,
        ConfigValue::Bool(b) => RonValue::Bool(*b),
        ConfigValue::Char(c) => RonValue::Char(*c),
        ConfigValue::Int(i) => RonValue::Number(Number::I64(*i)),
        ConfigValue::Text(s) => RonValue::String(s.clone()),
        ConfigValue::Maybe(o) => RonValue::Option(o.as_ref().map(|b| Box::new(value_to_ron(b)))),
        ConfigValue::List(vs) => RonValue::Seq(vs.iter().map(value_to_ron).collect()),
        ConfigValue::Table(es) => RonValue::Map(
            es.iter().map(|(k, w)| (value_to_ron(k), value_to_ron(w))).collect(),
        ),
    }
}

/// Relies on ron::Value::into_rust: serde-decodes a tree into `T`. What
/// comes out is decided by `T`'s deserializer, so nothing is promised of
/// the result.
#[verifier::external_body]
pub(crate) fn decode_tree<T: serde::de::DeserializeOwned>(v: &ConfigValue) -> Option<T> {
    value_to_ron(v).into_rust::<T>().ok()
}

} // verus!
