use vstd::prelude::*;

verus! {

#[verifier::external_type_specification]
#[verifier::external_body]
pub struct ExTomlValue(toml::Value);

/// A TOML value, held as plain data.
///
/// Floats are held by their IEEE-754 bit pattern (`f64::to_bits`), date-times
/// by their TOML text; tables keep their entries in the order the parser
/// yields them.
#[derive(Debug)]
pub enum TomlValue {
    String(String),
    Integer(i64),
    Float(u64),
    Boolean(bool),
    Datetime(String),
    Array(Vec<TomlValue>),
    Table(Vec<(String, TomlValue)>),
}

/// The document that the `toml` crate parses from `text`, in the library's
/// form; `None` where the text is not valid TOML.
pub uninterp spec fn toml_document(text: Seq<char>) -> Option<TomlValue>;

/// Parses a TOML document (the `toml` crate's `from_str` into its `Value`),
/// converting the result to a [`TomlValue`]. The error is the parser's
/// message; nothing is stated of its text.
#[verifier::external_body]
pub(crate) fn parse_toml(text: &str) -> (r: Result<TomlValue, String>)
    ensures
        r is Ok <==> toml_document(text@) is Some,
        r matches Ok(v) ==> toml_document(text@) == Some(v),
{
    match toml::from_str::<toml::Value>(text) {
        Ok(v) => Ok(from_toml_value(&v)),
        Err(e) => Err(e.to_string()),
    }
}

/// One-for-one conversion of a parsed `toml::Value` into a [`TomlValue`];
/// part of [`parse_toml`].
#[verifier::external_body]
fn from_toml_value(v: &toml::Value) -> TomlValue {
    match v {
        toml::Value::String(s) => TomlValue::String(s.clone()),
        toml::Value::Integer(i) => TomlValue::Integer(*i),
        toml::Value::Float(f) => TomlValue::Float(f.to_bits()),
        toml::Value::Boolean(b) => TomlValue::Boolean(*b),
        toml::Value::Datetime(d) => TomlValue::Datetime(d.to_string()),
        toml::Value::Array(a) => TomlValue::Array(a.iter().map(from_toml_value).collect()),
        toml::Value::Table(t) => TomlValue::Table(
            t.iter().map(|(k, v)| (k.clone(), from_toml_value(v))).collect(),
        ),
    }
}

/// The value stored under `key` in a list of table entries: the last entry
/// with that key, as when the entries are collected into a map.
pub open spec fn lookup(entries: Seq<(String, TomlValue)>, key: Seq<char>) -> Option<TomlValue>
    decreases entries.len(),
{
    if entries.len() == 0 {
        None
    } else if entries.last().0@ == key {
        Some(entries.last().1)
    } else {
        lookup(entries.drop_last(), key)
    }
}

} // verus!
