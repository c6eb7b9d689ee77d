//! TOML documents as plain values.
//!
//! The `toml` crate reads and writes the text; everything the library knows
//! about its own files (which keys exist, which are required, what each holds)
//! is checked against the plain tree this module hands out.

use vstd::prelude::*;

use crate::text::str_eq;

verus! {

/// One TOML value.
#[derive(Debug, PartialEq)]
pub enum TomlValue {
    /// A string.
    Text(String),
    /// An integer.
    Integer(i64),
    /// A float, as the `toml` crate prints it. Carried, never read.
    Float(String),
    /// A boolean.
    Boolean(bool),
    /// A date, time or both, as TOML writes it.
    Datetime(String),
    /// An array.
    Array(Vec<TomlValue>),
    /// A table, keys in document order.
    Table(Vec<(String, TomlValue)>),
}

/// A whole document: its top-level table.
pub type Document = Vec<(String, TomlValue)>;

#[verifier::external_type_specification]
#[verifier::external_body]
pub struct ExTomlValue(toml::Value);

/// What the `toml` crate reads from a text: the top-level table, or the
/// message it refuses the text with.
pub uninterp spec fn toml_read(text: Seq<char>) -> Result<Document, String>;

/// The text the `toml` crate writes for a table, or the message it refuses
/// with.
pub uninterp spec fn toml_written(table: Document) -> Result<String, String>;

/// A `toml::Value` as a plain value, one variant for one.
#[verifier::external_body]
fn plain(value: toml::Value) -> TomlValue {
    match value {
        toml::Value::String(s) => TomlValue::Text(s),
        toml::Value::Integer(i) => TomlValue::Integer(i),
        toml::Value::Float(f) => TomlValue::Float(f.to_string()),
        toml::Value::Boolean(b) => TomlValue::Boolean(b),
        toml::Value::Datetime(d) => TomlValue::Datetime(d.to_string()),
        toml::Value::Array(a) => TomlValue::Array(a.into_iter().map(plain).collect()),
        toml::Value::Table(t) => TomlValue::Table(t.into_iter().map(|(k, v)| (k, plain(v))).collect()),
    }
}

/// A float's text as a `toml::Value`: the float it reads as, else the text.
#[verifier::external_body]
fn float_value(text: &String) -> toml::Value {
    text.parse().map_or_else(|_| toml::Value::String(text.clone()), toml::Value::Float)
}

/// A date's text as a `toml::Value`: the date it reads as, else the text.
#[verifier::external_body]
fn datetime_value(text: &String) -> toml::Value {
    text.parse().map_or_else(|_| toml::Value::String(text.clone()), toml::Value::Datetime)
}

/// A plain value as a `toml::Value`, one variant for one. A float or date
/// text the crate does not read back is written as a string.
#[verifier::external_body]
fn outside(value: &TomlValue) -> toml::Value {
    match value {
        TomlValue::Text(s) => toml::Value::String(s.clone()),
        TomlValue::Integer(i) => toml::Value::Integer(*i),
        TomlValue::Float(f) => float_value(f),
        TomlValue::Boolean(b) => toml::Value::Boolean(*b),
        TomlValue::Datetime(d) => datetime_value(d),
        TomlValue::Array(a) => toml::Value::Array(a.iter().map(outside).collect()),
        TomlValue::Table(t) => toml::Value::Table(t.iter().map(|(k, v)| (k.clone(), outside(v))).collect()),
    }
}

/// Reads TOML text into its top-level table (`toml::from_str::<toml::Table>`).
///
/// Trusted: the result is named by [`toml_read`], a function of the text
/// alone; the error is the crate's message.
#[verifier::external_body]
pub(crate) fn read_toml(text: &str) -> (r: Result<Document, String>)
    ensures
        r == toml_read(text@),
{
    match toml::from_str::<toml::Table>(text) {
        Ok(table) => Ok(table.into_iter().map(|(k, v)| (k, plain(v))).collect()),
        Err(error) => Err(error.to_string()),
    }
}

/// Writes a table as TOML text (`toml::to_string_pretty`).
///
/// Trusted: the result is named by [`toml_written`], a function of the table
/// alone.
#[verifier::external_body]
pub(crate) fn write_toml(table: &Document) -> (r: Result<String, String>)
    ensures
        r == toml_written(*table),
{
    let table: toml::Table = table.iter().map(|(k, v)| (k.clone(), outside(v))).collect();
    toml::to_string_pretty(&table).map_err(|error| error.to_string())
}

/// The value a key has in a table, if the key is there: the first entry
/// with it.
pub open spec fn lookup(table: Seq<(String, TomlValue)>, key: Seq<char>) -> Option<TomlValue>
    decreases table.len(),
{
    if table.len() == 0 {
        None
    } else if table[0].0@ == key {
        Some(table[0].1)
    } else {
        lookup(table.drop_first(), key)
    }
}

/// The value a key has in a table, if the key is there.
pub fn get<'a>(table: &'a Vec<(String, TomlValue)>, key: &str) -> (r: Option<&'a TomlValue>)
    ensures
        match lookup(table@, key@) {
            Some(v) => r == Some(&v),
            None => r is None,
        },
{
    let mut i: usize = 0;
    assert(table@.skip(0) == table@);
    while i < table.len()
        invariant
            i <= table@.len(),
            lookup(table@, key@) == lookup(table@.skip(i as int), key@),
        decreases table@.len() - i,
    {
        assert(table@.skip(i as int).drop_first() == table@.skip(i + 1));
        if str_eq(table[i].0.as_str(), key) {
            return Some(&table[i].1);
        }
        i = i + 1;
    }
    None
}

} // verus!
