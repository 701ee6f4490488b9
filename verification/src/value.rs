//! The configuration value union: every property of a configuration base
//! holds one of these.

use vstd::prelude::*;

verus! {

/// A typed configuration value: integer, boolean, text, array of values,
/// or a table of named values.
#[derive(Debug)]
pub enum Value {
    Integer(i64),
    Boolean(bool),
    Text(String),
    Array(Vec<Value>),
    Table(Vec<(String, Value)>),
}

} // verus!
