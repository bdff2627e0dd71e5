//! DynamoDB attribute values.

use vstd::prelude::*;

verus! {

/// A DynamoDB attribute value.
#[derive(Debug, PartialEq, Eq)]
pub enum AttributeValue {
    S(String),
    N(String),
    B(Vec<u8>),
    Bool(bool),
    Null(bool),
    Ss(Vec<String>),
    Ns(Vec<String>),
    Bs(Vec<Vec<u8>>),
    L(Vec<AttributeValue>),
    M(Vec<(String, AttributeValue)>),
}

} // verus!
