//! Hashes of partition key values.
//!
//! The bytes that are hashed are a type prefix (0x01 for strings, 0x02 for
//! numbers, 0x03 for binary values) and the UTF-8 or raw bytes of the value.
//! Numbers are hashed as they are written, so `42` and `42.0` differ. Other
//! types cannot be partition keys.

use crate::attribute_value::AttributeValue;
use crate::keyrouting::murmurhash3;
use vstd::prelude::*;
use vstd::utf8::encode_utf8;

verus! {

/// The prefix of strings.
pub const TYPE_STRING: u8 = 0x01;

/// The prefix of numbers.
pub const TYPE_NUMBER: u8 = 0x02;

/// The prefix of binary values.
pub const TYPE_BINARY: u8 = 0x03;

/// The bytes that are hashed for `value`, where it can be a partition key.
pub open spec fn hashed_bytes(value: AttributeValue) -> Option<Seq<u8>> {
    match value {
        AttributeValue::S(s) => Some(seq![TYPE_STRING] + encode_utf8(s@)),
        AttributeValue::N(n) => Some(seq![TYPE_NUMBER] + encode_utf8(n@)),
        AttributeValue::B(b) => Some(seq![TYPE_BINARY] + b@),
        _ => None,
    }
}

/// The hash of `value`, where it can be a partition key.
pub open spec fn value_hash(value: AttributeValue) -> Option<u64> {
    match hashed_bytes(value) {
        Some(bytes) => Some(murmurhash3::murmur3(bytes)),
        None => None,
    }
}

fn hash_prefixed(prefix: u8, bytes: &[u8]) -> (r: u64)
    ensures
        r == murmurhash3::murmur3(seq![prefix] + bytes@),
{
    let mut data: Vec<u8> = Vec::new();
    data.push(prefix);
    let mut i: usize = 0;
    assert(data@ =~= seq![prefix] + bytes@.take(0));
    while i < bytes.len()
        invariant
            i <= bytes.len(),
            data@ == seq![prefix] + bytes@.take(i as int),
        decreases bytes.len() - i,
    {
        data.push(bytes[i]);
        i = i + 1;
        assert(data@ =~= seq![prefix] + bytes@.take(i as int));
    }
    assert(bytes@.take(i as int) =~= bytes@);
    murmurhash3::hash(data.as_slice())
}

/// Hashes a partition key value. `None` where the value cannot be a partition key.
pub fn hash_attribute_value(value: &AttributeValue) -> (r: Option<u64>)
    ensures
        r == value_hash(*value),
{
    match value {
        AttributeValue::S(s) => Some(hash_prefixed(TYPE_STRING, s.as_str().as_bytes())),
        AttributeValue::N(n) => Some(hash_prefixed(TYPE_NUMBER, n.as_str().as_bytes())),
        AttributeValue::B(b) => Some(hash_prefixed(TYPE_BINARY, b.as_slice())),
        _ => None,
    }
}

/// A string and a number, a number and a binary value, or a string and a
/// binary value never have the same bytes hashed.
pub proof fn law_types_hash_different_bytes(a: AttributeValue, b: AttributeValue)
    requires
        hashed_bytes(a) is Some,
        hashed_bytes(a) == hashed_bytes(b),
    ensures
        a is S <==> b is S,
        a is N <==> b is N,
        a is B <==> b is B,
{
    let bytes = hashed_bytes(a)->0;
    assert(bytes[0] == hashed_bytes(b)->0[0]);
}

/// Strings, numbers and binary values have a hash, and nothing else has one.
pub proof fn law_keys_have_a_hash(value: AttributeValue)
    ensures
        value_hash(value) is Some <==> value is S || value is N || value is B,
{
}

/// What is hashed gives the value back: a prefix for the type, and then every
/// byte of the value.
pub proof fn law_whole_value_is_hashed(value: AttributeValue)
    requires
        value is S || value is N || value is B,
    ensures
        hashed_bytes(value) matches Some(bytes) && {
            &&& value_hash(value) == Some(murmurhash3::murmur3(bytes))
            &&& bytes.len() > 0
            &&& match value {
                AttributeValue::S(s) => bytes[0] == 1 && bytes.skip(1) == encode_utf8(s@),
                AttributeValue::N(n) => bytes[0] == 2 && bytes.skip(1) == encode_utf8(n@),
                AttributeValue::B(b) => bytes[0] == 3 && bytes.skip(1) == b@,
                _ => false,
            }
        },
{
    let bytes = hashed_bytes(value)->0;
    match value {
        AttributeValue::S(s) => {
            assert(bytes.skip(1) =~= encode_utf8(s@));
        },
        AttributeValue::N(n) => {
            assert(bytes.skip(1) =~= encode_utf8(n@));
        },
        AttributeValue::B(b) => {
            assert(bytes.skip(1) =~= b@);
        },
        _ => {},
    }
}

} // verus!
