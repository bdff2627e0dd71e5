use alternator_driver::keyrouting::hasher::hash_attribute_value;
use alternator_driver::AttributeValue;

// The values are given as signed 64-bit numbers.
fn hash_eq(value: &AttributeValue, expected_signed: i64) {
    let actual = hash_attribute_value(value).expect("supported type");
    assert_eq!(
        actual as i64, expected_signed,
        "got {:#018x}, expected {:#018x}",
        actual, expected_signed as u64
    );
}

// ----- Strings (partition key supported) -----

#[test]
fn spec_string_hello() {
    hash_eq(&AttributeValue::S("hello".into()), 8815023923555918238);
}

#[test]
fn spec_string_empty() {
    hash_eq(&AttributeValue::S("".into()), 8849112093580131862);
}

#[test]
fn spec_string_user_123() {
    hash_eq(&AttributeValue::S("user_123".into()), -4025731529809423594);
}

#[test]
fn spec_string_unicode() {
    hash_eq(
        &AttributeValue::S("こんにちは".into()),
        -8746014667889746860,
    );
}

// ----- Numbers (partition key supported) -----

#[test]
fn spec_number_42() {
    hash_eq(&AttributeValue::N("42".into()), -5061732451827723051);
}

#[test]
fn spec_number_negative() {
    hash_eq(&AttributeValue::N("-12345".into()), 2496798676881075539);
}

#[test]
fn spec_number_decimal() {
    hash_eq(&AttributeValue::N("3.14159".into()), 2139945193071104172);
}

#[test]
fn spec_number_scientific() {
    hash_eq(&AttributeValue::N("1.23E10".into()), -8571981415737439826);
}

// ----- Binary (partition key supported) -----

#[test]
fn spec_binary_bytes() {
    hash_eq(
        &AttributeValue::B(vec![0x01, 0x02, 0x03]),
        5026299041734804437,
    );
}

#[test]
fn spec_binary_empty() {
    hash_eq(&AttributeValue::B(vec![]), 8244620721157455449);
}

#[test]
fn spec_binary_high_bytes() {
    hash_eq(
        &AttributeValue::B(vec![0xFF, 0x00, 0x80]),
        14533934253577680,
    );
}

// ----- Type collision prevention -----

#[test]
fn spec_string_12345_distinct_from_number_12345() {
    // Same bytes, different type prefix → different hash.
    hash_eq(&AttributeValue::S("12345".into()), -6122888897254035317);
    hash_eq(&AttributeValue::N("12345".into()), -3190731486301745196);
}

#[test]
fn spec_binary_12345_distinct_from_string() {
    hash_eq(
        &AttributeValue::B(b"12345".to_vec()),
        -3752463870508600385,
    );
}

// ----- Minimal-implementation behavior -----
// We do not support BOOL/NULL/SS/NS/BS/L/M. Verify they return None.

#[test]
fn unsupported_types_return_none() {
    assert!(hash_attribute_value(&AttributeValue::Bool(true)).is_none());
    assert!(hash_attribute_value(&AttributeValue::Null(true)).is_none());
    assert!(hash_attribute_value(&AttributeValue::Ss(vec!["a".into()])).is_none());
    assert!(hash_attribute_value(&AttributeValue::Ns(vec!["1".into()])).is_none());
    assert!(hash_attribute_value(&AttributeValue::Bs(vec![vec![0]])).is_none());
    assert!(hash_attribute_value(&AttributeValue::L(vec![])).is_none());
    assert!(hash_attribute_value(&AttributeValue::M(Default::default())).is_none());
}

#[test]
fn hasher_deterministic() {
    let v = AttributeValue::S("alice".into());
    assert_eq!(hash_attribute_value(&v), hash_attribute_value(&v));
}

