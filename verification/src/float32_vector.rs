//! Compact `FLOAT32VECTOR` transport marker encoding.
//!
//! Alternator's `FLOAT32VECTOR` attribute type has no equivalent among the
//! DynamoDB attribute values. A vector is therefore carried as an ordinary
//! binary value: a private magic prefix followed by big-endian single
//! precision values. Marker binaries are rewritten into
//! `{"FLOAT32VECTOR": [...]}` in outgoing request JSON, and `FLOAT32VECTOR`
//! response fields can be rewritten back into marker binaries. Binary values
//! that do not match the exact prefix and a payload of whole elements are
//! never taken for vectors.
//!
//! Elements are held by their IEEE 754 bits.

use crate::attribute_value::AttributeValue;
use crate::base64_text;
use crate::base64_text::{base64_decoded, base64_of, symbol};
use crate::json::{json_view, member, Json, JsonNumber, JsonV, NumberV};
use crate::text;
use crate::vector_response::{occurs, occurs_at};
use vstd::prelude::*;
use vstd::utf8::{encode_utf8, is_ascii_chars, is_ascii_chars_encode_utf8};

verus! {

/// The prefix that identifies a marker binary.
pub const MAGIC_PREFIX: [u8; 8] = [0xAC, 0x41, 0x56, 0x31, 0xF3, 0x2E, 0x00, 0x7F];

/// How many bytes of the prefix the signature is made of.
pub const SIGNATURE_BYTES: usize = 6;

/// The number of bytes of one element.
pub const ELEMENT: usize = 4;

/// Why a value is not a vector, or values cannot be encoded as one.
#[derive(Debug, Clone, Copy, PartialEq, Eq, Structural)]
pub enum Float32VectorError {
    /// The value is not binary at all.
    NotBinary,
    /// The binary value does not start with the marker's magic prefix.
    NotAMarker,
    /// The marker's payload does not hold whole elements.
    InvalidPayloadLength { len: usize },
    /// An element to be encoded is NaN or infinite, which JSON cannot represent.
    NonFiniteValue,
}

impl Float32VectorError {
    /// The error's message.
    pub fn message(&self) -> (r: String)
        ensures
            match *self {
                Float32VectorError::NotBinary => r@ == "value is not an AttributeValue::B"@,
                Float32VectorError::NotAMarker => r@
                    == "binary value is not a FLOAT32VECTOR marker"@,
                Float32VectorError::InvalidPayloadLength { len } => r@
                    == "FLOAT32VECTOR marker payload length "@ + text::decimal_of(len as nat)
                    + " is not a multiple of 4 bytes"@,
                Float32VectorError::NonFiniteValue => r@
                    == "FLOAT32VECTOR values must be finite (no NaN or infinity)"@,
            },
    {
        match self {
            Float32VectorError::NotBinary => "value is not an AttributeValue::B".to_owned(),
            Float32VectorError::NotAMarker => {
                "binary value is not a FLOAT32VECTOR marker".to_owned()
            },
            Float32VectorError::InvalidPayloadLength { len } => {
                let mut out = "FLOAT32VECTOR marker payload length ".to_owned();
                out.append(text::decimal(*len).as_str());
                out.append(" is not a multiple of 4 bytes");
                out
            },
            Float32VectorError::NonFiniteValue => {
                "FLOAT32VECTOR values must be finite (no NaN or infinity)".to_owned()
            },
        }
    }
}

/// The single precision value with these bits is neither NaN nor infinite.
pub open spec fn finite(bits: u32) -> bool {
    bits as int / 0x80_0000 % 256 != 255
}

/// The big-endian bytes of `v`.
pub open spec fn be_bytes(v: u32) -> Seq<u8> {
    seq![
        (v as int / 0x100_0000) as u8,
        (v as int / 0x1_0000 % 256) as u8,
        (v as int / 0x100 % 256) as u8,
        (v as int % 256) as u8,
    ]
}

/// The big-endian number at `at`.
pub open spec fn be_word(bytes: Seq<u8>, at: int) -> u32 {
    (bytes[at] as int * 0x100_0000 + bytes[at + 1] as int * 0x1_0000 + bytes[at + 2] as int * 0x100
        + bytes[at + 3] as int) as u32
}

/// The payload that holds `values`.
pub open spec fn payload_of(values: Seq<u32>) -> Seq<u8>
    decreases values.len(),
{
    if values.len() == 0 {
        Seq::empty()
    } else {
        payload_of(values.drop_last()) + be_bytes(values.last())
    }
}

/// The marker that holds `values`.
pub open spec fn marker_of(values: Seq<u32>) -> Seq<u8> {
    MAGIC_PREFIX@ + payload_of(values)
}

/// The bytes start with the magic prefix.
pub open spec fn has_prefix(bytes: Seq<u8>) -> bool {
    bytes.len() >= 8 && bytes.take(8) == MAGIC_PREFIX@
}

/// The bytes are a well-formed marker.
pub open spec fn is_marker(bytes: Seq<u8>) -> bool {
    has_prefix(bytes) && (bytes.len() - 8) % 4 == 0
}

/// The values that a marker holds.
pub open spec fn elements_of(bytes: Seq<u8>) -> Seq<u32> {
    Seq::new(((bytes.len() - 8) / 4) as nat, |i: int| be_word(bytes, 8 + 4 * i))
}

/// The text that the base64 form of every marker starts with.
pub open spec fn signature() -> Seq<char> {
    base64_of(MAGIC_PREFIX@.take(6))
}

/// What `AttributeValue` decodes to as a vector.
pub open spec fn vector_in(value: AttributeValue) -> Result<Seq<u32>, Float32VectorError> {
    match value {
        AttributeValue::B(bytes) => if is_marker(bytes@) {
            Ok(elements_of(bytes@))
        } else if !has_prefix(bytes@) {
            Err(Float32VectorError::NotAMarker)
        } else {
            Err(Float32VectorError::InvalidPayloadLength { len: (bytes@.len() - 8) as usize })
        },
        _ => Err(Float32VectorError::NotBinary),
    }
}

proof fn lemma_be_round_trip(v: u32)
    ensures
        be_bytes(v).len() == 4,
        be_word(be_bytes(v), 0) == v,
{
}

proof fn lemma_payload(values: Seq<u32>)
    ensures
        payload_of(values).len() == 4 * values.len(),
        forall|i: int|
            0 <= i < values.len() ==> #[trigger] be_word(payload_of(values), 4 * i) == values[i],
    decreases values.len(),
{
    if values.len() > 0 {
        let before = payload_of(values.drop_last());
        let all = payload_of(values);
        lemma_payload(values.drop_last());
        lemma_be_round_trip(values.last());
        assert forall|i: int| 0 <= i < values.len() implies #[trigger] be_word(all, 4 * i)
            == values[i] by {
            if i < values.len() - 1 {
                assert(be_word(before, 4 * i) == values.drop_last()[i]);
                assert(all[4 * i] == before[4 * i]);
                assert(all[4 * i + 1] == before[4 * i + 1]);
                assert(all[4 * i + 2] == before[4 * i + 2]);
                assert(all[4 * i + 3] == before[4 * i + 3]);
            } else {
                assert(all[4 * i] == be_bytes(values.last())[0]);
                assert(all[4 * i + 1] == be_bytes(values.last())[1]);
                assert(all[4 * i + 2] == be_bytes(values.last())[2]);
                assert(all[4 * i + 3] == be_bytes(values.last())[3]);
            }
        }
    }
}

/// A marker decodes to the values it was made of.
pub proof fn law_marker_round_trip(values: Seq<u32>)
    ensures
        is_marker(marker_of(values)),
        elements_of(marker_of(values)) == values,
{
    let m = marker_of(values);
    lemma_payload(values);
    assert(m.take(8) =~= MAGIC_PREFIX@);
    assert forall|i: int| 0 <= i < values.len() implies elements_of(m)[i] == values[i] by {
        assert(be_word(payload_of(values), 4 * i) == values[i]);
        assert(m[8 + 4 * i] == payload_of(values)[4 * i]);
        assert(m[8 + 4 * i + 1] == payload_of(values)[4 * i + 1]);
        assert(m[8 + 4 * i + 2] == payload_of(values)[4 * i + 2]);
        assert(m[8 + 4 * i + 3] == payload_of(values)[4 * i + 3]);
    }
    assert(elements_of(m) =~= values);
}

/// The base64 text of every marker starts with the signature, so a body
/// without the signature holds no marker.
pub proof fn law_signature_starts_every_marker(bytes: Seq<u8>)
    requires
        has_prefix(bytes),
    ensures
        signature().is_prefix_of(base64_of(bytes)),
        signature().len() == 8,
{
    let first = MAGIC_PREFIX@.take(6);
    assert(bytes.take(6) =~= bytes.take(8).take(6));
    assert(bytes =~= first + bytes.skip(6));
    base64_text::lemma_base64_prefix(first, bytes.skip(6));
    assert(base64_of(bytes).take(signature().len() as int) =~= signature());
    reveal_with_fuel(base64_of, 3);
    assert(first.skip(3).skip(3).len() == 0);
}

proof fn lemma_base64_is_ascii(bytes: Seq<u8>)
    ensures
        is_ascii_chars(base64_of(bytes)),
    decreases bytes.len(),
{
    if bytes.len() >= 3 {
        lemma_base64_is_ascii(bytes.skip(3));
        let (a, b, c) = (bytes[0] as int, bytes[1] as int, bytes[2] as int);
        let head = seq![
            symbol(a / 4),
            symbol(a % 4 * 16 + b / 16),
            symbol(b % 16 * 4 + c / 64),
            symbol(c % 64),
        ];
        let rest = base64_of(bytes.skip(3));
        assert(is_ascii_chars(head));
        assert forall|i: int| 0 <= i < (head + rest).len() implies (#[trigger] (head + rest)[i])
            as nat <= 0x7f by {
            if i < 4 {
                assert((head + rest)[i] == head[i]);
            } else {
                assert((head + rest)[i] == rest[i - 4]);
            }
        }
    }
}

/// A body that a marker stands in, in base64, has the signature in it, so no
/// marker is missed by looking for the signature alone.
pub proof fn law_marker_in_body_is_noticed(body: Seq<u8>, marker: Seq<u8>)
    requires
        has_prefix(marker),
        occurs(body, encode_utf8(base64_of(marker))),
    ensures
        occurs(body, encode_utf8(signature())),
{
    let whole = base64_of(marker);
    let sign = signature();
    law_signature_starts_every_marker(marker);
    lemma_base64_is_ascii(marker);
    lemma_base64_is_ascii(MAGIC_PREFIX@.take(6));
    is_ascii_chars_encode_utf8(whole);
    is_ascii_chars_encode_utf8(sign);
    let long = encode_utf8(whole);
    let short = encode_utf8(sign);
    let at = choose|at: int| occurs_at(body, long, at);
    assert(short.len() == sign.len() && long.len() == whole.len());
    assert forall|i: int| 0 <= i < short.len() implies body[at + i] == short[i] by {
        assert(body.subrange(at, at + long.len())[i] == long[i]);
        assert(whole.take(sign.len() as int)[i] == sign[i]);
    }
    assert(body.subrange(at, at + short.len()) =~= short);
    assert(occurs_at(body, short, at));
}

/// Constructs and recognises marker binaries.
#[derive(Debug, Clone, Copy)]
pub struct Float32Vector;

impl Float32Vector {
    /// Encodes `values` as a marker binary.
    pub fn to_attribute_value(values: &[u32]) -> (r: Result<AttributeValue, Float32VectorError>)
        ensures
            r is Ok <==> forall|i: int| 0 <= i < values@.len() ==> finite(#[trigger] values@[i]),
            r matches Ok(v) ==> v is B && v->B_0@ == marker_of(values@),
            r matches Err(e) ==> e == Float32VectorError::NonFiniteValue,
    {
        let mut i: usize = 0;
        while i < values.len()
            invariant
                i <= values.len(),
                forall|j: int| 0 <= j < i ==> finite(#[trigger] values@[j]),
            decreases values.len() - i,
        {
            if values[i] / 0x80_0000 % 256 == 255 {
                return Err(Float32VectorError::NonFiniteValue);
            }
            i = i + 1;
        }
        Ok(AttributeValue::B(Self::encode_marker(values)))
    }

    /// The marker of `values`.
    fn encode_marker(values: &[u32]) -> (r: Vec<u8>)
        ensures
            r@ == marker_of(values@),
    {
        let mut bytes: Vec<u8> = Vec::with_capacity(8);
        let prefix: [u8; 8] = MAGIC_PREFIX;
        let mut k: usize = 0;
        while k < 8
            invariant
                k <= 8,
                prefix@ == MAGIC_PREFIX@,
                bytes@ == MAGIC_PREFIX@.take(k as int),
            decreases 8 - k,
        {
            bytes.push(prefix[k]);
            k = k + 1;
            assert(bytes@ =~= MAGIC_PREFIX@.take(k as int));
        }
        assert(bytes@ =~= MAGIC_PREFIX@ + payload_of(values@.take(0)));
        let mut i: usize = 0;
        while i < values.len()
            invariant
                i <= values.len(),
                bytes@ == MAGIC_PREFIX@ + payload_of(values@.take(i as int)),
            decreases values.len() - i,
        {
            let v: u32 = values[i];
            let ghost done = bytes@;
            bytes.push((v / 0x100_0000) as u8);
            bytes.push((v / 0x1_0000 % 256) as u8);
            bytes.push((v / 0x100 % 256) as u8);
            bytes.push((v % 256) as u8);
            i = i + 1;
            assert(values@.take(i as int).drop_last() =~= values@.take(i - 1));
            assert(bytes@ =~= done + be_bytes(v));
            assert(bytes@ =~= MAGIC_PREFIX@ + payload_of(values@.take(i as int)));
        }
        assert(values@.take(i as int) =~= values@);
        bytes
    }

    /// Whether `bytes` starts with the magic prefix.
    fn starts_with_prefix(bytes: &[u8]) -> (r: bool)
        ensures
            r == has_prefix(bytes@),
    {
        if bytes.len() < 8 {
            return false;
        }
        let prefix: [u8; 8] = MAGIC_PREFIX;
        let mut k: usize = 0;
        while k < 8
            invariant
                k <= 8 <= bytes.len(),
                prefix@ == MAGIC_PREFIX@,
                forall|j: int| 0 <= j < k ==> bytes@[j] == MAGIC_PREFIX@[j],
            decreases 8 - k,
        {
            if bytes[k] != prefix[k] {
                assert(bytes@.take(8)[k as int] != MAGIC_PREFIX@[k as int]);
                return false;
            }
            k = k + 1;
        }
        assert(bytes@.take(8) =~= MAGIC_PREFIX@);
        true
    }

    /// Whether `bytes` is a well-formed marker.
    pub fn is_marker_bytes(bytes: &[u8]) -> (r: bool)
        ensures
            r == is_marker(bytes@),
    {
        Self::starts_with_prefix(bytes) && (bytes.len() - 8) % ELEMENT == 0
    }

    /// Decodes a marker into the values it holds.
    pub fn decode_marker_bytes(bytes: &[u8]) -> (r: Vec<u32>)
        requires
            bytes@.len() >= 8,
        ensures
            r@ == elements_of(bytes@),
    {
        let total: usize = bytes.len();
        let n: usize = (total - 8) / ELEMENT;
        let mut out: Vec<u32> = Vec::with_capacity(n);
        let mut i: usize = 0;
        while i < n
            invariant
                i <= n,
                n == (total - 8) / 4,
                8 <= total == bytes@.len(),
                out@ == elements_of(bytes@).take(i as int),
            decreases n - i,
        {
            assert(8 + 4 * i + 4 <= total);
            let at: usize = 8 + 4 * i;
            let v: u32 = bytes[at] as u32 * 0x100_0000 + bytes[at + 1] as u32 * 0x1_0000
                + bytes[at + 2] as u32 * 0x100 + bytes[at + 3] as u32;
            out.push(v);
            i = i + 1;
            assert(out@ =~= elements_of(bytes@).take(i as int));
        }
        assert(out@ =~= elements_of(bytes@));
        out
    }
}

/// The text that the base64 form of every marker starts with, for a quick
/// test before a document is read.
pub fn quick_base64_signature() -> (r: String)
    ensures
        r@ == signature(),
{
    let prefix: [u8; 8] = MAGIC_PREFIX;
    let mut first: Vec<u8> = Vec::new();
    let mut k: usize = 0;
    while k < SIGNATURE_BYTES
        invariant
            k <= 6,
            prefix@ == MAGIC_PREFIX@,
            first@ == MAGIC_PREFIX@.take(k as int),
        decreases 6 - k,
    {
        first.push(prefix[k]);
        k = k + 1;
        assert(first@ =~= MAGIC_PREFIX@.take(k as int));
    }
    base64_text::encode(first.as_slice())
}

impl AttributeValue {
    /// Whether this value is a well-formed marker.
    pub fn is_float32_vector(&self) -> (r: bool)
        ensures
            r == (vector_in(*self) is Ok),
    {
        match self {
            AttributeValue::B(bytes) => Float32Vector::is_marker_bytes(bytes.as_slice()),
            _ => false,
        }
    }

    /// Decodes this value as a marker.
    pub fn float32_vector(&self) -> (r: Result<Vec<u32>, Float32VectorError>)
        ensures
            match r {
                Ok(values) => vector_in(*self) == Ok::<Seq<u32>, Float32VectorError>(values@),
                Err(e) => vector_in(*self) == Err::<Seq<u32>, Float32VectorError>(e),
            },
    {
        match self {
            AttributeValue::B(bytes) => {
                let b = bytes.as_slice();
                if Float32Vector::is_marker_bytes(b) {
                    Ok(Float32Vector::decode_marker_bytes(b))
                } else if !Float32Vector::starts_with_prefix(b) {
                    Err(Float32VectorError::NotAMarker)
                } else {
                    Err(Float32VectorError::InvalidPayloadLength { len: b.len() - 8 })
                }
            },
            _ => Err(Float32VectorError::NotBinary),
        }
    }
}

/// The object with the one member `name`.
pub open spec fn single_member(name: Seq<char>, value: JsonV) -> JsonV {
    JsonV::Object(seq![(name, value)])
}

/// The member `name` of an object that has no other.
pub open spec fn only_member(j: JsonV, name: Seq<char>) -> Option<JsonV> {
    match j {
        JsonV::Object(members) => if members.len() == 1 && members[0].0 == name {
            Some(members[0].1)
        } else {
            None
        },
        _ => None,
    }
}

/// The marker that the attribute value `{"B": "..."}` holds.
pub open spec fn marker_in(j: JsonV) -> Option<Seq<u8>> {
    match only_member(j, "B"@) {
        Some(JsonV::Text(t)) => match base64_decoded(t) {
            Some(bytes) => if is_marker(bytes) {
                Some(bytes)
            } else {
                None
            },
            None => None,
        },
        _ => None,
    }
}

/// Single precision values as a JSON array.
pub open spec fn singles(values: Seq<u32>) -> JsonV {
    JsonV::Array(Seq::new(values.len(), |i: int| JsonV::Number(NumberV::Single(values[i]))))
}

/// The document with every marker `{"B": "..."}` replaced by
/// `{"FLOAT32VECTOR": [...]}` and everything else as it is.
pub open spec fn request_rewritten(j: JsonV) -> JsonV
    decreases j,
{
    if marker_in(j) is Some {
        single_member("FLOAT32VECTOR"@, singles(elements_of(marker_in(j)->0)))
    } else {
        match j {
            JsonV::Array(items) => JsonV::Array(
                Seq::new(
                    items.len(),
                    |i: int|
                        if 0 <= i < items.len() {
                            request_rewritten(items[i])
                        } else {
                            JsonV::Null
                        },
                ),
            ),
            JsonV::Object(members) => JsonV::Object(
                Seq::new(
                    members.len(),
                    |i: int|
                        if 0 <= i < members.len() {
                            (members[i].0, request_rewritten(members[i].1))
                        } else {
                            (Seq::empty(), JsonV::Null)
                        },
                ),
            ),
            _ => j,
        }
    }
}

/// The document holds a marker somewhere.
pub open spec fn holds_marker(j: JsonV) -> bool
    decreases j,
{
    marker_in(j) is Some || match j {
        JsonV::Array(items) => exists|i: int|
            0 <= i < items.len() && holds_marker(#[trigger] items[i]),
        JsonV::Object(members) => exists|i: int|
            0 <= i < members.len() && holds_marker((#[trigger] members[i]).1),
        _ => false,
    }
}

/// A request is changed by the rewrite exactly when it holds a marker.
pub proof fn law_request_rewrite_changes_markers_only(j: JsonV)
    ensures
        request_rewritten(j) == j <==> !holds_marker(j),
    decreases j,
{
    if marker_in(j) is Some {
        reveal_strlit("B");
        reveal_strlit("FLOAT32VECTOR");
        assert("B"@.len() != "FLOAT32VECTOR"@.len());
        assert(request_rewritten(j)->Object_0[0].0 == "FLOAT32VECTOR"@);
        assert(j->Object_0[0].0 == "B"@);
    } else {
        match j {
            JsonV::Array(items) => {
                let after = request_rewritten(j)->Array_0;
                assert forall|i: int| 0 <= i < items.len() implies (after[i] == items[i]
                    <==> !holds_marker(items[i])) by {
                    law_request_rewrite_changes_markers_only(items[i]);
                }
                if !holds_marker(j) {
                    assert(after =~= items);
                }
            },
            JsonV::Object(members) => {
                let after = request_rewritten(j)->Object_0;
                assert forall|i: int| 0 <= i < members.len() implies (after[i] == members[i]
                    <==> !holds_marker(members[i].1)) by {
                    law_request_rewrite_changes_markers_only(members[i].1);
                }
                if !holds_marker(j) {
                    assert(after =~= members);
                }
            },
            _ => {},
        }
    }
}

/// Rewriting a request a second time changes nothing.
pub proof fn law_request_rewrite_idempotent(j: JsonV)
    ensures
        request_rewritten(request_rewritten(j)) == request_rewritten(j),
    decreases j,
{
    law_request_rewrite_leaves_no_marker(j);
    law_request_rewrite_changes_markers_only(request_rewritten(j));
}

/// A rewritten request holds no marker.
pub proof fn law_request_rewrite_leaves_no_marker(j: JsonV)
    ensures
        !holds_marker(request_rewritten(j)),
    decreases j,
{
    let after = request_rewritten(j);
    reveal_strlit("B");
    reveal_strlit("FLOAT32VECTOR");
    if marker_in(j) is Some {
        let values = singles(elements_of(marker_in(j)->0));
        assert("B"@.len() != "FLOAT32VECTOR"@.len());
        assert(after->Object_0[0] == ("FLOAT32VECTOR"@, values));
        assert forall|i: int| 0 <= i < values->Array_0.len() implies !holds_marker(
            #[trigger] values->Array_0[i],
        ) by {
            assert(values->Array_0[i] is Number);
        }
        assert(!holds_marker(values));
    } else {
        match j {
            JsonV::Array(items) => {
                assert forall|i: int| 0 <= i < items.len() implies !holds_marker(
                    #[trigger] after->Array_0[i],
                ) by {
                    law_request_rewrite_leaves_no_marker(items[i]);
                }
            },
            JsonV::Object(members) => {
                assert forall|i: int| 0 <= i < members.len() implies !holds_marker(
                    (#[trigger] after->Object_0[i]).1,
                ) by {
                    law_request_rewrite_leaves_no_marker(members[i].1);
                }
                if marker_in(after) is Some {
                    let inner = members[0].1;
                    assert(after->Object_0[0] == (members[0].0, request_rewritten(inner)));
                    assert(request_rewritten(inner) is Text);
                    assert(inner is Text);
                    assert(only_member(j, "B"@) == Some(inner));
                    assert(request_rewritten(inner) == inner);
                }
            },
            _ => {},
        }
    }
}

/// Makes the object with the one member `name`.
pub(crate) fn one_member(name: &str, value: Json) -> (r: Json)
    ensures
        r@ == single_member(name@, value@),
{
    let mut members: Vec<(String, Json)> = Vec::new();
    members.push((name.to_owned(), value));
    let r = Json::Object(members);
    assert(r@->Object_0 =~= seq![(name@, value@)]);
    r
}

/// The marker that an attribute value in JSON holds.
fn read_marker(value: &Json) -> (r: Option<Vec<u8>>)
    ensures
        match r {
            Some(bytes) => marker_in(value@) == Some(bytes@),
            None => marker_in(value@) is None,
        },
{
    match value {
        Json::Object(members) => {
            if members.len() != 1 {
                return None;
            }
            assert(value@->Object_0[0] == (members@[0].0@, json_view(members@[0].1)));
            if !text::same(members[0].0.as_str(), "B") {
                return None;
            }
            match &members[0].1 {
                Json::Text(t) => match base64_text::decode(t.as_str()) {
                    Some(bytes) => if Float32Vector::is_marker_bytes(bytes.as_slice()) {
                        Some(bytes)
                    } else {
                        None
                    },
                    None => None,
                },
                _ => None,
            }
        },
        _ => None,
    }
}

fn write_singles(values: &Vec<u32>) -> (r: Json)
    ensures
        r@ == singles(values@),
{
    let mut out: Vec<Json> = Vec::new();
    let mut i: usize = 0;
    while i < values.len()
        invariant
            i <= values.len(),
            out.len() == i,
            forall|k: int| 0 <= k < i ==> json_view(out@[k]) == JsonV::Number(
                NumberV::Single(values@[k]),
            ),
        decreases values.len() - i,
    {
        out.push(Json::Number(JsonNumber::Single(values[i])));
        i = i + 1;
    }
    let r = Json::Array(out);
    assert(r@->Array_0 =~= singles(values@)->Array_0);
    r
}

fn rewritten_request(value: &Json) -> (r: Json)
    ensures
        r@ == request_rewritten(value@),
    decreases *value,
{
    if let Some(bytes) = read_marker(value) {
        let values = Float32Vector::decode_marker_bytes(bytes.as_slice());
        return one_member("FLOAT32VECTOR", write_singles(&values));
    }
    match value {
        Json::Object(members) => {
            let mut out: Vec<(String, Json)> = Vec::new();
            let mut i: usize = 0;
            while i < members.len()
                invariant
                    i <= members.len(),
                    out.len() == i,
                    *value == Json::Object(*members),
                    forall|k: int|
                        0 <= k < i ==> (#[trigger] out@[k]).0@ == members@[k].0@ && json_view(
                            out@[k].1,
                        ) == request_rewritten(json_view(members@[k].1)),
                decreases members.len() - i,
            {
                let inner = &members[i].1;
                assert(decreases_to!(*value => value->Object_0));
                assert(decreases_to!(*members => members[i as int]));
                out.push((members[i].0.clone(), rewritten_request(inner)));
                i = i + 1;
            }
            let r = Json::Object(out);
            assert(r@->Object_0 =~= request_rewritten(value@)->Object_0);
            r
        },
        Json::Array(items) => {
            let mut out: Vec<Json> = Vec::new();
            let mut i: usize = 0;
            while i < items.len()
                invariant
                    i <= items.len(),
                    out.len() == i,
                    *value == Json::Array(*items),
                    forall|k: int|
                        0 <= k < i ==> json_view(#[trigger] out@[k]) == request_rewritten(
                            json_view(items@[k]),
                        ),
                decreases items.len() - i,
            {
                assert(decreases_to!(*value => value->Array_0));
                assert(decreases_to!(*items => items[i as int]));
                out.push(rewritten_request(&items[i]));
                i = i + 1;
            }
            let r = Json::Array(out);
            assert(r@->Array_0 =~= request_rewritten(value@)->Array_0);
            r
        },
        _ => value.duplicate(),
    }
}

/// Whether a document holds a marker somewhere.
pub fn contains_marker(value: &Json) -> (r: bool)
    ensures
        r == holds_marker(value@),
    decreases *value,
{
    if read_marker(value).is_some() {
        return true;
    }
    match value {
        Json::Object(members) => {
            let mut i: usize = 0;
            while i < members.len()
                invariant
                    i <= members.len(),
                    *value == Json::Object(*members),
                    forall|k: int|
                        0 <= k < i ==> !holds_marker((#[trigger] value@->Object_0[k]).1),
                decreases members.len() - i,
            {
                let inner = &members[i].1;
                assert(decreases_to!(*value => value->Object_0));
                assert(decreases_to!(*members => members[i as int]));
                assert(value@->Object_0[i as int].1 == json_view(*inner));
                if contains_marker(inner) {
                    return true;
                }
                i = i + 1;
            }
            false
        },
        Json::Array(items) => {
            let mut i: usize = 0;
            while i < items.len()
                invariant
                    i <= items.len(),
                    *value == Json::Array(*items),
                    forall|k: int| 0 <= k < i ==> !holds_marker(#[trigger] value@->Array_0[k]),
                decreases items.len() - i,
            {
                assert(decreases_to!(*value => value->Array_0));
                assert(decreases_to!(*items => items[i as int]));
                assert(value@->Array_0[i as int] == json_view(items@[i as int]));
                if contains_marker(&items[i]) {
                    return true;
                }
                i = i + 1;
            }
            false
        },
        _ => false,
    }
}

/// Replaces every marker `{"B": "..."}` of `value` by
/// `{"FLOAT32VECTOR": [...]}`.
pub fn rewrite_request_json_markers(value: &mut Json)
    ensures
        final(value)@ == request_rewritten(old(value)@),
{
    let r = rewritten_request(value);
    *value = r;
}

/// The number was read from a document.
pub open spec fn is_read(j: JsonV) -> bool {
    j matches JsonV::Number(n) && n is Read
}

/// The elements of `{"FLOAT32VECTOR": [...]}`, where all of them are numbers
/// that were read.
pub open spec fn vector_numbers(j: JsonV) -> Option<Seq<NumberV>> {
    match only_member(j, "FLOAT32VECTOR"@) {
        Some(JsonV::Array(items)) => if forall|i: int|
            0 <= i < items.len() ==> is_read(#[trigger] items[i]) {
            Some(Seq::new(items.len(), |i: int| items[i]->Number_0))
        } else {
            None
        },
        _ => None,
    }
}

/// The single precision values nearest to the numbers. A number beyond single
/// precision has an infinity.
pub open spec fn single_bits_of(numbers: Seq<NumberV>) -> Seq<u32> {
    Seq::new(numbers.len(), |i: int| numbers[i]->single_bits)
}

/// A vector as a list of `{"N": "..."}`.
pub open spec fn number_list(numbers: Seq<NumberV>) -> JsonV {
    JsonV::Array(
        Seq::new(
            numbers.len(),
            |i: int| single_member("N"@, JsonV::Text(numbers[i]->decimal)),
        ),
    )
}

/// What a vector of a response is replaced by: a marker `{"B": "..."}` where
/// vectors are preserved, else a list `{"L": [{"N": "..."}, ...]}`.
pub open spec fn vector_replaced(numbers: Seq<NumberV>, preserve: bool) -> JsonV {
    if preserve {
        single_member("B"@, JsonV::Text(base64_of(marker_of(single_bits_of(numbers)))))
    } else {
        single_member("L"@, number_list(numbers))
    }
}

/// The document with every `{"FLOAT32VECTOR": [...]}` replaced and everything
/// else as it is.
pub open spec fn response_rewritten(j: JsonV, preserve: bool) -> JsonV
    decreases j,
{
    if vector_numbers(j) is Some {
        vector_replaced(vector_numbers(j)->0, preserve)
    } else {
        match j {
            JsonV::Array(items) => JsonV::Array(
                Seq::new(
                    items.len(),
                    |i: int|
                        if 0 <= i < items.len() {
                            response_rewritten(items[i], preserve)
                        } else {
                            JsonV::Null
                        },
                ),
            ),
            JsonV::Object(members) => JsonV::Object(
                Seq::new(
                    members.len(),
                    |i: int|
                        if 0 <= i < members.len() {
                            (members[i].0, response_rewritten(members[i].1, preserve))
                        } else {
                            (Seq::empty(), JsonV::Null)
                        },
                ),
            ),
            _ => j,
        }
    }
}

/// The document holds a vector somewhere.
pub open spec fn holds_vector(j: JsonV) -> bool
    decreases j,
{
    vector_numbers(j) is Some || match j {
        JsonV::Array(items) => exists|i: int|
            0 <= i < items.len() && holds_vector(#[trigger] items[i]),
        JsonV::Object(members) => exists|i: int|
            0 <= i < members.len() && holds_vector((#[trigger] members[i]).1),
        _ => false,
    }
}

/// A response without vectors is left as it is: ordinary lists and binaries
/// are never taken for vectors.
pub proof fn law_response_rewrite_leaves_others(j: JsonV, preserve: bool)
    requires
        !holds_vector(j),
    ensures
        response_rewritten(j, preserve) == j,
    decreases j,
{
    match j {
        JsonV::Array(items) => {
            assert forall|i: int| 0 <= i < items.len() implies response_rewritten(
                #[trigger] items[i],
                preserve,
            ) == items[i] by {
                law_response_rewrite_leaves_others(items[i], preserve);
            }
            assert(response_rewritten(j, preserve)->Array_0 =~= items);
        },
        JsonV::Object(members) => {
            assert forall|i: int| 0 <= i < members.len() implies response_rewritten(
                (#[trigger] members[i]).1,
                preserve,
            ) == members[i].1 by {
                law_response_rewrite_leaves_others(members[i].1, preserve);
            }
            assert(response_rewritten(j, preserve)->Object_0 =~= members);
        },
        _ => {},
    }
}

/// The document with its vectors in single precision and everything else as
/// it is.
pub open spec fn in_single_precision(j: JsonV) -> JsonV
    decreases j,
{
    if vector_numbers(j) is Some {
        single_member("FLOAT32VECTOR"@, singles(single_bits_of(vector_numbers(j)->0)))
    } else {
        match j {
            JsonV::Array(items) => JsonV::Array(
                Seq::new(
                    items.len(),
                    |i: int|
                        if 0 <= i < items.len() {
                            in_single_precision(items[i])
                        } else {
                            JsonV::Null
                        },
                ),
            ),
            JsonV::Object(members) => JsonV::Object(
                Seq::new(
                    members.len(),
                    |i: int|
                        if 0 <= i < members.len() {
                            (members[i].0, in_single_precision(members[i].1))
                        } else {
                            (Seq::empty(), JsonV::Null)
                        },
                ),
            ),
            _ => j,
        }
    }
}

/// What was preserved in a response can be written back: a document whose
/// vectors were preserved is sent as the same document, with the same vectors
/// at the same places. The document has no markers of its own, which would be
/// sent as vectors too.
pub proof fn law_preserved_vectors_are_written_back(j: JsonV)
    requires
        !holds_marker(j),
    ensures
        request_rewritten(response_rewritten(j, true)) == in_single_precision(j),
    decreases j,
{
    let sent = response_rewritten(j, true);
    if vector_numbers(j) is Some {
        let values = single_bits_of(vector_numbers(j)->0);
        base64_text::lemma_decoded(marker_of(values));
        law_marker_round_trip(values);
        assert(only_member(sent, "B"@) == Some(JsonV::Text(base64_of(marker_of(values)))));
    } else {
        match j {
            JsonV::Array(items) => {
                assert forall|i: int| 0 <= i < items.len() implies request_rewritten(
                    #[trigger] sent->Array_0[i],
                ) == in_single_precision(items[i]) by {
                    assert(!holds_marker(items[i]));
                    law_preserved_vectors_are_written_back(items[i]);
                }
                assert(request_rewritten(sent)->Array_0 =~= in_single_precision(j)->Array_0);
            },
            JsonV::Object(members) => {
                if marker_in(sent) is Some {
                    let inner = members[0].1;
                    assert(sent->Object_0[0] == (members[0].0, response_rewritten(inner, true)));
                    assert(response_rewritten(inner, true) is Text);
                    assert(inner is Text);
                    assert(only_member(j, "B"@) == Some(inner));
                    assert(response_rewritten(inner, true) == inner);
                }
                assert forall|i: int| 0 <= i < members.len() implies request_rewritten(
                    (#[trigger] sent->Object_0[i]).1,
                ) == in_single_precision(members[i].1) by {
                    assert(!holds_marker(members[i].1));
                    law_preserved_vectors_are_written_back(members[i].1);
                }
                assert(request_rewritten(sent)->Object_0 =~= in_single_precision(j)->Object_0);
            },
            _ => {},
        }
    }
}

/// The elements of a vector in JSON: for each number its single precision
/// bits and its decimal form.
fn read_vector(value: &Json) -> (r: Option<(Vec<u32>, Vec<String>)>)
    ensures
        r is Some <==> vector_numbers(value@) is Some,
        r matches Some((bits, decimals)) ==> {
            let numbers = vector_numbers(value@)->0;
            &&& bits@ == single_bits_of(numbers)
            &&& decimals@.len() == numbers.len()
            &&& forall|i: int|
                0 <= i < numbers.len() ==> (#[trigger] decimals@[i])@ == numbers[i]->decimal
        },
{
    match value {
        Json::Object(members) => {
            if members.len() != 1 {
                return None;
            }
            assert(value@->Object_0[0] == (members@[0].0@, json_view(members@[0].1)));
            if !text::same(members[0].0.as_str(), "FLOAT32VECTOR") {
                return None;
            }
            match &members[0].1 {
                Json::Array(items) => {
                    let ghost viewed = json_view(members@[0].1)->Array_0;
                    let mut bits: Vec<u32> = Vec::new();
                    let mut decimals: Vec<String> = Vec::new();
                    let mut i: usize = 0;
                    while i < items.len()
                        invariant
                            i <= items.len(),
                            bits.len() == i,
                            decimals.len() == i,
                            viewed == json_view(Json::Array(*items))->Array_0,
                            only_member(value@, "FLOAT32VECTOR"@) == Some(JsonV::Array(viewed)),
                            forall|k: int|
                                0 <= k < i ==> is_read(#[trigger] viewed[k]) && bits@[k]
                                    == viewed[k]->Number_0->single_bits && decimals@[k]@
                                    == viewed[k]->Number_0->decimal,
                        decreases items.len() - i,
                    {
                        assert(viewed[i as int] == json_view(items@[i as int]));
                        match &items[i] {
                            Json::Number(JsonNumber::Read { single_bits, decimal, .. }) => {
                                bits.push(*single_bits);
                                decimals.push(decimal.clone());
                            },
                            _ => {
                                assert(!is_read(viewed[i as int]));
                                return None;
                            },
                        }
                        i = i + 1;
                    }
                    assert(bits@ =~= single_bits_of(vector_numbers(value@)->0));
                    Some((bits, decimals))
                },
                _ => None,
            }
        },
        _ => None,
    }
}

fn write_number_list(decimals: &Vec<String>) -> (r: Json)
    ensures
        r@ is Array,
        r@->Array_0.len() == decimals@.len(),
        forall|i: int|
            0 <= i < decimals@.len() ==> #[trigger] r@->Array_0[i] == single_member(
                "N"@,
                JsonV::Text(decimals@[i]@),
            ),
{
    let mut out: Vec<Json> = Vec::new();
    let mut i: usize = 0;
    while i < decimals.len()
        invariant
            i <= decimals.len(),
            out.len() == i,
            forall|k: int|
                0 <= k < i ==> json_view(#[trigger] out@[k]) == single_member(
                    "N"@,
                    JsonV::Text(decimals@[k]@),
                ),
        decreases decimals.len() - i,
    {
        out.push(one_member("N", Json::Text(decimals[i].clone())));
        i = i + 1;
    }
    Json::Array(out)
}

fn replaced_vector(bits: Vec<u32>, decimals: Vec<String>, preserve: bool) -> (r: Json)
    ensures
        forall|numbers: Seq<NumberV>|
            #![trigger vector_replaced(numbers, preserve)]
            bits@ == single_bits_of(numbers) && decimals@.len() == numbers.len() && (forall|i: int|
                0 <= i < numbers.len() ==> (#[trigger] decimals@[i])@ == numbers[i]->decimal)
                ==> r@ == vector_replaced(numbers, preserve),
{
    if preserve {
        let bytes = Float32Vector::encode_marker(bits.as_slice());
        one_member("B", Json::Text(base64_text::encode(bytes.as_slice())))
    } else {
        let list = write_number_list(&decimals);
        proof {
            assert forall|numbers: Seq<NumberV>|
                bits@ == single_bits_of(numbers) && decimals@.len() == numbers.len() && (forall|
                    i: int,
                |
                    0 <= i < numbers.len() ==> (#[trigger] decimals@[i])@
                        == numbers[i]->decimal) implies list@ == number_list(numbers) by {
                assert(list@->Array_0 =~= number_list(numbers)->Array_0);
            }
        }
        one_member("L", list)
    }
}

fn rewritten_response(value: &Json, preserve: bool) -> (r: Json)
    ensures
        r@ == response_rewritten(value@, preserve),
    decreases *value,
{
    if let Some((bits, decimals)) = read_vector(value) {
        return replaced_vector(bits, decimals, preserve);
    }
    match value {
        Json::Object(members) => {
            let mut out: Vec<(String, Json)> = Vec::new();
            let mut i: usize = 0;
            while i < members.len()
                invariant
                    i <= members.len(),
                    out.len() == i,
                    *value == Json::Object(*members),
                    vector_numbers(value@) is None,
                    forall|k: int|
                        0 <= k < i ==> (#[trigger] out@[k]).0@ == members@[k].0@ && json_view(
                            out@[k].1,
                        ) == response_rewritten(json_view(members@[k].1), preserve),
                decreases members.len() - i,
            {
                let inner = &members[i].1;
                assert(decreases_to!(*value => value->Object_0));
                assert(decreases_to!(*members => members[i as int]));
                assert(value@->Object_0[i as int].1 == json_view(*inner));
                out.push((members[i].0.clone(), rewritten_response(inner, preserve)));
                i = i + 1;
            }
            let r = Json::Object(out);
            assert(r@->Object_0 =~= response_rewritten(value@, preserve)->Object_0);
            r
        },
        Json::Array(items) => {
            let mut out: Vec<Json> = Vec::new();
            let mut i: usize = 0;
            while i < items.len()
                invariant
                    i <= items.len(),
                    out.len() == i,
                    *value == Json::Array(*items),
                    forall|k: int|
                        0 <= k < i ==> json_view(#[trigger] out@[k]) == response_rewritten(
                            json_view(items@[k]),
                            preserve,
                        ),
                decreases items.len() - i,
            {
                assert(decreases_to!(*value => value->Array_0));
                assert(decreases_to!(*items => items[i as int]));
                assert(value@->Array_0[i as int] == json_view(items@[i as int]));
                out.push(rewritten_response(&items[i], preserve));
                i = i + 1;
            }
            let r = Json::Array(out);
            assert(r@->Array_0 =~= response_rewritten(value@, preserve)->Array_0);
            r
        },
        _ => value.duplicate(),
    }
}

/// Replaces every `{"FLOAT32VECTOR": [...]}` of `value`: by a standard list
/// `{"L": [{"N": "..."}, ...]}`, or by a marker `{"B": "..."}` that can be
/// written back unchanged where `preserve` is set. An element beyond single
/// precision is preserved as an infinity.
pub fn rewrite_response_json_markers(value: &mut Json, preserve: bool)
    ensures
        final(value)@ == response_rewritten(old(value)@, preserve),
{
    let r = rewritten_response(value, preserve);
    *value = r;
}

/// The value is a vector in one of the forms that a search takes: binary, a
/// number, or a list of such values.
pub open spec fn is_query_value(value: AttributeValue) -> bool
    decreases value,
{
    match value {
        AttributeValue::B(_) => true,
        AttributeValue::N(_) => true,
        AttributeValue::L(values) => forall|i: int|
            0 <= i < values@.len() ==> is_query_value(#[trigger] values@[i]),
        _ => false,
    }
}

/// The JSON form of such a value.
pub open spec fn query_json(value: AttributeValue) -> JsonV
    decreases value,
{
    match value {
        AttributeValue::B(bytes) => single_member("B"@, JsonV::Text(base64_of(bytes@))),
        AttributeValue::N(number) => single_member("N"@, JsonV::Text(number@)),
        AttributeValue::L(values) => single_member(
            "L"@,
            JsonV::Array(
                Seq::new(
                    values@.len(),
                    |i: int|
                        if 0 <= i < values@.len() {
                            query_json(values@[i])
                        } else {
                            JsonV::Null
                        },
                ),
            ),
        ),
        _ => JsonV::Null,
    }
}

/// Converts a query vector into its JSON form.
pub fn attribute_value_to_json(value: &AttributeValue) -> (r: Json)
    requires
        is_query_value(*value),
    ensures
        r@ == query_json(*value),
    decreases *value,
{
    match value {
        AttributeValue::B(bytes) => one_member("B", Json::Text(base64_text::encode(bytes.as_slice()))),
        AttributeValue::N(number) => one_member("N", Json::Text(number.clone())),
        AttributeValue::L(values) => {
            let mut out: Vec<Json> = Vec::new();
            let mut i: usize = 0;
            while i < values.len()
                invariant
                    i <= values.len(),
                    out.len() == i,
                    *value == AttributeValue::L(*values),
                    is_query_value(*value),
                    forall|k: int|
                        0 <= k < i ==> json_view(#[trigger] out@[k]) == query_json(values@[k]),
                decreases values.len() - i,
            {
                assert(decreases_to!(*value => value->L_0));
                assert(decreases_to!(*values => values[i as int]));
                assert(is_query_value(values@[i as int]));
                out.push(attribute_value_to_json(&values[i]));
                i = i + 1;
            }
            let list = Json::Array(out);
            assert(list@->Array_0 =~= query_json(*value)->Object_0[0].1->Array_0);
            one_member("L", list)
        },
        _ => Json::Null,
    }
}

/// An element is written with its most significant byte first, and all its bits
/// are.
pub proof fn law_elements_are_big_endian(v: u32)
    ensures
        be_bytes(v).len() == 4,
        v == be_bytes(v)[0] * 0x100_0000 + be_bytes(v)[1] * 0x1_0000 + be_bytes(v)[2] * 0x100
            + be_bytes(v)[3],
{
}

/// A marker is the magic prefix and then four bytes for each element, in order.
pub proof fn law_marker_is_prefix_and_elements(values: Seq<u32>, i: int)
    requires
        0 <= i < values.len(),
    ensures
        marker_of(values).len() == 8 + 4 * values.len(),
        marker_of(values).take(8) == seq![0xACu8, 0x41, 0x56, 0x31, 0xF3, 0x2E, 0x00, 0x7F],
        marker_of(values).subrange(8 + 4 * i, 12 + 4 * i) == be_bytes(values[i]),
{
    let m = marker_of(values);
    lemma_payload(values);
    lemma_payload_bytes(values, i);
    assert(m.take(8) =~= seq![0xACu8, 0x41, 0x56, 0x31, 0xF3, 0x2E, 0x00, 0x7F]);
    assert(m.subrange(8 + 4 * i, 12 + 4 * i) =~= payload_of(values).subrange(4 * i, 4 * i + 4));
}

proof fn lemma_payload_bytes(values: Seq<u32>, i: int)
    requires
        0 <= i < values.len(),
    ensures
        payload_of(values).len() == 4 * values.len(),
        payload_of(values).subrange(4 * i, 4 * i + 4) == be_bytes(values[i]),
    decreases values.len(),
{
    let before = values.drop_last();
    lemma_payload(values);
    lemma_payload(before);
    if i < before.len() {
        lemma_payload_bytes(before, i);
        assert(payload_of(values).subrange(4 * i, 4 * i + 4) =~= payload_of(before).subrange(
            4 * i,
            4 * i + 4,
        ));
    } else {
        assert(payload_of(values).subrange(4 * i, 4 * i + 4) =~= be_bytes(values[i]));
    }
}

/// What is neither a number nor finite has all the bits of the exponent set:
/// the infinities, and whatever is beyond them.
pub proof fn law_finite_values(bits: u32)
    ensures
        0x7f80_0000 <= bits <= 0x7fff_ffff || 0xff80_0000 <= bits ==> !finite(bits),
        bits < 0x7f80_0000 || 0x8000_0000 <= bits < 0xff80_0000 ==> finite(bits),
{
}

/// Only a marker is read as a vector, and it gives the elements that it was
/// made of; every other value is refused for what is wrong with it.
pub proof fn law_only_markers_are_vectors(value: AttributeValue, values: Seq<u32>)
    ensures
        !(value is B) ==> vector_in(value) == Err::<Seq<u32>, Float32VectorError>(
            Float32VectorError::NotBinary,
        ),
        value matches AttributeValue::B(bytes) ==> {
            &&& bytes@ == marker_of(values) ==> vector_in(value) == Ok::<
                Seq<u32>,
                Float32VectorError,
            >(values)
            &&& bytes@.len() < 8 ==> vector_in(value) == Err::<Seq<u32>, Float32VectorError>(
                Float32VectorError::NotAMarker,
            )
            &&& bytes@.len() >= 8 && bytes@.take(8) != seq![
                0xACu8,
                0x41,
                0x56,
                0x31,
                0xF3,
                0x2E,
                0x00,
                0x7F,
            ] ==> vector_in(value) == Err::<Seq<u32>, Float32VectorError>(
                Float32VectorError::NotAMarker,
            )
            &&& has_prefix(bytes@) && bytes@.len() % 4 != 0 ==> vector_in(value) == Err::<
                Seq<u32>,
                Float32VectorError,
            >(Float32VectorError::InvalidPayloadLength { len: (bytes@.len() - 8) as usize })
        },
{
    law_marker_round_trip(values);
    assert(MAGIC_PREFIX@ =~= seq![0xACu8, 0x41, 0x56, 0x31, 0xF3, 0x2E, 0x00, 0x7F]);
}

/// A vector of a response becomes a list of its numbers, in order, or the marker
/// of its elements where it is preserved.
pub proof fn law_vectors_become_lists_or_markers(j: JsonV, numbers: Seq<NumberV>)
    requires
        j == single_member(
            "FLOAT32VECTOR"@,
            JsonV::Array(Seq::new(numbers.len(), |i: int| JsonV::Number(numbers[i]))),
        ),
        forall|i: int| 0 <= i < numbers.len() ==> (#[trigger] numbers[i]) is Read,
    ensures
        ({
            let list = response_rewritten(j, false);
            let marker = response_rewritten(j, true);
            let bits = Seq::new(numbers.len(), |i: int| numbers[i]->single_bits);
            &&& only_member(list, "L"@) matches Some(JsonV::Array(items)) && {
                &&& items.len() == numbers.len()
                &&& forall|i: int|
                    0 <= i < items.len() ==> only_member(#[trigger] items[i], "N"@) == Some(
                        JsonV::Text(numbers[i]->decimal),
                    )
            }
            &&& only_member(marker, "B"@) == Some(JsonV::Text(base64_of(marker_of(bits))))
        }),
{
    let items = Seq::new(numbers.len(), |i: int| JsonV::Number(numbers[i]));
    assert(only_member(j, "FLOAT32VECTOR"@) == Some(JsonV::Array(items)));
    assert forall|i: int| 0 <= i < items.len() implies is_read(#[trigger] items[i]) by {
        assert(numbers[i] is Read);
    }
    assert(vector_numbers(j)->0 =~= numbers);
    assert(single_bits_of(numbers) =~= Seq::new(numbers.len(), |i: int| numbers[i]->single_bits));
}

/// Rewriting a response goes through the whole document and keeps its shape:
/// what is in an array or an object is rewritten where it stands, under its
/// name. Everything else stays.
pub proof fn law_rewriting_keeps_the_shape(j: JsonV, preserve: bool)
    requires
        vector_numbers(j) is None,
    ensures
        match j {
            JsonV::Array(items) => response_rewritten(j, preserve) matches JsonV::Array(after) && {
                &&& after.len() == items.len()
                &&& forall|i: int|
                    0 <= i < items.len() ==> #[trigger] after[i] == response_rewritten(
                        items[i],
                        preserve,
                    )
            },
            JsonV::Object(members) => response_rewritten(j, preserve) matches JsonV::Object(after)
                && {
                &&& after.len() == members.len()
                &&& forall|i: int|
                    0 <= i < members.len() ==> (#[trigger] after[i]).0 == members[i].0 && after[i].1
                        == response_rewritten(members[i].1, preserve)
            },
            _ => response_rewritten(j, preserve) == j,
        },
{
}

/// A rewritten response holds no vector any more, however deep it was.
pub proof fn law_response_rewrite_leaves_no_vector(j: JsonV, preserve: bool)
    ensures
        !holds_vector(response_rewritten(j, preserve)),
    decreases j,
{
    let after = response_rewritten(j, preserve);
    reveal_strlit("FLOAT32VECTOR");
    reveal_strlit("B");
    reveal_strlit("L");
    reveal_strlit("N");
    assert("FLOAT32VECTOR"@.len() == 13 && "B"@.len() == 1 && "L"@.len() == 1 && "N"@.len() == 1);
    if vector_numbers(j) is Some {
        let numbers = vector_numbers(j)->0;
        if preserve {
            lemma_member_without_vector(
                "B"@,
                JsonV::Text(base64_of(marker_of(single_bits_of(numbers)))),
            );
        } else {
            let list = number_list(numbers);
            assert forall|i: int| 0 <= i < list->Array_0.len() implies !holds_vector(
                #[trigger] list->Array_0[i],
            ) by {
                lemma_member_without_vector("N"@, JsonV::Text(numbers[i]->decimal));
            }
            assert(!holds_vector(list));
            lemma_member_without_vector("L"@, list);
        }
    } else {
        match j {
            JsonV::Array(items) => {
                assert forall|i: int| 0 <= i < items.len() implies !holds_vector(
                    #[trigger] after->Array_0[i],
                ) by {
                    law_response_rewrite_leaves_no_vector(items[i], preserve);
                }
            },
            JsonV::Object(members) => {
                assert forall|i: int| 0 <= i < members.len() implies !holds_vector(
                    (#[trigger] after->Object_0[i]).1,
                ) by {
                    law_response_rewrite_leaves_no_vector(members[i].1, preserve);
                }
                if vector_numbers(after) is Some {
                    lemma_vector_was_there(j, preserve);
                }
            },
            _ => {},
        }
    }
}

proof fn lemma_member_without_vector(name: Seq<char>, value: JsonV)
    requires
        name != "FLOAT32VECTOR"@,
        value is Text || !holds_vector(value),
    ensures
        !holds_vector(single_member(name, value)),
{
    let whole = single_member(name, value);
    assert(whole->Object_0[0] == (name, value));
    assert(vector_numbers(whole) is None);
    assert(!holds_vector(value));
}

proof fn lemma_vector_was_there(j: JsonV, preserve: bool)
    requires
        j is Object,
        vector_numbers(response_rewritten(j, preserve)) is Some,
    ensures
        vector_numbers(j) is Some,
{
    if vector_numbers(j) is None {
        let after = response_rewritten(j, preserve);
        let members = j->Object_0;
        let inner = members[0].1;
        let rewritten = response_rewritten(inner, preserve);
        assert(after->Object_0[0] == (members[0].0, rewritten));
        assert(rewritten is Array);
        assert(inner is Array);
        let (items, done) = (inner->Array_0, rewritten->Array_0);
        assert(only_member(j, "FLOAT32VECTOR"@) == Some(inner));
        assert forall|i: int| 0 <= i < items.len() implies is_read(#[trigger] items[i]) by {
            assert(is_read(done[i]));
            assert(done[i] == response_rewritten(items[i], preserve));
        }
    }
}

} // verus!
