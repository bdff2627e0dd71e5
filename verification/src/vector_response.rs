//! Vector response transformation, between decompression and deserialisation.
//!
//! A successful response is buffered whole. Where it is JSON, its
//! `FLOAT32VECTOR` attributes are rewritten and its `Scores` and
//! `VectorIndexes` are taken into the request's holder. Empty bodies, bodies
//! that are not JSON and failures of the inner body pass through unchanged.

use crate::float32_vector::{is_read, response_rewritten, rewrite_response_json_markers};
use crate::json::{json_view, member, Json, JsonNumber, JsonV};
use crate::vector::{index_from, vector_index_from_json, VectorIndex, VectorIndexV};
use vstd::prelude::*;

verus! {

/// What was taken out of one response.
#[derive(Debug)]
pub struct VectorResponseHolder {
    /// The similarity scores, by the bits of their double precision values.
    pub scores: Option<Vec<u64>>,
    pub vector_indexes: Option<Vec<VectorIndex>>,
}

/// The mathematical value of a [`VectorResponseHolder`].
pub ghost struct HolderV {
    pub scores: Option<Seq<u64>>,
    pub vector_indexes: Option<Seq<VectorIndexV>>,
}

/// The values of vector indexes.
pub open spec fn indexes_view(indexes: Seq<VectorIndex>) -> Seq<VectorIndexV> {
    Seq::new(indexes.len(), |i: int| indexes[i]@)
}

impl View for VectorResponseHolder {
    type V = HolderV;

    open spec fn view(&self) -> HolderV {
        HolderV {
            scores: match self.scores {
                Some(s) => Some(s@),
                None => None,
            },
            vector_indexes: match self.vector_indexes {
                Some(v) => Some(indexes_view(v@)),
                None => None,
            },
        }
    }
}

impl Default for VectorResponseHolder {
    /// A holder that nothing was taken into yet.
    fn default() -> (r: Self)
        ensures
            r@ == (HolderV { scores: None, vector_indexes: None }),
    {
        VectorResponseHolder { scores: None, vector_indexes: None }
    }
}

/// Why a response is refused.
#[derive(Debug, Clone, Copy, PartialEq, Eq, Structural)]
pub enum VectorResponseError {
    ScoresNotAnArray,
    ScoresNotNumbers,
    ScoresLengthMismatch,
    VectorIndexesNotAnArray,
    InvalidVectorIndex,
}

impl VectorResponseError {
    /// The error's message.
    pub fn message(&self) -> (r: &'static str)
        ensures
            r@ == match *self {
                VectorResponseError::ScoresNotAnArray => "Scores response field must be an array"@,
                VectorResponseError::ScoresNotNumbers =>
                    "Scores response field must contain numbers"@,
                VectorResponseError::ScoresLengthMismatch =>
                    "Items and Scores response fields must have the same length"@,
                VectorResponseError::VectorIndexesNotAnArray =>
                    "VectorIndexes response field must be an array"@,
                VectorResponseError::InvalidVectorIndex =>
                    "VectorIndexes response field holds an invalid vector index"@,
            },
    {
        match self {
            VectorResponseError::ScoresNotAnArray => "Scores response field must be an array",
            VectorResponseError::ScoresNotNumbers => "Scores response field must contain numbers",
            VectorResponseError::ScoresLengthMismatch =>
                "Items and Scores response fields must have the same length",
            VectorResponseError::VectorIndexesNotAnArray =>
                "VectorIndexes response field must be an array",
            VectorResponseError::InvalidVectorIndex =>
                "VectorIndexes response field holds an invalid vector index",
        }
    }
}

/// `needle` occurs in `haystack` at `at`.
pub open spec fn occurs_at(haystack: Seq<u8>, needle: Seq<u8>, at: int) -> bool {
    0 <= at <= haystack.len() - needle.len() && haystack.subrange(at, at + needle.len()) == needle
}

/// `needle` occurs in `haystack`.
pub open spec fn occurs(haystack: Seq<u8>, needle: Seq<u8>) -> bool {
    exists|at: int| occurs_at(haystack, needle, at)
}

/// Whether `needle` occurs in `haystack`.
pub fn contains_subslice(haystack: &[u8], needle: &[u8]) -> (r: bool)
    ensures
        r == occurs(haystack@, needle@),
{
    if haystack.len() < needle.len() {
        return false;
    }
    let total: usize = haystack.len();
    let mut at: usize = 0;
    let last: usize = total - needle.len();
    loop
        invariant
            at <= last,
            total == haystack@.len(),
            last == total - needle@.len(),
            forall|k: int| 0 <= k < at ==> !occurs_at(haystack@, needle@, k),
        decreases last - at,
    {
        let mut i: usize = 0;
        while i < needle.len() && haystack[at + i] == needle[i]
            invariant
                at <= last,
                total == haystack@.len(),
            last == total - needle@.len(),
                i <= needle@.len(),
                forall|k: int| 0 <= k < i ==> haystack@[at + k] == needle@[k],
            decreases needle@.len() - i,
        {
            i = i + 1;
        }
        if i == needle.len() {
            assert(haystack@.subrange(at as int, at + needle@.len()) =~= needle@);
            assert(occurs_at(haystack@, needle@, at as int));
            return true;
        }
        assert(!occurs_at(haystack@, needle@, at as int)) by {
            assert(haystack@.subrange(at as int, at + needle@.len())[i as int] == haystack@[at
                + i]);
        }
        if at == last {
            return false;
        }
        at = at + 1;
    }
}

/// The bytes of the name of the vector attribute type.
pub open spec fn vector_type_name() -> Seq<u8> {
    seq![
        0x46u8, 0x4Cu8, 0x4Fu8, 0x41u8, 0x54u8, 0x33u8, 0x32u8, 0x56u8, 0x45u8, 0x43u8, 0x54u8,
        0x4Fu8, 0x52u8,
    ]
}

/// A body is read as JSON where it is not empty and there is something to do:
/// a holder to fill, or a vector to rewrite.
pub open spec fn wants_reading(bytes: Seq<u8>, has_holder: bool) -> bool {
    bytes.len() > 0 && (has_holder || occurs(bytes, vector_type_name()))
}

/// Whether a body is to be read as JSON.
pub fn needs_reading(bytes: &[u8], has_holder: bool) -> (r: bool)
    ensures
        r == wants_reading(bytes@, has_holder),
{
    let name: [u8; 13] = [
        0x46, 0x4C, 0x4F, 0x41, 0x54, 0x33, 0x32, 0x56, 0x45, 0x43, 0x54, 0x4F, 0x52,
    ];
    assert(name@ =~= vector_type_name());
    bytes.len() > 0 && (has_holder || contains_subslice(bytes, name.as_slice()))
}

/// All documents are numbers that were read.
pub open spec fn all_read(items: Seq<JsonV>) -> bool {
    forall|i: int| 0 <= i < items.len() ==> is_read(#[trigger] items[i])
}

/// The bits of the double precision values of the numbers.
pub open spec fn double_bits_of(items: Seq<JsonV>) -> Seq<u64> {
    Seq::new(items.len(), |i: int| items[i]->Number_0->double_bits)
}

/// The scores of a response: one for each item, where items are there.
pub open spec fn scores_in(j: JsonV) -> Result<Option<Seq<u64>>, VectorResponseError> {
    match member(j, "Scores"@) {
        None => Ok(None),
        Some(JsonV::Array(scores)) => if !all_read(scores) {
            Err(VectorResponseError::ScoresNotNumbers)
        } else {
            match member(j, "Items"@) {
                Some(JsonV::Array(items)) => if items.len() != scores.len() {
                    Err(VectorResponseError::ScoresLengthMismatch)
                } else {
                    Ok(Some(double_bits_of(scores)))
                },
                _ => Ok(Some(double_bits_of(scores))),
            }
        },
        Some(_) => Err(VectorResponseError::ScoresNotAnArray),
    }
}

/// Every document describes a vector index.
pub open spec fn all_indexes(items: Seq<JsonV>) -> bool {
    forall|i: int| 0 <= i < items.len() ==> index_from(#[trigger] items[i]) is Some
}

/// The vector indexes that a response reports under `key`.
pub open spec fn indexes_in(j: JsonV, key: Seq<char>) -> Result<
    Option<Seq<VectorIndexV>>,
    VectorResponseError,
> {
    match member(j, key) {
        None => Ok(None),
        Some(table) => match member(table, "VectorIndexes"@) {
            None => Ok(None),
            Some(JsonV::Array(items)) => if all_indexes(items) {
                Ok(Some(Seq::new(items.len(), |i: int| index_from(items[i])->0)))
            } else {
                Err(VectorResponseError::InvalidVectorIndex)
            },
            Some(_) => Err(VectorResponseError::VectorIndexesNotAnArray),
        },
    }
}

/// The holder after taking in the indexes under `key`.
pub open spec fn with_indexes(h: HolderV, j: JsonV, key: Seq<char>) -> HolderV {
    match indexes_in(j, key) {
        Ok(Some(found)) => HolderV { scores: h.scores, vector_indexes: Some(found) },
        _ => h,
    }
}

/// The holder after a response, and why the response is refused, if it is.
/// What is missing leaves the holder's field as it is, and so does everything
/// after the first fault.
pub open spec fn extracted(j: JsonV, h: HolderV) -> (HolderV, Option<VectorResponseError>) {
    match scores_in(j) {
        Err(e) => (h, Some(e)),
        Ok(scores) => {
            let h1 = HolderV {
                scores: match scores {
                    Some(s) => Some(s),
                    None => h.scores,
                },
                vector_indexes: h.vector_indexes,
            };
            match indexes_in(j, "Table"@) {
                Err(e) => (h1, Some(e)),
                Ok(_) => {
                    let h2 = with_indexes(h1, j, "Table"@);
                    match indexes_in(j, "TableDescription"@) {
                        Err(e) => (h2, Some(e)),
                        Ok(_) => (with_indexes(h2, j, "TableDescription"@), None),
                    }
                },
            }
        },
    }
}

fn read_scores(j: &Json) -> (r: Result<Option<Vec<u64>>, VectorResponseError>)
    ensures
        match r {
            Ok(Some(s)) => scores_in(j@) == Ok::<Option<Seq<u64>>, VectorResponseError>(Some(s@)),
            Ok(None) => scores_in(j@) == Ok::<Option<Seq<u64>>, VectorResponseError>(None),
            Err(e) => scores_in(j@) == Err::<Option<Seq<u64>>, VectorResponseError>(e),
        },
{
    let value = match j.get("Scores") {
        Some(v) => v,
        None => {
            return Ok(None);
        },
    };
    let items = match value.as_array() {
        Some(items) => items,
        None => {
            return Err(VectorResponseError::ScoresNotAnArray);
        },
    };
    let ghost viewed = json_view(*value)->Array_0;
    let mut scores: Vec<u64> = Vec::new();
    let mut i: usize = 0;
    while i < items.len()
        invariant
            i <= items.len(),
            scores.len() == i,
            *value == Json::Array(*items),
            viewed == json_view(*value)->Array_0,
            member(j@, "Scores"@) == Some(JsonV::Array(viewed)),
            forall|k: int|
                0 <= k < i ==> is_read(#[trigger] viewed[k]) && scores@[k]
                    == viewed[k]->Number_0->double_bits,
        decreases items.len() - i,
    {
        assert(viewed[i as int] == json_view(items@[i as int]));
        match &items[i] {
            Json::Number(JsonNumber::Read { double_bits, .. }) => {
                scores.push(*double_bits);
            },
            _ => {
                assert(!is_read(viewed[i as int]));
                return Err(VectorResponseError::ScoresNotNumbers);
            },
        }
        i = i + 1;
    }
    assert(scores@ =~= double_bits_of(viewed));
    if let Some(found) = j.get("Items") {
        if let Some(list) = found.as_array() {
            if list.len() != scores.len() {
                return Err(VectorResponseError::ScoresLengthMismatch);
            }
        }
    }
    Ok(Some(scores))
}

fn read_indexes(j: &Json, key: &str) -> (r: Result<Option<Vec<VectorIndex>>, VectorResponseError>)
    ensures
        match r {
            Ok(Some(v)) => indexes_in(j@, key@) == Ok::<
                Option<Seq<VectorIndexV>>,
                VectorResponseError,
            >(Some(indexes_view(v@))),
            Ok(None) => indexes_in(j@, key@) == Ok::<
                Option<Seq<VectorIndexV>>,
                VectorResponseError,
            >(None),
            Err(e) => indexes_in(j@, key@) == Err::<
                Option<Seq<VectorIndexV>>,
                VectorResponseError,
            >(e),
        },
{
    let table = match j.get(key) {
        Some(t) => t,
        None => {
            return Ok(None);
        },
    };
    let value = match table.get("VectorIndexes") {
        Some(v) => v,
        None => {
            return Ok(None);
        },
    };
    let items = match value.as_array() {
        Some(items) => items,
        None => {
            return Err(VectorResponseError::VectorIndexesNotAnArray);
        },
    };
    let ghost viewed = json_view(*value)->Array_0;
    let mut found: Vec<VectorIndex> = Vec::new();
    let mut i: usize = 0;
    while i < items.len()
        invariant
            i <= items.len(),
            found.len() == i,
            *value == Json::Array(*items),
            viewed == json_view(*value)->Array_0,
            member(j@, key@) == Some(table@),
            member(table@, "VectorIndexes"@) == Some(JsonV::Array(viewed)),
            forall|k: int|
                0 <= k < i ==> index_from(#[trigger] viewed[k]) == Some(found@[k]@),
        decreases items.len() - i,
    {
        assert(viewed[i as int] == json_view(items@[i as int]));
        match vector_index_from_json(&items[i]) {
            Some(index) => {
                found.push(index);
            },
            None => {
                assert(index_from(viewed[i as int]) is None);
                return Err(VectorResponseError::InvalidVectorIndex);
            },
        }
        i = i + 1;
    }
    assert(indexes_view(found@) =~= Seq::new(viewed.len(), |i: int| index_from(viewed[i])->0));
    Ok(Some(found))
}

/// Takes the scores and vector indexes of a response into `holder`.
pub fn extract(j: &Json, holder: &mut VectorResponseHolder) -> (r: Result<(), VectorResponseError>)
    ensures
        final(holder)@ == extracted(j@, old(holder)@).0,
        match r {
            Ok(_) => extracted(j@, old(holder)@).1 is None,
            Err(e) => extracted(j@, old(holder)@).1 == Some(e),
        },
{
    match read_scores(j) {
        Ok(Some(scores)) => {
            holder.scores = Some(scores);
        },
        Ok(None) => {},
        Err(e) => {
            return Err(e);
        },
    }
    match read_indexes(j, "Table") {
        Ok(Some(found)) => {
            holder.vector_indexes = Some(found);
        },
        Ok(None) => {},
        Err(e) => {
            return Err(e);
        },
    }
    match read_indexes(j, "TableDescription") {
        Ok(Some(found)) => {
            holder.vector_indexes = Some(found);
        },
        Ok(None) => {},
        Err(e) => {
            return Err(e);
        },
    }
    Ok(())
}

/// The value of an optional holder.
pub open spec fn opt_holder(h: Option<VectorResponseHolder>) -> Option<HolderV> {
    match h {
        Some(h) => Some(h@),
        None => None,
    }
}

/// What a document becomes, and the holder after it, or why it is refused.
pub open spec fn transformed(j: JsonV, preserve: bool, h: Option<HolderV>) -> (
    Result<JsonV, VectorResponseError>,
    Option<HolderV>,
) {
    match h {
        None => (Ok(response_rewritten(j, preserve)), None),
        Some(h) => match extracted(j, h).1 {
            Some(e) => (Err(e), Some(extracted(j, h).0)),
            None => (Ok(response_rewritten(j, preserve)), Some(extracted(j, h).0)),
        },
    }
}

/// Transforms a document: takes its scores and vector indexes into `holder`,
/// where there is one, and rewrites its vectors.
pub fn transform_document(
    j: &mut Json,
    preserve: bool,
    holder: &mut Option<VectorResponseHolder>,
) -> (r: Result<(), VectorResponseError>)
    ensures
        ({
            let (wanted, h) = transformed(old(j)@, preserve, opt_holder(*old(holder)));
            &&& opt_holder(*final(holder)) == h
            &&& match wanted {
                Ok(document) => r is Ok && final(j)@ == document,
                Err(e) => r is Err && r->Err_0 == e,
            }
        }),
{
    match holder {
        Some(h) => {
            match extract(j, h) {
                Ok(_) => {},
                Err(e) => {
                    return Err(e);
                },
            }
        },
        None => {},
    }
    rewrite_response_json_markers(j, preserve);
    Ok(())
}

/// Transforms a buffered body. `parse` reads a body as JSON, and `write` writes
/// a document. A body that is empty, that there is nothing to do with or that
/// is not JSON is handed on byte for byte, and so is one whose document cannot
/// be written.
pub fn transform_bytes<
    P: Fn(&[u8]) -> Result<Json, String>,
    W: Fn(&Json) -> Result<Vec<u8>, String>,
>(
    bytes: &[u8],
    preserve: bool,
    holder: &mut Option<VectorResponseHolder>,
    parse: &P,
    write: &W,
) -> (r: Result<Vec<u8>, VectorResponseError>)
    requires
        call_requires(*parse, (bytes,)),
        forall|j: &Json| call_requires(*write, (j,)),
    ensures
        !wants_reading(bytes@, *old(holder) is Some) ==> {
            &&& r is Ok
            &&& r->Ok_0@ == bytes@
            &&& opt_holder(*final(holder)) == opt_holder(*old(holder))
        },
        wants_reading(bytes@, *old(holder) is Some) ==> exists|parsed: Result<Json, String>| #[trigger]
            call_ensures(*parse, (bytes,), parsed) && match parsed {
                Err(_) => {
                    &&& r is Ok
                    &&& r->Ok_0@ == bytes@
                    &&& opt_holder(*final(holder)) == opt_holder(*old(holder))
                },
                Ok(j) => {
                    let (wanted, h) = transformed(j@, preserve, opt_holder(*old(holder)));
                    &&& opt_holder(*final(holder)) == h
                    &&& match wanted {
                        Err(e) => r is Err && r->Err_0 == e,
                        Ok(document) => r is Ok && exists|
                            given: &Json,
                            written: Result<Vec<u8>, String>,
                        |
                            given@ == document && #[trigger] call_ensures(
                                *write,
                                (given,),
                                written,
                            ) && r->Ok_0@ == (match written {
                                Ok(out) => out@,
                                Err(_) => bytes@,
                            }),
                    }
                },
            },
{
    if !needs_reading(bytes, holder.is_some()) {
        return Ok(vstd::slice::slice_to_vec(bytes));
    }
    let parsed = parse(bytes);
    let ghost seen = parsed;
    let mut j = match parsed {
        Ok(j) => j,
        Err(_) => {
            assert(call_ensures(*parse, (bytes,), seen));
            return Ok(vstd::slice::slice_to_vec(bytes));
        },
    };
    assert(call_ensures(*parse, (bytes,), seen));
    match transform_document(&mut j, preserve, holder) {
        Ok(_) => {},
        Err(e) => {
            return Err(e);
        },
    }
    let written = write(&j);
    match written {
        Ok(out) => Ok(out),
        Err(_) => Ok(vstd::slice::slice_to_vec(bytes)),
    }
}

/// What the inner body did when it was polled.
#[derive(Debug)]
pub enum BodyEvent<T> {
    /// It gave a chunk of data.
    Data(Vec<u8>),
    /// It gave a frame that holds no data.
    Trailers(T),
    /// It failed.
    Failed,
    /// It ended.
    Ended,
}

/// What the transforming body does next.
#[derive(Debug)]
pub enum BodyAction<T> {
    /// Polls the inner body and reports the event.
    PollInner,
    /// Transforms the buffered data and gives it as one frame.
    GiveData,
    /// Gives this frame unchanged.
    GiveTrailers(T),
    /// Ends the body.
    End,
}

/// The state of a body that is buffered whole, then given transformed.
#[derive(Debug)]
pub struct VectorTransformState<T> {
    buffer: Vec<u8>,
    trailers: Vec<T>,
    done: bool,
    emitted_data: bool,
}

/// The mathematical value of a [`VectorTransformState`].
#[verifier::reject_recursive_types(T)]
pub ghost struct TransformV<T> {
    pub buffer: Seq<u8>,
    pub trailers: Seq<T>,
    pub done: bool,
    pub emitted_data: bool,
}

/// The state after an event of the inner body. A failure is handed on at
/// once, and no data follows it.
pub open spec fn after_event<T>(s: TransformV<T>, event: BodyEvent<T>) -> TransformV<T> {
    match event {
        BodyEvent::Data(chunk) => TransformV { buffer: s.buffer + chunk@, ..s },
        BodyEvent::Trailers(frame) => TransformV { trailers: s.trailers.push(frame), ..s },
        BodyEvent::Failed => TransformV { emitted_data: true, ..s },
        BodyEvent::Ended => TransformV { done: true, ..s },
    }
}

/// What the body does next, and the state after it: it polls until the inner
/// body ends, gives the data once, then the other frames, the last one first.
pub open spec fn next_step<T>(s: TransformV<T>) -> (BodyAction<T>, TransformV<T>) {
    if !s.emitted_data {
        if !s.done {
            (BodyAction::PollInner, s)
        } else {
            (BodyAction::GiveData, TransformV { emitted_data: true, ..s })
        }
    } else if s.trailers.len() > 0 {
        (
            BodyAction::GiveTrailers(s.trailers.last()),
            TransformV { trailers: s.trailers.drop_last(), ..s },
        )
    } else {
        (BodyAction::End, s)
    }
}

/// The state before the inner body was polled.
pub open spec fn fresh_state<T>() -> TransformV<T> {
    TransformV { buffer: Seq::empty(), trailers: Seq::empty(), done: false, emitted_data: false }
}

/// The state after all `events`.
pub open spec fn after_events<T>(events: Seq<BodyEvent<T>>) -> TransformV<T>
    decreases events.len(),
{
    if events.len() == 0 {
        fresh_state()
    } else {
        after_event(after_events(events.drop_last()), events.last())
    }
}

/// The data of all `events`, in order.
pub open spec fn data_of<T>(events: Seq<BodyEvent<T>>) -> Seq<u8>
    decreases events.len(),
{
    if events.len() == 0 {
        Seq::empty()
    } else {
        match events.last() {
            BodyEvent::Data(chunk) => data_of(events.drop_last()) + chunk@,
            _ => data_of(events.drop_last()),
        }
    }
}

/// Before the inner body ended or failed, the body only polls. Once it ended
/// without failing, what is given is the data of all its frames, once, and
/// data is not given a second time.
pub proof fn law_data_is_given_once_and_whole<T>(events: Seq<BodyEvent<T>>)
    requires
        forall|i: int| 0 <= i < events.len() ==> !((#[trigger] events[i]) is Failed),
    ensures
        after_events(events).buffer == data_of(events),
        !after_events(events).emitted_data,
        after_events(events).done <==> exists|i: int|
            0 <= i < events.len() && (#[trigger] events[i]) is Ended,
        after_events(events).done ==> {
            let (action, after) = next_step(after_events(events));
            action is GiveData && !(next_step(after).0 is GiveData) && !(next_step(
                after,
            ).0 is PollInner)
        },
        !after_events(events).done ==> next_step(after_events(events)).0 is PollInner,
    decreases events.len(),
{
    if events.len() > 0 {
        let before = events.drop_last();
        assert forall|i: int| 0 <= i < before.len() implies !((#[trigger] before[i]) is Failed) by {
            assert(before[i] == events[i]);
        }
        law_data_is_given_once_and_whole(before);
        if after_events(before).done {
            let i = choose|i: int| 0 <= i < before.len() && (#[trigger] before[i]) is Ended;
            assert(events[i] is Ended);
        }
        if after_events(events).done {
            if events.last() is Ended {
                assert(events[events.len() - 1] is Ended);
            }
        } else {
            assert forall|i: int| 0 <= i < events.len() implies !((
            #[trigger] events[i]) is Ended) by {
                if i < before.len() {
                    assert(before[i] == events[i]);
                }
            }
        }
    }
}

/// After a failure no data is given.
pub proof fn law_no_data_after_failure<T>(s: TransformV<T>)
    ensures
        ({
            let after = after_event(s, BodyEvent::Failed);
            let (action, next) = next_step(after);
            !(action is GiveData) && !(action is PollInner) && next.emitted_data
        }),
{
}

impl<T> VectorTransformState<T> {
    /// The value of this state.
    pub closed spec fn view(&self) -> TransformV<T> {
        TransformV {
            buffer: self.buffer@,
            trailers: self.trailers@,
            done: self.done,
            emitted_data: self.emitted_data,
        }
    }

    /// The state before the inner body was polled.
    pub fn new() -> (r: Self)
        ensures
            r@ == fresh_state::<T>(),
    {
        let r = VectorTransformState {
            buffer: Vec::new(),
            trailers: Vec::new(),
            done: false,
            emitted_data: false,
        };
        assert(r@.buffer =~= Seq::empty());
        assert(r@.trailers =~= Seq::empty());
        r
    }

    /// Takes in what the inner body did.
    pub fn on_event(&mut self, event: BodyEvent<T>)
        ensures
            final(self)@ == after_event(old(self)@, event),
    {
        match event {
            BodyEvent::Data(chunk) => {
                let mut chunk = chunk;
                self.buffer.append(&mut chunk);
            },
            BodyEvent::Trailers(frame) => {
                self.trailers.push(frame);
            },
            BodyEvent::Failed => {
                self.emitted_data = true;
            },
            BodyEvent::Ended => {
                self.done = true;
            },
        }
    }

    /// Decides what the body does next.
    pub fn poll_frame(&mut self) -> (r: BodyAction<T>)
        ensures
            (r, final(self)@) == next_step(old(self)@),
    {
        if !self.emitted_data {
            if !self.done {
                return BodyAction::PollInner;
            }
            self.emitted_data = true;
            return BodyAction::GiveData;
        }
        match self.trailers.pop() {
            Some(frame) => BodyAction::GiveTrailers(frame),
            None => BodyAction::End,
        }
    }

    /// The data that was buffered.
    pub fn buffer(&self) -> (r: &[u8])
        ensures
            r@ == self@.buffer,
    {
        self.buffer.as_slice()
    }
}

/// The vector indexes that a description of a table reports are taken into the
/// holder, all of them and in order, whether the table was described or
/// created. Nothing else of the holder changes.
pub proof fn law_reported_indexes_are_held(j: JsonV, items: Seq<JsonV>, h: HolderV, created: bool)
    requires
        member(j, "Scores"@) is None,
        member(
            j,
            if created {
                "Table"@
            } else {
                "TableDescription"@
            },
        ) is None,
        member(
            j,
            if created {
                "TableDescription"@
            } else {
                "Table"@
            },
        ) matches Some(table) && member(table, "VectorIndexes"@) == Some(JsonV::Array(items)),
        forall|i: int| 0 <= i < items.len() ==> index_from(#[trigger] items[i]) is Some,
    ensures
        ({
            let (after, fault) = extracted(j, h);
            &&& fault is None
            &&& after.scores == h.scores
            &&& after.vector_indexes matches Some(found) && {
                &&& found.len() == items.len()
                &&& forall|i: int|
                    0 <= i < items.len() ==> index_from(items[i]) == Some(#[trigger] found[i])
            }
        }),
{
}

/// A table that is described, and one that is created, report alike.
pub proof fn law_created_and_described_tables_report_alike(
    described: JsonV,
    created: JsonV,
    h: HolderV,
)
    requires
        member(described, "Scores"@) is None,
        member(created, "Scores"@) is None,
        member(described, "TableDescription"@) is None,
        member(created, "Table"@) is None,
        member(described, "Table"@) == member(created, "TableDescription"@),
    ensures
        extracted(described, h) == extracted(created, h),
{
}

/// Every score of a response is taken into the holder, in order, where there is
/// one for each item.
pub proof fn law_scores_are_held(j: JsonV, scores: Seq<JsonV>, h: HolderV)
    requires
        member(j, "Scores"@) == Some(JsonV::Array(scores)),
        forall|i: int| 0 <= i < scores.len() ==> is_read(#[trigger] scores[i]),
        member(j, "Items"@) matches Some(JsonV::Array(items)) ==> items.len() == scores.len(),
    ensures
        ({
            let (after, _) = extracted(j, h);
            &&& after.scores matches Some(held) && {
                &&& held.len() == scores.len()
                &&& forall|i: int|
                    0 <= i < scores.len() ==> scores[i]->Number_0->double_bits == #[trigger] held[i]
            }
        }),
{
}

/// A response is refused for its scores exactly where they are no array, hold
/// what is no number, or are not as many as the items; the holder then stays as
/// it is.
pub proof fn law_bad_scores_are_refused(j: JsonV, value: JsonV, h: HolderV)
    requires
        member(j, "Scores"@) == Some(value),
    ensures
        !(value is Array) ==> extracted(j, h) == (
            h,
            Some(VectorResponseError::ScoresNotAnArray),
        ),
        value matches JsonV::Array(scores) ==> {
            &&& (exists|i: int| 0 <= i < scores.len() && !is_read(#[trigger] scores[i]))
                ==> extracted(j, h) == (h, Some(VectorResponseError::ScoresNotNumbers))
            &&& (forall|i: int| 0 <= i < scores.len() ==> is_read(#[trigger] scores[i])) && (member(
                j,
                "Items"@,
            ) matches Some(JsonV::Array(items)) && items.len() != scores.len()) ==> extracted(
                j,
                h,
            ) == (h, Some(VectorResponseError::ScoresLengthMismatch))
        },
{
}

/// A description of vector indexes that is no array, or has one that cannot be
/// read, is refused.
pub proof fn law_bad_indexes_are_refused(j: JsonV, table: JsonV, value: JsonV, h: HolderV)
    requires
        member(j, "Scores"@) is None,
        member(j, "Table"@) == Some(table) || (member(j, "Table"@) is None && member(
            j,
            "TableDescription"@,
        ) == Some(table)),
        member(table, "VectorIndexes"@) == Some(value),
    ensures
        !(value is Array) ==> extracted(j, h).1 == Some(
            VectorResponseError::VectorIndexesNotAnArray,
        ),
        value matches JsonV::Array(items) ==> (exists|i: int|
            0 <= i < items.len() && index_from(#[trigger] items[i]) is None) ==> extracted(j, h).1
            == Some(VectorResponseError::InvalidVectorIndex),
{
}

/// A response that reports neither scores nor vector indexes leaves the holder
/// as it is.
pub proof fn law_nothing_reported_leaves_the_holder(j: JsonV, h: HolderV)
    requires
        member(j, "Scores"@) is None,
        member(j, "Table"@) matches Some(t) ==> member(t, "VectorIndexes"@) is None,
        member(j, "TableDescription"@) matches Some(t) ==> member(t, "VectorIndexes"@) is None,
    ensures
        extracted(j, h) == (h, None::<VectorResponseError>),
{
}

/// A transformed document has its vectors rewritten, whether there is a holder
/// or not, and is refused only where a holder could not be filled.
pub proof fn law_holder_has_no_say_in_the_document(j: JsonV, preserve: bool, h: HolderV)
    ensures
        transformed(j, preserve, None).0 == Ok::<JsonV, VectorResponseError>(
            response_rewritten(j, preserve),
        ),
        transformed(j, preserve, Some(h)).0 matches Ok(document) ==> Ok::<
            JsonV,
            VectorResponseError,
        >(document) == transformed(j, preserve, None).0,
        transformed(j, preserve, Some(h)).0 is Ok <==> extracted(j, h).1 is None,
        transformed(j, preserve, Some(h)).1 == Some(extracted(j, h).0),
{
}

/// A body is read where there is something to do with it: not where it is
/// empty, always where there is a holder to fill, and else where the name of
/// the vector type stands in it.
pub proof fn law_bodies_with_vectors_are_read(before: Seq<u8>, after: Seq<u8>, has_holder: bool)
    ensures
        ({
            let name = vstd::utf8::encode_utf8("FLOAT32VECTOR"@);
            &&& wants_reading(before + name + after, has_holder)
            &&& !wants_reading(Seq::empty(), has_holder)
            &&& before.len() > 0 ==> wants_reading(before, true)
            &&& before.len() > 0 ==> (wants_reading(before, false) <==> exists|at: int|
                0 <= at <= before.len() - name.len() && #[trigger] before.subrange(
                    at,
                    at + name.len(),
                ) == name)
        }),
{
    let chars = "FLOAT32VECTOR"@;
    let name = vstd::utf8::encode_utf8(chars);
    reveal_strlit("FLOAT32VECTOR");
    assert(chars.len() == 13);
    assert(vstd::utf8::is_ascii_chars(chars));
    vstd::utf8::is_ascii_chars_encode_utf8(chars);
    assert(name =~= vector_type_name());
    let body = before + name + after;
    assert(body.subrange(before.len() as int, before.len() as int + name.len()) =~= name);
    assert(occurs_at(body, name, before.len() as int));
    if wants_reading(before, false) {
        let at = choose|at: int| occurs_at(before, name, at);
        assert(before.subrange(at, at + name.len()) == name);
    }
    if exists|at: int|
        0 <= at <= before.len() - name.len() && #[trigger] before.subrange(at, at + name.len())
            == name {
        let at = choose|at: int|
            0 <= at <= before.len() - name.len() && #[trigger] before.subrange(
                at,
                at + name.len(),
            ) == name;
        assert(occurs_at(before, name, at));
    }
}

/// Once the data was given, every other frame is given unchanged, the last one
/// first, and then the body ends and stays ended.
pub proof fn law_all_trailers_are_given<T>(s: TransformV<T>)
    requires
        s.emitted_data,
    ensures
        s.trailers.len() > 0 ==> next_step(s).0 == BodyAction::GiveTrailers(s.trailers.last())
            && next_step(s).1.trailers == s.trailers.drop_last() && next_step(s).1.emitted_data,
        s.trailers.len() == 0 ==> next_step(s).0 is End && next_step(s).1 == s,
{
}

/// Frames without data are kept for later and change nothing of the data, and
/// data changes nothing of them.
pub proof fn law_frames_are_kept_apart<T>(s: TransformV<T>, chunk: Vec<u8>, frame: T)
    ensures
        after_event(s, BodyEvent::Data(chunk)).buffer == s.buffer + chunk@,
        after_event(s, BodyEvent::Data(chunk)).trailers == s.trailers,
        after_event(s, BodyEvent::Trailers(frame)).trailers == s.trailers.push(frame),
        after_event(s, BodyEvent::Trailers(frame)).buffer == s.buffer,
        after_event(s, BodyEvent::Data(chunk)).done == s.done,
        after_event(s, BodyEvent::Trailers(frame)).done == s.done,
        after_event(s, BodyEvent::Ended).done,
        fresh_state::<T>().buffer.len() == 0 && fresh_state::<T>().trailers.len() == 0,
        next_step(fresh_state::<T>()).0 is PollInner,
{
}

/// The value of a holder has all that it holds.
pub proof fn law_value_has_the_whole_holder(holder: VectorResponseHolder, i: int)
    ensures
        holder.scores matches Some(s) ==> holder@.scores == Some(s@),
        holder.scores is None ==> holder@.scores is None,
        holder.vector_indexes is None ==> holder@.vector_indexes is None,
        holder.vector_indexes matches Some(indexes) ==> holder@.vector_indexes matches Some(values)
            && values.len() == indexes@.len() && (0 <= i < indexes@.len() ==> values[i]
            == indexes@[i]@),
{
}

} // verus!
