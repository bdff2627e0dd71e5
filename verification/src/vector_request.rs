//! Vector extras in outgoing requests: what is added to a request's JSON body,
//! and which combinations are refused before they are sent.

use crate::float32_vector;
use crate::float32_vector::{holds_marker, law_request_rewrite_changes_markers_only, request_rewritten};
use crate::json::{
    array_of, bool_of, json_view, law_set_member_is_there, member, signed_of, takes_members, text_of,
    with_member, Json, JsonV,
};
use crate::text;
use crate::vector::{
    index_from, index_json, law_sent_index_is_read_back, search_json, update_json, VectorIndex,
    VectorIndexUpdate, VectorIndexV,
};
use crate::vector_interceptor::VectorRequestStore;
use vstd::prelude::*;

verus! {

/// Why a vector search cannot be sent.
#[derive(Debug, Clone, Copy, PartialEq, Eq, Structural)]
pub enum VectorQueryError {
    MissingIndexName,
    MissingLimit,
    LimitOutOfRange(i64),
    ConsistentRead,
    ExclusiveStartKey,
    ScanIndexForward,
    QueryFilter,
    ScoresWithCount,
}

/// The message of the error.
pub open spec fn query_message(e: VectorQueryError) -> Seq<char> {
    match e {
        VectorQueryError::MissingIndexName => "vector-search queries require IndexName"@,
        VectorQueryError::MissingLimit => "vector-search queries require Limit"@,
        VectorQueryError::LimitOutOfRange(limit) =>
            "vector-search queries require Limit between 1 and 1000, got "@
                + text::signed_decimal_of(limit as int),
        VectorQueryError::ConsistentRead =>
            "vector-search queries do not support ConsistentRead(true)"@,
        VectorQueryError::ExclusiveStartKey =>
            "vector-search queries do not support ExclusiveStartKey"@,
        VectorQueryError::ScanIndexForward =>
            "vector-search queries do not support ScanIndexForward"@,
        VectorQueryError::QueryFilter =>
            "vector-search queries do not support the legacy QueryFilter"@,
        VectorQueryError::ScoresWithCount =>
            "ReturnScores::Similarity is not supported with Select::Count"@,
    }
}

impl VectorQueryError {
    /// The error's message.
    pub fn message(&self) -> (r: String)
        ensures
            r@ == query_message(*self),
    {
        match self {
            VectorQueryError::MissingIndexName =>
                "vector-search queries require IndexName".to_owned(),
            VectorQueryError::MissingLimit => "vector-search queries require Limit".to_owned(),
            VectorQueryError::LimitOutOfRange(limit) => {
                let mut out =
                    "vector-search queries require Limit between 1 and 1000, got ".to_owned();
                out.append(text::signed_decimal(*limit).as_str());
                out
            },
            VectorQueryError::ConsistentRead =>
                "vector-search queries do not support ConsistentRead(true)".to_owned(),
            VectorQueryError::ExclusiveStartKey =>
                "vector-search queries do not support ExclusiveStartKey".to_owned(),
            VectorQueryError::ScanIndexForward =>
                "vector-search queries do not support ScanIndexForward".to_owned(),
            VectorQueryError::QueryFilter =>
                "vector-search queries do not support the legacy QueryFilter".to_owned(),
            VectorQueryError::ScoresWithCount =>
                "ReturnScores::Similarity is not supported with Select::Count".to_owned(),
        }
    }
}

/// A member is there and is not `null`.
pub open spec fn is_set(j: Option<JsonV>) -> bool {
    j is Some && !(j->0 is Null)
}

/// The first reason why a query with a vector search cannot be sent, if there
/// is one. What depends on the schema is left to the server.
pub open spec fn query_fault(j: JsonV, has_return_scores: bool) -> Option<VectorQueryError> {
    let index_name = text_of(member(j, "IndexName"@));
    let limit = signed_of(member(j, "Limit"@));
    if index_name is None || index_name->0.len() == 0 {
        Some(VectorQueryError::MissingIndexName)
    } else if limit is None {
        Some(VectorQueryError::MissingLimit)
    } else if !(1 <= limit->0 <= 1000) {
        Some(VectorQueryError::LimitOutOfRange(limit->0))
    } else if bool_of(member(j, "ConsistentRead"@)) == Some(true) {
        Some(VectorQueryError::ConsistentRead)
    } else if is_set(member(j, "ExclusiveStartKey"@)) {
        Some(VectorQueryError::ExclusiveStartKey)
    } else if member(j, "ScanIndexForward"@) is Some {
        Some(VectorQueryError::ScanIndexForward)
    } else if is_set(member(j, "QueryFilter"@)) {
        Some(VectorQueryError::QueryFilter)
    } else if has_return_scores && text_of(member(j, "Select"@)) == Some("COUNT"@) {
        Some(VectorQueryError::ScoresWithCount)
    } else {
        None
    }
}

fn member_is_set(j: &Json, name: &str) -> (r: bool)
    ensures
        r == is_set(member(j@, name@)),
{
    match j.get(name) {
        Some(v) => !v.is_null(),
        None => false,
    }
}

/// Validates a query that has a vector search.
pub fn validate_vector_query_request(j: &Json, has_return_scores: bool) -> (r: Result<
    (),
    VectorQueryError,
>)
    ensures
        match r {
            Ok(_) => query_fault(j@, has_return_scores) is None,
            Err(e) => query_fault(j@, has_return_scores) == Some(e),
        },
{
    let named = match j.get("IndexName") {
        Some(v) => match v.as_str() {
            Some(s) => !s.is_empty(),
            None => false,
        },
        None => false,
    };
    if !named {
        return Err(VectorQueryError::MissingIndexName);
    }
    let limit = match j.get("Limit") {
        Some(v) => v.as_i64(),
        None => None,
    };
    match limit {
        None => {
            return Err(VectorQueryError::MissingLimit);
        },
        Some(n) => {
            if !(1 <= n && n <= 1000) {
                return Err(VectorQueryError::LimitOutOfRange(n));
            }
        },
    }
    if let Some(v) = j.get("ConsistentRead") {
        if let Some(b) = v.as_bool() {
            if b {
                return Err(VectorQueryError::ConsistentRead);
            }
        }
    }
    if member_is_set(j, "ExclusiveStartKey") {
        return Err(VectorQueryError::ExclusiveStartKey);
    }
    if j.get("ScanIndexForward").is_some() {
        return Err(VectorQueryError::ScanIndexForward);
    }
    if member_is_set(j, "QueryFilter") {
        return Err(VectorQueryError::QueryFilter);
    }
    if has_return_scores {
        if let Some(v) = j.get("Select") {
            if let Some(s) = v.as_str() {
                if text::same(s, "COUNT") {
                    return Err(VectorQueryError::ScoresWithCount);
                }
            }
        }
    }
    Ok(())
}

/// Why the vector extras of a request cannot be sent.
#[derive(Debug)]
pub enum VectorRequestError {
    BodyNotCollected,
    /// The body is not JSON, for this reason.
    InvalidDocument(String),
    /// Vector indexes on this operation.
    IndexesUnsupported(String),
    /// Updates of vector indexes on this operation.
    UpdatesUnsupported(String),
    /// This many updates of vector indexes.
    NotOneUpdate(usize),
    CombinedWithSecondaryIndexUpdates,
    /// A vector search on this operation.
    SearchUnsupported(String),
    InvalidQuery(VectorQueryError),
    /// The changed body cannot be written, for this reason.
    Unserializable(String),
}

/// The mathematical value of a [`VectorRequestError`].
pub ghost enum RequestFault {
    BodyNotCollected,
    InvalidDocument(Seq<char>),
    IndexesUnsupported(Seq<char>),
    UpdatesUnsupported(Seq<char>),
    NotOneUpdate(nat),
    CombinedWithSecondaryIndexUpdates,
    SearchUnsupported(Seq<char>),
    InvalidQuery(VectorQueryError),
    Unserializable(Seq<char>),
}

impl View for VectorRequestError {
    type V = RequestFault;

    open spec fn view(&self) -> RequestFault {
        match self {
            VectorRequestError::BodyNotCollected => RequestFault::BodyNotCollected,
            VectorRequestError::InvalidDocument(s) => RequestFault::InvalidDocument(s@),
            VectorRequestError::IndexesUnsupported(s) => RequestFault::IndexesUnsupported(s@),
            VectorRequestError::UpdatesUnsupported(s) => RequestFault::UpdatesUnsupported(s@),
            VectorRequestError::NotOneUpdate(n) => RequestFault::NotOneUpdate(*n as nat),
            VectorRequestError::CombinedWithSecondaryIndexUpdates =>
                RequestFault::CombinedWithSecondaryIndexUpdates,
            VectorRequestError::SearchUnsupported(s) => RequestFault::SearchUnsupported(s@),
            VectorRequestError::InvalidQuery(e) => RequestFault::InvalidQuery(*e),
            VectorRequestError::Unserializable(s) => RequestFault::Unserializable(s@),
        }
    }
}

/// The message of a fault.
pub open spec fn request_message(fault: RequestFault) -> Seq<char> {
    match fault {
        RequestFault::BodyNotCollected => "body not collected"@,
        RequestFault::InvalidDocument(reason) => "failed to parse JSON body: "@ + reason,
        RequestFault::IndexesUnsupported(operation) =>
            "vector_indexes() was set on a customize() call for operation '"@ + operation
                + "', but VectorIndexes is only supported on CreateTable requests"@,
        RequestFault::UpdatesUnsupported(operation) =>
            "vector_index_updates() was set on a customize() call for operation '"@ + operation
                + "', but VectorIndexUpdates is only supported on UpdateTable requests"@,
        RequestFault::NotOneUpdate(n) =>
            "UpdateTable.VectorIndexUpdates must contain exactly one update per request, got "@
                + text::decimal_of(n),
        RequestFault::CombinedWithSecondaryIndexUpdates =>
            "vector-index updates cannot be combined with GlobalSecondaryIndexUpdates in the same UpdateTable request"@,
        RequestFault::SearchUnsupported(operation) =>
            "vector_search() was set on a customize() call for operation '"@ + operation
                + "', but VectorSearch is only supported on Query requests"@,
        RequestFault::InvalidQuery(e) => query_message(e),
        RequestFault::Unserializable(reason) => "failed to serialize JSON body: "@ + reason,
    }
}

fn framed(before: &str, middle: &str, after: &str) -> (r: String)
    ensures
        r@ == before@ + middle@ + after@,
{
    let mut out = before.to_owned();
    out.append(middle);
    out.append(after);
    out
}

impl VectorRequestError {
    /// The error's message.
    pub fn message(&self) -> (r: String)
        ensures
            r@ == request_message(self@),
    {
        match self {
            VectorRequestError::BodyNotCollected => "body not collected".to_owned(),
            VectorRequestError::InvalidDocument(reason) => {
                let mut out = "failed to parse JSON body: ".to_owned();
                out.append(reason.as_str());
                out
            },
            VectorRequestError::IndexesUnsupported(operation) => framed(
                "vector_indexes() was set on a customize() call for operation '",
                operation.as_str(),
                "', but VectorIndexes is only supported on CreateTable requests",
            ),
            VectorRequestError::UpdatesUnsupported(operation) => framed(
                "vector_index_updates() was set on a customize() call for operation '",
                operation.as_str(),
                "', but VectorIndexUpdates is only supported on UpdateTable requests",
            ),
            VectorRequestError::NotOneUpdate(n) => {
                let mut out =
                    "UpdateTable.VectorIndexUpdates must contain exactly one update per request, got ".to_owned();
                out.append(text::decimal(*n).as_str());
                out
            },
            VectorRequestError::CombinedWithSecondaryIndexUpdates =>
                "vector-index updates cannot be combined with GlobalSecondaryIndexUpdates in the same UpdateTable request".to_owned(),
            VectorRequestError::SearchUnsupported(operation) => framed(
                "vector_search() was set on a customize() call for operation '",
                operation.as_str(),
                "', but VectorSearch is only supported on Query requests",
            ),
            VectorRequestError::InvalidQuery(e) => e.message(),
            VectorRequestError::Unserializable(reason) => {
                let mut out = "failed to serialize JSON body: ".to_owned();
                out.append(reason.as_str());
                out
            },
        }
    }
}

/// The JSON forms of vector indexes.
pub open spec fn indexes_json(indexes: Seq<VectorIndex>) -> JsonV {
    JsonV::Array(Seq::new(indexes.len(), |i: int| index_json(indexes[i]@)))
}

/// The JSON forms of updates.
pub open spec fn updates_json(updates: Seq<VectorIndexUpdate>) -> JsonV {
    JsonV::Array(Seq::new(updates.len(), |i: int| update_json(updates[i])))
}

/// The document with the vector indexes of the store in it.
pub open spec fn with_indexes(j: JsonV, operation: Seq<char>, store: VectorRequestStore) -> Result<
    JsonV,
    RequestFault,
> {
    match store.vector_indexes {
        None => Ok(j),
        Some(indexes) => if operation != "CreateTable"@ {
            Err(RequestFault::IndexesUnsupported(operation))
        } else {
            Ok(with_member(j, "VectorIndexes"@, indexes_json(indexes@)))
        },
    }
}

/// The document updates other secondary indexes too.
pub open spec fn updates_secondary_indexes(j: JsonV) -> bool {
    match array_of(member(j, "GlobalSecondaryIndexUpdates"@)) {
        Some(items) => items.len() > 0,
        None => false,
    }
}

/// The document with the updates of the store in it.
pub open spec fn with_updates(j: JsonV, operation: Seq<char>, store: VectorRequestStore) -> Result<
    JsonV,
    RequestFault,
> {
    match store.vector_index_updates {
        None => Ok(j),
        Some(updates) => if operation != "UpdateTable"@ {
            Err(RequestFault::UpdatesUnsupported(operation))
        } else if updates@.len() != 1 {
            Err(RequestFault::NotOneUpdate(updates@.len()))
        } else if updates_secondary_indexes(j) {
            Err(RequestFault::CombinedWithSecondaryIndexUpdates)
        } else {
            Ok(with_member(j, "VectorIndexUpdates"@, updates_json(updates@)))
        },
    }
}

/// The document with the search of the store in it.
pub open spec fn with_search(j: JsonV, operation: Seq<char>, store: VectorRequestStore) -> Result<
    JsonV,
    RequestFault,
> {
    match store.vector_search {
        None => Ok(j),
        Some(search) => if operation != "Query"@ {
            Err(RequestFault::SearchUnsupported(operation))
        } else {
            let after = with_member(j, "VectorSearch"@, search_json(search));
            match query_fault(after, search.return_scores is Some) {
                Some(e) => Err(RequestFault::InvalidQuery(e)),
                None => Ok(after),
            }
        },
    }
}

/// The document with all extras of the store in it.
pub open spec fn with_extras(j: JsonV, operation: Seq<char>, store: VectorRequestStore) -> Result<
    JsonV,
    RequestFault,
> {
    match with_indexes(j, operation, store) {
        Err(e) => Err(e),
        Ok(j1) => match with_updates(j1, operation, store) {
            Err(e) => Err(e),
            Ok(j2) => with_search(j2, operation, store),
        },
    }
}

/// The operation is the one that the first extra of the store belongs to, so
/// that a member is set in its document.
pub open spec fn sets_member(operation: Seq<char>, store: VectorRequestStore) -> bool {
    if store.vector_indexes is Some {
        operation == "CreateTable"@
    } else if store.vector_index_updates is Some {
        operation == "UpdateTable"@ && store.vector_index_updates->0@.len() == 1
    } else {
        store.vector_search is Some && operation == "Query"@
    }
}

/// Whether a member is set in the document of a request. A document that is
/// neither an object nor `null` has no members to set.
pub fn will_set_member(operation: &str, store: &VectorRequestStore) -> (r: bool)
    ensures
        r == sets_member(operation@, *store),
{
    if store.vector_indexes.is_some() {
        text::same(operation, "CreateTable")
    } else if let Some(updates) = &store.vector_index_updates {
        text::same(operation, "UpdateTable") && updates.len() == 1
    } else {
        store.vector_search.is_some() && text::same(operation, "Query")
    }
}

/// The store adds something.
pub open spec fn has_extras(store: VectorRequestStore) -> bool {
    store.vector_indexes is Some || store.vector_index_updates is Some || store.vector_search is Some
}

/// The document that is sent, and whether it differs from the one that was
/// there: the extras are added, and then the markers are rewritten, where the
/// body or the query vector may hold one.
pub open spec fn vector_document(
    j: JsonV,
    operation: Seq<char>,
    store: Option<VectorRequestStore>,
    may_have_marker: bool,
) -> Result<(JsonV, bool), RequestFault> {
    let extended = match store {
        Some(s) => with_extras(j, operation, s),
        None => Ok(j),
    };
    match extended {
        Err(e) => Err(e),
        Ok(j1) => {
            let added = store is Some && has_extras(store->0);
            let rewrites = may_have_marker || (store is Some && store->0.vector_search is Some);
            if rewrites {
                (Ok((request_rewritten(j1), added || request_rewritten(j1) != j1)))
            } else {
                Ok((j1, added))
            }
        },
    }
}

fn write_indexes(indexes: &Vec<VectorIndex>) -> (r: Json)
    ensures
        r@ == indexes_json(indexes@),
{
    let mut out: Vec<Json> = Vec::new();
    let mut i: usize = 0;
    while i < indexes.len()
        invariant
            i <= indexes.len(),
            out.len() == i,
            forall|k: int| 0 <= k < i ==> json_view(#[trigger] out@[k]) == index_json(indexes@[k]@),
        decreases indexes.len() - i,
    {
        out.push(indexes[i].to_json());
        i = i + 1;
    }
    let r = Json::Array(out);
    assert(r@->Array_0 =~= indexes_json(indexes@)->Array_0);
    r
}

fn write_updates(updates: &Vec<VectorIndexUpdate>) -> (r: Json)
    ensures
        r@ == updates_json(updates@),
{
    let mut out: Vec<Json> = Vec::new();
    let mut i: usize = 0;
    while i < updates.len()
        invariant
            i <= updates.len(),
            out.len() == i,
            forall|k: int| 0 <= k < i ==> json_view(#[trigger] out@[k]) == update_json(updates@[k]),
        decreases updates.len() - i,
    {
        out.push(updates[i].to_json());
        i = i + 1;
    }
    let r = Json::Array(out);
    assert(r@->Array_0 =~= updates_json(updates@)->Array_0);
    r
}

fn updates_others(j: &Json) -> (r: bool)
    ensures
        r == updates_secondary_indexes(j@),
{
    match j.get("GlobalSecondaryIndexUpdates") {
        Some(v) => match v.as_array() {
            Some(items) => items.len() > 0,
            None => false,
        },
        None => false,
    }
}

fn add_extras(j: &mut Json, operation: &str, store: &VectorRequestStore) -> (r: Result<
    (),
    VectorRequestError,
>)
    requires
        sets_member(operation@, *store) ==> takes_members(old(j)@),
        store.valid(),
    ensures
        match r {
            Ok(_) => with_extras(old(j)@, operation@, *store) == Ok::<JsonV, RequestFault>(
                final(j)@,
            ),
            Err(e) => with_extras(old(j)@, operation@, *store) == Err::<JsonV, RequestFault>(e@),
        },
{
    if let Some(indexes) = &store.vector_indexes {
        if !text::same(operation, "CreateTable") {
            return Err(VectorRequestError::IndexesUnsupported(operation.to_owned()));
        }
        j.set("VectorIndexes", write_indexes(indexes));
    }
    if let Some(updates) = &store.vector_index_updates {
        if !text::same(operation, "UpdateTable") {
            return Err(VectorRequestError::UpdatesUnsupported(operation.to_owned()));
        }
        if updates.len() != 1 {
            return Err(VectorRequestError::NotOneUpdate(updates.len()));
        }
        if updates_others(j) {
            return Err(VectorRequestError::CombinedWithSecondaryIndexUpdates);
        }
        j.set("VectorIndexUpdates", write_updates(updates));
    }
    if let Some(search) = &store.vector_search {
        if !text::same(operation, "Query") {
            return Err(VectorRequestError::SearchUnsupported(operation.to_owned()));
        }
        j.set("VectorSearch", search.to_json());
        match validate_vector_query_request(j, search.return_scores.is_some()) {
            Ok(_) => {},
            Err(e) => {
                return Err(VectorRequestError::InvalidQuery(e));
            },
        }
    }
    Ok(())
}

/// Adds the vector extras of a request to its document, and rewrites the
/// markers in it. Tells whether the document changed. Extras on an operation
/// that does not have them are refused rather than ignored.
pub fn rewrite_vector_document(
    j: &mut Json,
    operation: &str,
    store: &Option<VectorRequestStore>,
    may_have_marker: bool,
) -> (r: Result<bool, VectorRequestError>)
    requires
        store is Some ==> store->0.valid() && (sets_member(operation@, store->0)
            ==> takes_members(old(j)@)),
    ensures
        match r {
            Ok(changed) => vector_document(old(j)@, operation@, *store, may_have_marker) == Ok::<
                (JsonV, bool),
                RequestFault,
            >((final(j)@, changed)),
            Err(e) => vector_document(old(j)@, operation@, *store, may_have_marker) == Err::<
                (JsonV, bool),
                RequestFault,
            >(e@),
        },
{
    let mut changed = false;
    let mut searches = false;
    if let Some(s) = store {
        match add_extras(j, operation, s) {
            Ok(_) => {},
            Err(e) => {
                return Err(e);
            },
        }
        searches = s.vector_search.is_some();
        changed = s.vector_indexes.is_some() || s.vector_index_updates.is_some() || searches;
    }
    if may_have_marker || searches {
        proof {
            law_request_rewrite_changes_markers_only(j@);
        }
        if float32_vector::contains_marker(j) {
            changed = true;
        }
        float32_vector::rewrite_request_json_markers(j);
    }
    Ok(changed)
}

/// A request without extras and without markers is left as it is.
pub proof fn law_plain_request_is_untouched(j: JsonV, operation: Seq<char>, may_have_marker: bool)
    requires
        !holds_marker(j),
    ensures
        vector_document(j, operation, None, may_have_marker) == Ok::<(JsonV, bool), RequestFault>(
            (j, false),
        ),
{
    law_request_rewrite_changes_markers_only(j);
}

/// What is sent holds no marker, where the markers are looked for.
pub proof fn law_sent_document_holds_no_marker(
    j: JsonV,
    operation: Seq<char>,
    store: Option<VectorRequestStore>,
)
    ensures
        vector_document(j, operation, store, true) matches Ok((sent, _)) ==> !holds_marker(sent),
{
    let extended = match store {
        Some(s) => with_extras(j, operation, s),
        None => Ok(j),
    };
    if extended is Ok {
        float32_vector::law_request_rewrite_leaves_no_marker(extended->Ok_0);
    }
}

/// Vector indexes are added to the creation of a table, all of them and in
/// order, so that each is read back as it was given; nothing else of the
/// document changes. On any other operation they are refused.
pub proof fn law_indexes_are_added_to_create_table(
    j: JsonV,
    operation: Seq<char>,
    store: VectorRequestStore,
    other: Seq<char>,
)
    requires
        store.vector_indexes is Some,
        store.vector_index_updates is None,
        store.vector_search is None,
    ensures
        ({
            let indexes = store.vector_indexes->0@;
            let r = with_extras(j, operation, store);
            &&& operation != "CreateTable"@ ==> r == Err::<JsonV, RequestFault>(
                RequestFault::IndexesUnsupported(operation),
            )
            &&& operation == "CreateTable"@ ==> {
                &&& r is Ok
                &&& array_of(member(r->Ok_0, "VectorIndexes"@)) matches Some(sent) && {
                    &&& sent.len() == indexes.len()
                    &&& forall|i: int|
                        0 <= i < sent.len() ==> index_from(#[trigger] sent[i]) == Some(
                            VectorIndexV {
                                index_status: None,
                                backfilling: None,
                                ..indexes[i]@
                            },
                        )
                }
                &&& other != "VectorIndexes"@ ==> member(r->Ok_0, other) == member(j, other)
            }
        }),
{
    if operation == "CreateTable"@ {
        let indexes = store.vector_indexes->0@;
        let sent = indexes_json(indexes);
        law_set_member_is_there(j, "VectorIndexes"@, sent, other);
        assert forall|i: int| 0 <= i < sent->Array_0.len() implies index_from(
            #[trigger] sent->Array_0[i],
        ) == Some(VectorIndexV { index_status: None, backfilling: None, ..indexes[i]@ }) by {
            law_sent_index_is_read_back(indexes[i]@);
        }
    }
}

/// One update of vector indexes is added to the update of a table, where no
/// other secondary index is updated; nothing else of the document changes. On
/// any other operation, in any other number and beside other updates it is
/// refused.
pub proof fn law_update_is_added_to_update_table(
    j: JsonV,
    operation: Seq<char>,
    store: VectorRequestStore,
    other: Seq<char>,
)
    requires
        store.vector_indexes is None,
        store.vector_index_updates is Some,
        store.vector_search is None,
    ensures
        ({
            let updates = store.vector_index_updates->0@;
            let r = with_extras(j, operation, store);
            let beside = array_of(member(j, "GlobalSecondaryIndexUpdates"@)) matches Some(items)
                && items.len() > 0;
            &&& r is Ok <==> operation == "UpdateTable"@ && updates.len() == 1 && !beside
            &&& operation != "UpdateTable"@ ==> r == Err::<JsonV, RequestFault>(
                RequestFault::UpdatesUnsupported(operation),
            )
            &&& operation == "UpdateTable"@ && updates.len() != 1 ==> r == Err::<
                JsonV,
                RequestFault,
            >(RequestFault::NotOneUpdate(updates.len()))
            &&& r is Ok ==> {
                &&& array_of(member(r->Ok_0, "VectorIndexUpdates"@)) == Some(
                    seq![update_json(updates[0])],
                )
                &&& other != "VectorIndexUpdates"@ ==> member(r->Ok_0, other) == member(j, other)
            }
        }),
{
    let updates = store.vector_index_updates->0@;
    law_set_member_is_there(j, "VectorIndexUpdates"@, updates_json(updates), other);
    if updates.len() == 1 {
        assert(updates_json(updates)->Array_0 =~= seq![update_json(updates[0])]);
    }
}

/// A search is added to a query that it can be sent with; nothing else of the
/// document changes. On any other operation it is refused.
pub proof fn law_search_is_added_to_query(
    j: JsonV,
    operation: Seq<char>,
    store: VectorRequestStore,
    other: Seq<char>,
)
    requires
        store.vector_indexes is None,
        store.vector_index_updates is None,
        store.vector_search is Some,
    ensures
        ({
            let search = store.vector_search->0;
            let r = with_extras(j, operation, store);
            &&& operation != "Query"@ ==> r == Err::<JsonV, RequestFault>(
                RequestFault::SearchUnsupported(operation),
            )
            &&& r is Ok <==> operation == "Query"@ && can_be_searched(
                j,
                search.return_scores is Some,
            )
            &&& r is Ok ==> {
                &&& member(r->Ok_0, "VectorSearch"@) == Some(search_json(search))
                &&& other != "VectorSearch"@ ==> member(r->Ok_0, other) == member(j, other)
            }
        }),
{
    let search = store.vector_search->0;
    let sent = search_json(search);
    let after = with_member(j, "VectorSearch"@, sent);
    law_set_member_is_there(j, "VectorSearch"@, sent, other);
    law_query_that_can_be_searched(after, search.return_scores is Some);
    reveal_strlit("VectorSearch");
    reveal_strlit("IndexName");
    reveal_strlit("Limit");
    reveal_strlit("ConsistentRead");
    reveal_strlit("ExclusiveStartKey");
    reveal_strlit("ScanIndexForward");
    reveal_strlit("QueryFilter");
    reveal_strlit("Select");
    assert("VectorSearch"@.len() == 12);
    assert("IndexName"@.len() == 9);
    assert("Limit"@.len() == 5);
    assert("ConsistentRead"@.len() == 14);
    assert("ExclusiveStartKey"@.len() == 17);
    assert("ScanIndexForward"@.len() == 16);
    assert("QueryFilter"@.len() == 11);
    assert("Select"@.len() == 6);
    law_set_member_is_there(j, "VectorSearch"@, sent, "IndexName"@);
    law_set_member_is_there(j, "VectorSearch"@, sent, "Limit"@);
    law_set_member_is_there(j, "VectorSearch"@, sent, "ConsistentRead"@);
    law_set_member_is_there(j, "VectorSearch"@, sent, "ExclusiveStartKey"@);
    law_set_member_is_there(j, "VectorSearch"@, sent, "ScanIndexForward"@);
    law_set_member_is_there(j, "VectorSearch"@, sent, "QueryFilter"@);
    law_set_member_is_there(j, "VectorSearch"@, sent, "Select"@);
}

/// The query names an index, has a limit of at least one and at most a thousand
/// items, and has nothing that a search by vector does not support.
pub open spec fn can_be_searched(j: JsonV, scores: bool) -> bool {
    &&& member(j, "IndexName"@) matches Some(JsonV::Text(name)) && name.len() > 0
    &&& signed_of(member(j, "Limit"@)) matches Some(n) && 1 <= n <= 1000
    &&& member(j, "ConsistentRead"@) != Some(JsonV::Bool(true))
    &&& member(j, "ExclusiveStartKey"@) is None || member(j, "ExclusiveStartKey"@) == Some(
        JsonV::Null,
    )
    &&& member(j, "ScanIndexForward"@) is None
    &&& member(j, "QueryFilter"@) is None || member(j, "QueryFilter"@) == Some(JsonV::Null)
    &&& !(scores && member(j, "Select"@) == Some(JsonV::Text("COUNT"@)))
}

/// A query with a vector search is refused exactly where it cannot be searched,
/// and for a reason that it has.
pub proof fn law_query_that_can_be_searched(j: JsonV, scores: bool)
    ensures
        query_fault(j, scores) is None <==> can_be_searched(j, scores),
        query_fault(j, scores) matches Some(VectorQueryError::LimitOutOfRange(n)) ==> signed_of(
            member(j, "Limit"@),
        ) == Some(n) && !(1 <= n <= 1000),
        query_fault(j, scores) == Some(VectorQueryError::ConsistentRead) ==> member(
            j,
            "ConsistentRead"@,
        ) == Some(JsonV::Bool(true)),
        query_fault(j, scores) == Some(VectorQueryError::ScanIndexForward) ==> member(
            j,
            "ScanIndexForward"@,
        ) is Some,
        query_fault(j, scores) == Some(VectorQueryError::ScoresWithCount) ==> scores,
        query_fault(j, scores) == Some(VectorQueryError::MissingLimit) ==> signed_of(
            member(j, "Limit"@),
        ) is None,
{
}

/// Extras never get lost: where there are any, the request is changed or refused.
pub proof fn law_extras_are_sent_or_refused(
    j: JsonV,
    operation: Seq<char>,
    store: VectorRequestStore,
    may_have_marker: bool,
)
    requires
        store.vector_indexes is Some || store.vector_index_updates is Some
            || store.vector_search is Some,
    ensures
        vector_document(j, operation, Some(store), may_have_marker) matches Ok((_, changed))
            ==> changed,
        store.vector_indexes is Some && operation != "CreateTable"@ ==> vector_document(
            j,
            operation,
            Some(store),
            may_have_marker,
        ) is Err,
        store.vector_index_updates is Some && operation != "UpdateTable"@ ==> vector_document(
            j,
            operation,
            Some(store),
            may_have_marker,
        ) is Err,
        store.vector_search is Some && operation != "Query"@ ==> vector_document(
            j,
            operation,
            Some(store),
            may_have_marker,
        ) is Err,
{
}

/// The query vector of a search is sent as numbers: no marker is left in it,
/// whether the body was noticed to hold one or not.
pub proof fn law_searched_document_holds_no_marker(
    j: JsonV,
    operation: Seq<char>,
    store: VectorRequestStore,
    may_have_marker: bool,
)
    requires
        store.vector_search is Some,
    ensures
        vector_document(j, operation, Some(store), may_have_marker) matches Ok((sent, _))
            ==> !holds_marker(sent),
{
    let extended = with_extras(j, operation, store);
    if extended is Ok {
        float32_vector::law_request_rewrite_leaves_no_marker(extended->Ok_0);
    }
}

/// A message tells what is wrong: the operation, the number and the reason
/// stand in it.
pub proof fn law_messages_tell_what_is_wrong(
    operation: Seq<char>,
    reason: Seq<char>,
    n: nat,
    limit: i64,
)
    ensures
        text::has_part(request_message(RequestFault::IndexesUnsupported(operation)), operation),
        text::has_part(request_message(RequestFault::UpdatesUnsupported(operation)), operation),
        text::has_part(request_message(RequestFault::SearchUnsupported(operation)), operation),
        text::has_part(request_message(RequestFault::InvalidDocument(reason)), reason),
        text::has_part(request_message(RequestFault::Unserializable(reason)), reason),
        text::has_part(request_message(RequestFault::NotOneUpdate(n)), text::decimal_of(n)),
        text::has_part(
            query_message(VectorQueryError::LimitOutOfRange(limit)),
            text::signed_decimal_of(limit as int),
        ),
{
    text::lemma_has_parts(
        "vector_indexes() was set on a customize() call for operation '"@,
        operation,
        "', but VectorIndexes is only supported on CreateTable requests"@,
    );
    text::lemma_has_parts(
        "vector_index_updates() was set on a customize() call for operation '"@,
        operation,
        "', but VectorIndexUpdates is only supported on UpdateTable requests"@,
    );
    text::lemma_has_parts(
        "vector_search() was set on a customize() call for operation '"@,
        operation,
        "', but VectorSearch is only supported on Query requests"@,
    );
    text::lemma_has_parts("failed to parse JSON body: "@, reason, reason);
    text::lemma_has_parts("failed to serialize JSON body: "@, reason, reason);
    text::lemma_has_parts(
        "UpdateTable.VectorIndexUpdates must contain exactly one update per request, got "@,
        text::decimal_of(n),
        reason,
    );
    text::lemma_has_parts(
        "vector-search queries require Limit between 1 and 1000, got "@,
        text::signed_decimal_of(limit as int),
        reason,
    );
}

/// The value of a fault is the fault, with all that it tells.
pub proof fn law_value_has_the_whole_fault(e: VectorRequestError)
    ensures
        e is BodyNotCollected <==> e@ is BodyNotCollected,
        e matches VectorRequestError::InvalidDocument(s) ==> e@ == RequestFault::InvalidDocument(
            s@,
        ),
        e matches VectorRequestError::IndexesUnsupported(s) ==> e@
            == RequestFault::IndexesUnsupported(s@),
        e matches VectorRequestError::UpdatesUnsupported(s) ==> e@
            == RequestFault::UpdatesUnsupported(s@),
        e matches VectorRequestError::NotOneUpdate(n) ==> e@ == RequestFault::NotOneUpdate(
            n as nat,
        ),
        e is CombinedWithSecondaryIndexUpdates <==> e@ is CombinedWithSecondaryIndexUpdates,
        e matches VectorRequestError::SearchUnsupported(s) ==> e@
            == RequestFault::SearchUnsupported(s@),
        e matches VectorRequestError::InvalidQuery(q) ==> e@ == RequestFault::InvalidQuery(q),
        e matches VectorRequestError::Unserializable(s) ==> e@ == RequestFault::Unserializable(s@),
{
}

} // verus!
