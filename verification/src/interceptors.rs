//! What is done to a request before it is sent, and to a response before it is
//! read.

use crate::compression::{
    accept_encoding, accept_encoding_header_value, after_compression, compress_request,
    content_encoding, RequestCompression, ResponseCompression, ResponseCompressionAlgorithm,
};
use crate::config::{response_view, AlternatorOperationBuilder, Nanos};
use crate::float32_vector::{quick_base64_signature, signature};
use crate::http::{
    has_header, header, header_values, law_appended_value_comes_last, lemma_header_names,
    lemma_kept_complete, lemma_with_header, lemma_without, with_body,
    with_header, without, HeaderV, Headers, Request, RequestV,
};
use crate::json::{takes_members, Json, JsonV};
use crate::live_nodes::LiveNodes;
use crate::node_url;
use crate::node_url::{opt_chars, retargeted, RetargetError};
use crate::optimize_headers::{allowed, is_allowed, strip_headers, stripped};
use crate::query_plan::{plan_fits, plan_step, QueryPlan};
use crate::text;
use crate::user_agent::{
    apply_resolved, header_text, is_refused, with_user_agent, InvalidHeaderValue, UserAgent,
};
use crate::vector_interceptor::VectorRequestStore;
use crate::vector_request::{
    rewrite_vector_document, sets_member, vector_document, RequestFault, VectorRequestError,
};
use crate::vector_response::{contains_subslice, occurs};
use vstd::prelude::*;
use vstd::utf8::encode_utf8;

verus! {

/// What one request carries from one point of its course to the next. What is
/// set overrides the settings of the client.
#[derive(Debug)]
pub struct RequestState {
    pub vector_request: Option<VectorRequestStore>,
    pub request_compression: Option<RequestCompression>,
    pub response_compression: Option<ResponseCompression>,
    pub preserve_auth_headers: Option<bool>,
    pub preserve_float32_vectors: Option<bool>,
    pub query_plan: Option<QueryPlan>,
}

impl RequestState {
    /// Nothing is carried, and nothing overridden.
    pub fn new() -> (r: Self)
        ensures
            r.vector_request is None,
            r.request_compression is None,
            r.response_compression is None,
            r.preserve_auth_headers is None,
            r.preserve_float32_vectors is None,
            r.query_plan is None,
    {
        RequestState {
            vector_request: None,
            request_compression: None,
            response_compression: None,
            preserve_auth_headers: None,
            preserve_float32_vectors: None,
            query_plan: None,
        }
    }

    /// Takes in the settings of one operation. What is set in them is set for
    /// the request; the rest stays as it is.
    pub fn alternator_config_override(&mut self, config_override: &AlternatorOperationBuilder)
        ensures
            final(self).request_compression == (match config_override.request_compression {
                Some(c) => Some(c),
                None => old(self).request_compression,
            }),
            response_view(final(self).response_compression) == (
            match config_override.response_compression {
                Some(c) => Some(c@),
                None => response_view(old(self).response_compression),
            }),
            final(self).preserve_float32_vectors == (
            match config_override.preserve_float32_vectors {
                Some(preserve) => Some(preserve),
                None => old(self).preserve_float32_vectors,
            }),
            final(self).vector_request == old(self).vector_request,
            final(self).preserve_auth_headers == old(self).preserve_auth_headers,
            final(self).query_plan == old(self).query_plan,
    {
        if let Some(c) = config_override.request_compression {
            self.request_compression = Some(c);
        }
        if let Some(c) = &config_override.response_compression {
            self.response_compression = Some(c.duplicate());
        }
        if let Some(preserve) = config_override.preserve_float32_vectors {
            self.preserve_float32_vectors = Some(preserve);
        }
    }

    /// The vector extras can be sent.
    pub open spec fn valid(self) -> bool {
        self.vector_request is Some ==> self.vector_request->0.valid()
    }
}

/// The driver's main interceptor: request compression, negotiation of response
/// compression, header stripping, the user agent, and the node that a request
/// is sent to.
pub struct AlternatorInterceptor {
    pub request_compression: RequestCompression,
    pub response_compression: ResponseCompression,
    pub optimize_headers: bool,
    pub user_agent: UserAgent,
    pub preserve_auth_headers: bool,
    pub preserve_float32_vectors: bool,
}

/// The last part of a target such as `DynamoDB_20120810.CreateTable`.
pub open spec fn operation_of(target: Seq<char>) -> Seq<char> {
    text::pieces(target, '.').last()
}

/// The operation of a request, by its target.
pub fn operation_name_from_target(target: &str) -> (r: Option<String>)
    ensures
        r is Some,
        r->0@ == operation_of(target@),
{
    let mut parts = text::split(target, '.');
    let ghost all = parts@;
    let last = parts.pop();
    assert(text::views(all).last() == all.last()@);
    last
}

/// The target of a request, or nothing.
pub open spec fn target_of(r: RequestV) -> Seq<char> {
    match header(r.headers, "x-amz-target"@) {
        Some(t) => t,
        None => Seq::empty(),
    }
}

/// The body is there and the signature of markers occurs in it.
pub open spec fn may_hold_marker(r: RequestV) -> bool {
    r.body is Some && occurs(r.body->0, encode_utf8(signature()))
}

/// Whether the body of a request may hold a marker.
pub fn body_may_have_marker(request: &Request) -> (r: bool)
    ensures
        r == may_hold_marker(request@),
{
    match &request.body {
        Some(body) => {
            let signature = quick_base64_signature();
            contains_subslice(body.as_slice(), signature.as_str().as_bytes())
        },
        None => false,
    }
}

/// How the rewrite of a request ended: the request after it, or the fault.
/// `parsed` and `written` tell what reading the body and writing the changed
/// document gave.
pub open spec fn rewrite_result(
    r: RequestV,
    store: Option<VectorRequestStore>,
    parsed: Result<JsonV, Seq<char>>,
    written: Result<Seq<u8>, Seq<char>>,
) -> Result<RequestV, RequestFault> {
    if r.body is None {
        Err(RequestFault::BodyNotCollected)
    } else {
        match parsed {
            Err(reason) => Err(RequestFault::InvalidDocument(reason)),
            Ok(j) => match vector_document(
                j,
                operation_of(target_of(r)),
                store,
                may_hold_marker(r),
            ) {
                Err(fault) => Err(fault),
                Ok((_, changed)) => if !changed {
                    Ok(r)
                } else {
                    match written {
                        Err(reason) => Err(RequestFault::Unserializable(reason)),
                        Ok(body) => Ok(with_body(r, body)),
                    }
                },
            },
        }
    }
}

/// What reading gave.
pub open spec fn parsed_view(r: Result<Json, String>) -> Result<JsonV, Seq<char>> {
    match r {
        Ok(j) => Ok(j@),
        Err(e) => Err(e@),
    }
}

/// What writing gave.
pub open spec fn written_view(r: Result<Vec<u8>, String>) -> Result<Seq<u8>, Seq<char>> {
    match r {
        Ok(b) => Ok(b@),
        Err(e) => Err(e@),
    }
}

/// The document that is written, where one is.
pub open spec fn document_written(
    r: RequestV,
    store: Option<VectorRequestStore>,
    parsed: Result<JsonV, Seq<char>>,
) -> Option<JsonV> {
    match parsed {
        Ok(j) => match vector_document(j, operation_of(target_of(r)), store, may_hold_marker(r)) {
            Ok((sent, true)) => Some(sent),
            _ => None,
        },
        Err(_) => None,
    }
}

/// What `parse` can give for a body.
pub open spec fn can_parse<P: Fn(&[u8]) -> Result<Json, String>>(
    parse: P,
    body: Seq<u8>,
    r: Result<Json, String>,
) -> bool {
    exists|bytes: &[u8]| bytes@ == body && #[trigger] call_ensures(parse, (bytes,), r)
}

/// What `write` can give for a document.
pub open spec fn can_write<W: Fn(&Json) -> Result<Vec<u8>, String>>(
    write: W,
    document: JsonV,
    r: Result<Vec<u8>, String>,
) -> bool {
    exists|j: &Json| j@ == document && #[trigger] call_ensures(write, (j,), r)
}

/// The body of a request was rewritten, with what `parse` and `write` gave.
pub open spec fn rewritten_body<
    P: Fn(&[u8]) -> Result<Json, String>,
    W: Fn(&Json) -> Result<Vec<u8>, String>,
>(
    parse: P,
    write: W,
    store: Option<VectorRequestStore>,
    before: RequestV,
    r: Result<(), VectorRequestError>,
    after: RequestV,
) -> bool {
    if before.body is None {
        r is Err && r->Err_0@ == RequestFault::BodyNotCollected && after == before
    } else {
        exists|parsed: Result<Json, String>|
            #![trigger parsed_view(parsed)]
            {
                &&& can_parse(parse, before.body->0, parsed)
                &&& match document_written(before, store, parsed_view(parsed)) {
                    None => ended_with(
                        r,
                        before,
                        after,
                        rewrite_result(before, store, parsed_view(parsed), Ok(Seq::empty())),
                    ),
                    Some(sent) => exists|written: Result<Vec<u8>, String>|
                        #![trigger written_view(written)]
                        {
                            &&& can_write(write, sent, written)
                            &&& ended_with(
                                r,
                                before,
                                after,
                                rewrite_result(
                                    before,
                                    store,
                                    parsed_view(parsed),
                                    written_view(written),
                                ),
                            )
                        },
                }
            }
    }
}

/// `parse` can read the body of the request, and where a member is set in what
/// it gives, that has members.
pub open spec fn reads_body<P: Fn(&[u8]) -> Result<Json, String>>(
    parse: P,
    r: RequestV,
    store: Option<VectorRequestStore>,
) -> bool {
    forall|bytes: &[u8]| #[trigger]
        holds_bytes(bytes, r.body) ==> call_requires(parse, (bytes,)) && forall|
            parsed: Result<Json, String>,
        | #[trigger]
            call_ensures(parse, (bytes,), parsed) && parsed is Ok && store is Some && sets_member(
                operation_of(target_of(r)),
                store->0,
            ) ==> takes_members(parsed->Ok_0@)
}

/// The bytes are those of the body.
pub open spec fn holds_bytes(bytes: &[u8], body: Option<Seq<u8>>) -> bool {
    body == Some(bytes@)
}

/// Adds the vector extras of a request to its body, and rewrites the markers
/// in it. `parse` reads a body as JSON and `write` writes a document. Where
/// nothing changes, the body is left byte for byte.
pub fn rewrite_vector_request_body<
    P: Fn(&[u8]) -> Result<Json, String>,
    W: Fn(&Json) -> Result<Vec<u8>, String>,
>(request: &mut Request, store: &Option<VectorRequestStore>, parse: &P, write: &W) -> (r: Result<
    (),
    VectorRequestError,
>)
    requires
        store is Some ==> store->0.valid(),
        reads_body(*parse, old(request)@, *store),
        forall|j: &Json| call_requires(*write, (j,)),
    ensures
        rewritten_body(*parse, *write, *store, old(request)@, r, final(request)@),
{
    let may_have_marker = body_may_have_marker(request);
    proof {
        lemma_header_names();
    }
    let target = match request.headers.get("x-amz-target") {
        Some(t) => t.to_owned(),
        None => String::new(),
    };
    assert(target@ =~= target_of(request@));
    let operation = match operation_name_from_target(target.as_str()) {
        Some(name) => name,
        None => String::new(),
    };
    let parsed = match &request.body {
        Some(body) => {
            let bytes = body.as_slice();
            assert(holds_bytes(bytes, old(request)@.body));
            parse(bytes)
        },
        None => {
            return Err(VectorRequestError::BodyNotCollected);
        },
    };
    assert(can_parse(*parse, old(request)@.body->0, parsed));
    let ghost seen = parsed_view(parsed);
    let mut document = match parsed {
        Ok(j) => j,
        Err(reason) => {
            assert(parsed_view(parsed) == seen);
            return Err(VectorRequestError::InvalidDocument(reason));
        },
    };
    let ghost before = parsed;
    match rewrite_vector_document(&mut document, operation.as_str(), store, may_have_marker) {
        Err(e) => {
            assert(parsed_view(before) == seen);
            return Err(e);
        },
        Ok(changed) => {
            if !changed {
                assert(parsed_view(before) == seen);
                return Ok(());
            }
        },
    }
    let written = write(&document);
    assert(parsed_view(before) == seen);
    assert(can_write(*write, document@, written));
    let ghost done = written_view(written);
    match written {
        Ok(body) => {
            request.replace_body(body);
            assert(written_view(written) == done);
            Ok(())
        },
        Err(reason) => {
            assert(written_view(written) == done);
            Err(VectorRequestError::Unserializable(reason))
        },
    }
}

/// A step ended as it should: the request is the one wanted, or untouched
/// where there is a fault.
pub open spec fn ended_with(
    r: Result<(), VectorRequestError>,
    before: RequestV,
    after: RequestV,
    wanted: Result<RequestV, RequestFault>,
) -> bool {
    match wanted {
        Ok(request) => r is Ok && after == request,
        Err(fault) => r is Err && r->Err_0@ == fault && after == before,
    }
}

/// The setting of the request, or else of the client.
pub open spec fn overridden<T>(of_request: Option<T>, of_client: T) -> T {
    match of_request {
        Some(v) => v,
        None => of_client,
    }
}

/// The request after compression, where it is configured.
pub open spec fn with_compression(r: RequestV, compression: RequestCompression) -> RequestV {
    match compression@ {
        Some((algorithm, level, threshold)) => after_compression(r, algorithm, level@, threshold),
        None => r,
    }
}

/// The request that tells which response encodings are accepted.
pub open spec fn with_accepted(
    r: RequestV,
    accepted: Option<Seq<ResponseCompressionAlgorithm>>,
) -> RequestV {
    match accepted {
        Some(algorithms) => RequestV {
            headers: with_header(r.headers, "accept-encoding"@, accept_encoding(algorithms)),
            ..r
        },
        None => r,
    }
}

/// The headers of a response, and its status.
#[derive(Debug)]
pub struct ResponseHead {
    pub status: u16,
    pub headers: Headers,
}

/// What is done to the body of a response.
#[derive(Debug)]
pub struct ResponsePlan {
    /// The encodings to undo, in the order in which they are undone.
    pub decode: Vec<ResponseCompressionAlgorithm>,
    /// Whether vectors are preserved, where vectors are rewritten at all.
    pub transform: Option<bool>,
}

/// A response has an encoding that is not supported.
#[derive(Debug)]
pub struct UnsupportedEncoding {
    pub token: String,
}

impl UnsupportedEncoding {
    /// The error's message.
    pub fn message(&self) -> (r: String)
        ensures
            r@ == "unsupported Content-Encoding: '"@ + self.token@
                + "'. Supported encodings are: gzip, deflate"@,
    {
        let mut out = "unsupported Content-Encoding: '".to_owned();
        out.append(self.token.as_str());
        out.append("'. Supported encodings are: gzip, deflate");
        out
    }
}

/// The strings that are not empty, without white space around them.
pub open spec fn trimmed_tokens(pieces: Seq<Seq<char>>) -> Seq<Seq<char>>
    decreases pieces.len(),
{
    if pieces.len() == 0 {
        Seq::empty()
    } else {
        let before = trimmed_tokens(pieces.drop_last());
        let token = text::trimmed(pieces.last());
        if token.len() == 0 {
            before
        } else {
            before.push(token)
        }
    }
}

/// The tokens of comma-separated values.
pub open spec fn tokens_of(values: Seq<Seq<char>>) -> Seq<Seq<char>>
    decreases values.len(),
{
    if values.len() == 0 {
        Seq::empty()
    } else {
        tokens_of(values.drop_last()) + trimmed_tokens(text::pieces(values.last(), ','))
    }
}

/// The encodings that the tokens name, or the first that is not supported.
pub open spec fn encodings_of(tokens: Seq<Seq<char>>) -> Result<
    Seq<ResponseCompressionAlgorithm>,
    Seq<char>,
>
    decreases tokens.len(),
{
    if tokens.len() == 0 {
        Ok(Seq::empty())
    } else {
        match encodings_of(tokens.drop_last()) {
            Err(token) => Err(token),
            Ok(before) => match ResponseCompressionAlgorithm::of_encoding(tokens.last()) {
                Some(algorithm) => Ok(before.push(algorithm)),
                None => Err(tokens.last()),
            },
        }
    }
}

/// The encodings of a response.
pub open spec fn response_encodings(headers: Seq<HeaderV>) -> Result<
    Seq<ResponseCompressionAlgorithm>,
    Seq<char>,
> {
    encodings_of(tokens_of(header_values(headers, "content-encoding"@)))
}

/// The headers without those that no longer hold of a body that was decoded.
pub open spec fn without_encoding(headers: Seq<HeaderV>) -> Seq<HeaderV> {
    without(without(headers, "content-encoding"@), "content-length"@)
}

/// The headers without the length and the checksums of the body.
pub open spec fn without_checksums(headers: Seq<HeaderV>) -> Seq<HeaderV> {
    without(
        without(
            without(
                without(
                    without(
                        without(
                            without(without(headers, "content-length"@), "x-amz-crc32"@),
                            "x-amz-crc32c"@,
                        ),
                        "x-amz-checksum-crc32"@,
                    ),
                    "x-amz-checksum-crc32c"@,
                ),
                "x-amz-checksum-sha1"@,
            ),
            "x-amz-checksum-sha256"@,
        ),
        "x-amz-checksum-crc64nvme"@,
    )
}

/// The status tells of success.
pub open spec fn is_success(status: u16) -> bool {
    200 <= status < 300
}

proof fn lemma_encodings(tokens: Seq<Seq<char>>, n: int)
    requires
        0 <= n <= tokens.len(),
        encodings_of(tokens.take(n)) is Err,
    ensures
        encodings_of(tokens) == encodings_of(tokens.take(n)),
    decreases tokens.len(),
{
    if n < tokens.len() {
        assert(tokens.drop_last().take(n) =~= tokens.take(n));
        lemma_encodings(tokens.drop_last(), n);
    } else {
        assert(tokens.take(n) =~= tokens);
    }
}

fn read_tokens(values: &Vec<String>) -> (r: Vec<String>)
    ensures
        text::views(r@) == tokens_of(text::views(values@)),
{
    let ghost all = text::views(values@);
    let mut out: Vec<String> = Vec::new();
    let mut i: usize = 0;
    assert(text::views(out@) =~= tokens_of(all.take(0)));
    while i < values.len()
        invariant
            i <= values.len(),
            all == text::views(values@),
            text::views(out@) == tokens_of(all.take(i as int)),
        decreases values.len() - i,
    {
        assert(all.take(i + 1).drop_last() =~= all.take(i as int));
        let parts = text::split(values[i].as_str(), ',');
        let ghost pieces = text::views(parts@);
        let ghost before = text::views(out@);
        let mut k: usize = 0;
        assert(text::views(out@) =~= before + trimmed_tokens(pieces.take(0)));
        while k < parts.len()
            invariant
                k <= parts.len(),
                pieces == text::views(parts@),
                text::views(out@) == before + trimmed_tokens(pieces.take(k as int)),
            decreases parts.len() - k,
        {
            assert(pieces.take(k + 1).drop_last() =~= pieces.take(k as int));
            let token = text::trim(parts[k].as_str());
            let ghost listed = out@;
            if !token.as_str().is_empty() {
                let ghost t = token@;
                out.push(token);
                assert(text::views(out@) =~= text::views(listed).push(t));
            }
            k = k + 1;
            assert(text::views(out@) =~= before + trimmed_tokens(pieces.take(k as int)));
        }
        assert(pieces.take(k as int) =~= pieces);
        i = i + 1;
    }
    assert(all.take(i as int) =~= all);
    out
}

fn read_encodings(tokens: &Vec<String>) -> (r: Result<
    Vec<ResponseCompressionAlgorithm>,
    UnsupportedEncoding,
>)
    ensures
        match r {
            Ok(a) => encodings_of(text::views(tokens@)) == Ok::<
                Seq<ResponseCompressionAlgorithm>,
                Seq<char>,
            >(a@),
            Err(e) => encodings_of(text::views(tokens@)) == Err::<
                Seq<ResponseCompressionAlgorithm>,
                Seq<char>,
            >(e.token@),
        },
{
    let ghost all = text::views(tokens@);
    let mut out: Vec<ResponseCompressionAlgorithm> = Vec::new();
    let mut i: usize = 0;
    assert(out@ =~= Seq::empty());
    while i < tokens.len()
        invariant
            i <= tokens.len(),
            all == text::views(tokens@),
            encodings_of(all.take(i as int)) == Ok::<
                Seq<ResponseCompressionAlgorithm>,
                Seq<char>,
            >(out@),
        decreases tokens.len() - i,
    {
        assert(all.take(i + 1).drop_last() =~= all.take(i as int));
        match ResponseCompressionAlgorithm::from_content_encoding(tokens[i].as_str()) {
            Some(algorithm) => {
                out.push(algorithm);
            },
            None => {
                proof {
                    lemma_encodings(all, i + 1);
                }
                return Err(UnsupportedEncoding { token: tokens[i].clone() });
            },
        }
        i = i + 1;
    }
    assert(all.take(i as int) =~= all);
    Ok(out)
}

/// The encodings in the order in which they are undone: the one that was
/// applied last, which is listed last, first.
pub fn decode_order(encodings: &Vec<ResponseCompressionAlgorithm>) -> (r: Vec<
    ResponseCompressionAlgorithm,
>)
    ensures
        r@ == encodings@.reverse(),
{
    let mut out: Vec<ResponseCompressionAlgorithm> = Vec::new();
    let mut i: usize = encodings.len();
    while i > 0
        invariant
            i <= encodings.len(),
            out@ == encodings@.skip(i as int).reverse(),
        decreases i,
    {
        i = i - 1;
        out.push(encodings[i]);
        assert(out@ =~= encodings@.skip(i as int).reverse());
    }
    assert(encodings@.skip(0) =~= encodings@);
    out
}

impl AlternatorInterceptor {
    /// The request compression in force.
    pub open spec fn effective_request_compression(&self, state: RequestState) -> RequestCompression {
        overridden(state.request_compression, self.request_compression)
    }

    /// The response compression in force.
    pub open spec fn effective_response_compression(&self, state: RequestState) -> Option<
        Seq<ResponseCompressionAlgorithm>,
    > {
        overridden(response_view(state.response_compression), self.response_compression@)
    }

    /// The request as it enters the retry loop, after its body was rewritten.
    pub open spec fn prepared(&self, state: RequestState, r: RequestV) -> RequestV {
        with_accepted(
            with_compression(r, self.effective_request_compression(state)),
            self.effective_response_compression(state),
        )
    }

    /// Compresses the body of a request, and tells which response encodings
    /// are accepted.
    pub fn prepare_request(&self, request: &mut Request, state: &RequestState)
        ensures
            final(request)@ == self.prepared(*state, old(request)@),
    {
        let compression = match state.request_compression {
            Some(c) => c,
            None => self.request_compression,
        };
        if let Some((algorithm, level, threshold)) = compression.get() {
            compress_request(request, algorithm, level, threshold);
        }
        let accepted = match &state.response_compression {
            Some(c) => c.get(),
            None => self.response_compression.get(),
        };
        if let Some(algorithms) = accepted {
            let value = accept_encoding_header_value(algorithms);
            proof {
                lemma_header_names();
            }
            request.headers.insert("accept-encoding", value.as_str());
        }
    }

    /// Once per request, before its first attempt: rewrites the body where
    /// there are vector extras or may be markers, compresses it, and tells
    /// which response encodings are accepted. `parse` reads a body as JSON and
    /// `write` writes a document.
    pub fn modify_before_retry_loop<
        P: Fn(&[u8]) -> Result<Json, String>,
        W: Fn(&Json) -> Result<Vec<u8>, String>,
    >(&self, request: &mut Request, state: &RequestState, parse: &P, write: &W) -> (r: Result<
        (),
        VectorRequestError,
    >)
        requires
            state.valid(),
            reads_body(*parse, old(request)@, state.vector_request),
            forall|j: &Json| call_requires(*write, (j,)),
        ensures
            state.vector_request is None && !may_hold_marker(old(request)@) ==> r is Ok && final(request)@ == self.prepared(*state, old(request)@),
            state.vector_request is Some || may_hold_marker(old(request)@) ==> match r {
                Ok(_) => exists|mid: RequestV|
                    #![trigger self.prepared(*state, mid)]
                    rewritten_body(
                        *parse,
                        *write,
                        state.vector_request,
                        old(request)@,
                        Ok(()),
                        mid,
                    ) && final(request)@ == self.prepared(*state, mid),
                Err(_) => rewritten_body(
                    *parse,
                    *write,
                    state.vector_request,
                    old(request)@,
                    r,
                    final(request)@,
                ),
            },
    {
        if state.vector_request.is_some() || body_may_have_marker(request) {
            match rewrite_vector_request_body(request, &state.vector_request, parse, write) {
                Ok(_) => {},
                Err(e) => {
                    return Err(e);
                },
            }
        }
        let ghost mid = request@;
        self.prepare_request(request, state);
        assert(request@ == self.prepared(*state, mid));
        Ok(())
    }

    /// The request as it is sent, with the user agent `agent` or none.
    pub open spec fn transmitted(
        &self,
        state: RequestState,
        r: RequestV,
        agent: Option<Seq<char>>,
    ) -> RequestV {
        let auth = overridden(state.preserve_auth_headers, self.preserve_auth_headers);
        with_user_agent(
            if self.optimize_headers {
                stripped(r, auth)
            } else {
                r
            },
            agent,
        )
    }

    /// Strips the headers of a request and sets its user agent to `agent`, or
    /// takes it out.
    pub fn transmit_as(
        &self,
        request: &mut Request,
        state: &RequestState,
        agent: Option<String>,
    ) -> (r: Result<(), InvalidHeaderValue>)
        ensures
            final(request)@ == self.transmitted(*state, old(request)@, opt_chars(agent)),
            r is Err <==> is_refused(opt_chars(agent)),
    {
        let auth = match state.preserve_auth_headers {
            Some(preserve) => preserve,
            None => self.preserve_auth_headers,
        };
        if self.optimize_headers {
            strip_headers(request, auth);
        }
        apply_resolved(request, agent)
    }

    /// Before a request is sent: strips its headers and sets its user agent. A
    /// transform of the user agent is called here.
    pub fn modify_before_transmit(&self, request: &mut Request, state: &RequestState) -> (r: Result<
        (),
        InvalidHeaderValue,
    >)
        ensures
            exists|agent: Option<Seq<char>>|
                {
                    &&& #[trigger] self.user_agent.resolves_to(agent)
                    &&& final(request)@ == self.transmitted(*state, old(request)@, agent)
                    &&& r is Err <==> is_refused(agent)
                },
    {
        let agent = self.user_agent.resolve();
        self.transmit_as(request, state, agent)
    }

    /// After a request was signed: remembers to keep the headers of the
    /// signature, where there is one.
    pub fn read_after_signing(&self, request: &Request, state: &mut RequestState)
        ensures
            *final(state) == (RequestState {
                preserve_auth_headers: if has_header(request@.headers, "authorization"@)
                    && has_header(request@.headers, "x-amz-date"@) {
                    Some(true)
                } else {
                    old(state).preserve_auth_headers
                },
                ..*old(state)
            }),
    {
        proof {
            lemma_header_names();
        }
        if request.headers.contains_key("authorization") && request.headers.contains_key(
            "x-amz-date",
        ) {
            state.preserve_auth_headers = Some(true);
        }
    }

    /// Before each attempt is signed: takes the next node from the plan and
    /// sends the request there. Without a plan, or where it is exhausted, the
    /// request goes where it went.
    pub fn modify_before_signing(
        &self,
        request: &mut Request,
        plan: &mut Option<QueryPlan>,
        live_nodes: &mut LiveNodes,
        now: Nanos,
    ) -> (r: Result<(), RetargetError>)
        requires
            *old(plan) is Some ==> plan_fits((*old(plan))->0@, old(live_nodes)@),
        ensures
            *old(plan) is None ==> {
                &&& r is Ok
                &&& *final(plan) is None
                &&& final(request)@ == old(request)@
                &&& final(live_nodes)@ == old(live_nodes)@
            },
            *old(plan) is Some ==> {
                let (chosen, after, nodes) = plan_step(
                    (*old(plan))->0@,
                    old(live_nodes)@,
                    now,
                );
                &&& *final(plan) is Some
                &&& (*final(plan))->0@ == after
                &&& final(live_nodes)@ == nodes
                &&& match chosen {
                    None => r is Ok && final(request)@ == old(request)@,
                    Some(node) => match retargeted(old(request)@.uri, node) {
                        Ok(uri) => r is Ok && final(request)@ == (RequestV {
                            uri,
                            ..old(request)@
                        }),
                        Err(fault) => r is Err && r->Err_0@ == fault && final(request)@ == old(request)@,
                    },
                }
            },
    {
        match plan {
            None => Ok(()),
            Some(query_plan) => {
                match query_plan.next_node(live_nodes, now) {
                    None => Ok(()),
                    Some(node) => {
                        match node_url::retarget(request.uri.as_str(), &node) {
                            Ok(uri) => {
                                request.uri = uri;
                                Ok(())
                            },
                            Err(e) => Err(e),
                        }
                    },
                }
            },
        }
    }

    /// The headers of a response after its encodings were undone and its
    /// vectors rewritten.
    pub open spec fn response_headers(headers: Seq<HeaderV>, status: u16, encoded: bool) -> Seq<HeaderV> {
        let decoded = if encoded {
            without_encoding(headers)
        } else {
            headers
        };
        if is_success(status) {
            without_checksums(decoded)
        } else {
            decoded
        }
    }

    /// Before a response is read: decides which encodings are undone and
    /// whether its vectors are rewritten, and takes out the headers that no
    /// longer hold of it. Only the vectors of successful responses are
    /// rewritten, so that an error of the service stays what it is.
    pub fn modify_before_deserialization(
        &self,
        response: &mut ResponseHead,
        state: &RequestState,
    ) -> (r: Result<ResponsePlan, UnsupportedEncoding>)
        ensures
            final(response).status == old(response).status,
            match response_encodings(old(response).headers@) {
                Err(token) => {
                    &&& r is Err
                    &&& r->Err_0.token@ == token
                    &&& final(response).headers@ == old(response).headers@
                },
                Ok(encodings) => {
                    &&& r is Ok
                    &&& r->Ok_0.decode@ == encodings.reverse()
                    &&& r->Ok_0.transform == (if is_success(old(response).status) {
                        Some(
                            overridden(
                                state.preserve_float32_vectors,
                                self.preserve_float32_vectors,
                            ),
                        )
                    } else {
                        None
                    })
                    &&& final(response).headers@ == Self::response_headers(
                        old(response).headers@,
                        old(response).status,
                        encodings.len() > 0,
                    )
                },
            },
    {
        proof {
            lemma_header_names();
        }
        let values = response.headers.get_all("content-encoding");
        let tokens = read_tokens(&values);
        let encodings = match read_encodings(&tokens) {
            Ok(e) => e,
            Err(e) => {
                return Err(e);
            },
        };
        if encodings.len() > 0 {
            response.headers.remove("content-encoding");
            response.headers.remove("content-length");
        }
        let mut transform = None;
        if 200 <= response.status && response.status < 300 {
            transform = Some(
                match state.preserve_float32_vectors {
                    Some(preserve) => preserve,
                    None => self.preserve_float32_vectors,
                },
            );
            response.headers.remove("content-length");
            response.headers.remove("x-amz-crc32");
            response.headers.remove("x-amz-crc32c");
            response.headers.remove("x-amz-checksum-crc32");
            response.headers.remove("x-amz-checksum-crc32c");
            response.headers.remove("x-amz-checksum-sha1");
            response.headers.remove("x-amz-checksum-sha256");
            response.headers.remove("x-amz-checksum-crc64nvme");
        }
        Ok(ResponsePlan { decode: decode_order(&encodings), transform })
    }
}

/// A request is sent with the user agent that the configured one gave and no
/// other, whether its headers are stripped or not; without a user agent it is
/// sent with none.
pub proof fn law_user_agent_is_the_configured_one(
    interceptor: AlternatorInterceptor,
    state: RequestState,
    r: RequestV,
    agent: Option<Seq<char>>,
)
    ensures
        ({
            let sent = interceptor.transmitted(state, r, agent).headers;
            match agent {
                Some(s) if header_text(s) => header_values(sent, "user-agent"@) == seq![s],
                _ => !has_header(sent, "user-agent"@),
            }
        }),
{
    let auth = overridden(state.preserve_auth_headers, interceptor.preserve_auth_headers);
    let mid = if interceptor.optimize_headers {
        stripped(r, auth)
    } else {
        r
    };
    let bare = without(mid.headers, "user-agent"@);
    lemma_without(mid.headers, "user-agent"@, "user-agent"@);
    if agent is Some {
        lemma_with_header(bare, "user-agent"@, agent->0, "user-agent"@);
    }
}

/// The signature of a signed request survives the stripping of its headers.
pub proof fn law_signature_survives_stripping(
    interceptor: AlternatorInterceptor,
    state: RequestState,
    r: RequestV,
    agent: Option<Seq<char>>,
)
    requires
        has_header(r.headers, "authorization"@),
        has_header(r.headers, "x-amz-date"@),
        state.preserve_auth_headers == Some(true),
    ensures
        has_header(interceptor.transmitted(state, r, agent).headers, "authorization"@),
        has_header(interceptor.transmitted(state, r, agent).headers, "x-amz-date"@),
{
    lemma_sent_header(interceptor, state, r, agent, "authorization"@);
    lemma_sent_header(interceptor, state, r, agent, "x-amz-date"@);
}

proof fn lemma_sent_header(
    interceptor: AlternatorInterceptor,
    state: RequestState,
    r: RequestV,
    agent: Option<Seq<char>>,
    name: Seq<char>,
)
    requires
        has_header(r.headers, name),
        is_allowed(name, true),
        state.preserve_auth_headers == Some(true),
    ensures
        has_header(interceptor.transmitted(state, r, agent).headers, name),
{
    reveal_strlit("user-agent");
    reveal_strlit("host");
    reveal_strlit("x-amz-target");
    reveal_strlit("content-length");
    reveal_strlit("accept-encoding");
    reveal_strlit("content-encoding");
    reveal_strlit("authorization");
    reveal_strlit("x-amz-date");
    assert(name != "user-agent"@) by {
        assert("user-agent"@[0] == 'u');
        assert("user-agent"@.len() == 10);
        assert("x-amz-date"@[0] == 'x');
    }
    let mid = if interceptor.optimize_headers {
        stripped(r, true)
    } else {
        r
    };
    assert(has_header(mid.headers, name)) by {
        if interceptor.optimize_headers {
            let i = choose|i: int| 0 <= i < r.headers.len() && (#[trigger] r.headers[i]).0 == name;
            lemma_kept_complete(r.headers, allowed(true), i);
            let k = mid.headers.index_of(r.headers[i]);
            assert(mid.headers[k].0 == name);
        }
    }
    let bare = without(mid.headers, "user-agent"@);
    lemma_without(mid.headers, "user-agent"@, name);
    if agent is Some {
        lemma_with_header(bare, "user-agent"@, agent->0, name);
    }
}

/// The settings of a request come before those of the client: for compression
/// both ways, for the headers of a signature and for vectors.
pub proof fn law_request_settings_come_first(
    interceptor: AlternatorInterceptor,
    state: RequestState,
)
    ensures
        state.request_compression matches Some(c) ==> interceptor.effective_request_compression(
            state,
        ) == c,
        state.request_compression is None ==> interceptor.effective_request_compression(state)
            == interceptor.request_compression,
        state.response_compression matches Some(c) ==> interceptor.effective_response_compression(
            state,
        ) == c@,
        state.response_compression is None ==> interceptor.effective_response_compression(state)
            == interceptor.response_compression@,
{
}

/// A request is compressed as the settings in force say, and tells which
/// encodings it accepts where they name any; nothing else of it changes.
pub proof fn law_request_is_prepared(
    interceptor: AlternatorInterceptor,
    state: RequestState,
    r: RequestV,
    other: Seq<char>,
)
    requires
        other != "accept-encoding"@,
        other != "content-encoding"@,
        other != "content-length"@,
    ensures
        ({
            let after = interceptor.prepared(state, r);
            let compression = interceptor.effective_request_compression(state);
            let accepted = interceptor.effective_response_compression(state);
            &&& after.uri == r.uri
            &&& header_values(after.headers, other) == header_values(r.headers, other)
            &&& compression@ is None ==> after.body == r.body
            &&& compression@ matches Some((algorithm, level, threshold)) ==> after.body
                == after_compression(r, algorithm, level@, threshold).body
            &&& accepted matches Some(list) ==> header_values(after.headers, "accept-encoding"@)
                == seq![accept_encoding(list)]
            &&& accepted is None ==> header_values(after.headers, "accept-encoding"@)
                == header_values(r.headers, "accept-encoding"@)
        }),
{
    reveal_strlit("accept-encoding");
    reveal_strlit("content-encoding");
    reveal_strlit("content-length");
    assert("accept-encoding"@.len() == 15 && "content-encoding"@.len() == 16
        && "content-length"@.len() == 14);
    let mid = with_compression(r, interceptor.effective_request_compression(state));
    if mid != r {
        let (algorithm, level, threshold) = interceptor.effective_request_compression(state)@->0;
        let body = mid.body->0;
        let token = content_encoding(algorithm);
        let encoded = r.headers.push(("content-encoding"@, token));
        law_appended_value_comes_last(r.headers, "content-encoding"@, token, other);
        law_appended_value_comes_last(
            r.headers,
            "content-encoding"@,
            token,
            "accept-encoding"@,
        );
        lemma_with_header(encoded, "content-length"@, text::decimal_of(body.len()), other);
        lemma_with_header(
            encoded,
            "content-length"@,
            text::decimal_of(body.len()),
            "accept-encoding"@,
        );
    }
    let accepted = interceptor.effective_response_compression(state);
    if accepted is Some {
        lemma_with_header(mid.headers, "accept-encoding"@, accept_encoding(accepted->0), other);
    }
}

/// The encodings of a response are read in order, each by its own token, and
/// the first that is not supported is the one that is named.
pub proof fn law_encodings_are_read_in_order(tokens: Seq<Seq<char>>)
    ensures
        match encodings_of(tokens) {
            Ok(list) => {
                &&& list.len() == tokens.len()
                &&& forall|i: int|
                    0 <= i < tokens.len() ==> ResponseCompressionAlgorithm::of_encoding(
                        #[trigger] tokens[i],
                    ) == Some(list[i])
            },
            Err(token) => exists|i: int|
                0 <= i < tokens.len() && token == tokens[i]
                    && ResponseCompressionAlgorithm::of_encoding(#[trigger] tokens[i]) is None
                    && forall|k: int|
                    0 <= k < i ==> ResponseCompressionAlgorithm::of_encoding(
                        #[trigger] tokens[k],
                    ) is Some,
        },
    decreases tokens.len(),
{
    if tokens.len() > 0 {
        let before = tokens.drop_last();
        let n = before.len() as int;
        law_encodings_are_read_in_order(before);
        match encodings_of(before) {
            Ok(list) => {
                assert forall|i: int| 0 <= i < n implies ResponseCompressionAlgorithm::of_encoding(
                    #[trigger] tokens[i],
                ) == Some(list[i]) by {
                    assert(before[i] == tokens[i]);
                }
                assert(tokens[n] == tokens.last());
            },
            Err(token) => {
                let i = choose|i: int|
                    0 <= i < before.len() && token == before[i]
                        && ResponseCompressionAlgorithm::of_encoding(#[trigger] before[i]) is None
                        && forall|k: int|
                        0 <= k < i ==> ResponseCompressionAlgorithm::of_encoding(
                            #[trigger] before[k],
                        ) is Some;
                assert(tokens[i] == before[i]);
                assert forall|k: int| 0 <= k < i implies ResponseCompressionAlgorithm::of_encoding(
                    #[trigger] tokens[k],
                ) is Some by {
                    assert(before[k] == tokens[k]);
                }
            },
        }
    }
}

/// What a client advertises is what it reads: a response that has been encoded
/// by the advertised algorithms, in one header, is decoded by the same ones.
pub proof fn law_advertised_encodings_are_read(algorithms: Seq<ResponseCompressionAlgorithm>)
    requires
        algorithms.len() > 0,
    ensures
        encodings_of(tokens_of(seq![accept_encoding(algorithms)])) == Ok::<
            Seq<ResponseCompressionAlgorithm>,
            Seq<char>,
        >(algorithms),
{
    let value = accept_encoding(algorithms);
    let listed = text::pieces(value, ',');
    crate::compression::law_advertised_list_names_the_algorithms(algorithms);
    assert(seq![value].drop_last() =~= Seq::empty());
    assert(tokens_of(Seq::<Seq<char>>::empty()) == Seq::<Seq<char>>::empty());
    assert(seq![value].last() == value);
    assert(tokens_of(seq![value]) =~= trimmed_tokens(listed));
    lemma_advertised(algorithms, listed);
}

proof fn lemma_advertised(
    algorithms: Seq<ResponseCompressionAlgorithm>,
    listed: Seq<Seq<char>>,
)
    requires
        listed.len() == algorithms.len(),
        forall|i: int|
            0 <= i < listed.len() ==> text::trimmed(#[trigger] listed[i]) == algorithms[i].token(),
    ensures
        encodings_of(trimmed_tokens(listed)) == Ok::<Seq<ResponseCompressionAlgorithm>, Seq<char>>(
            algorithms,
        ),
        trimmed_tokens(listed).len() == algorithms.len(),
    decreases listed.len(),
{
    if listed.len() == 0 {
        assert(algorithms =~= Seq::empty());
    } else {
        let before = listed.drop_last();
        assert forall|i: int| 0 <= i < before.len() implies text::trimmed(#[trigger] before[i])
            == algorithms.drop_last()[i].token() by {
            assert(before[i] == listed[i]);
        }
        lemma_advertised(algorithms.drop_last(), before);
        let last = algorithms.last();
        reveal_strlit("gzip");
        reveal_strlit("deflate");
        assert(listed.last() == listed[listed.len() - 1]);
        assert(last.token().len() > 0);
        crate::compression::law_advertised_token_is_understood(last);
        assert(trimmed_tokens(listed).drop_last() =~= trimmed_tokens(before));
        assert(algorithms.drop_last().push(last) =~= algorithms);
    }
}

/// The tokens of several headers are those of the one, then those of the other,
/// and an empty token counts for nothing.
pub proof fn law_headers_are_read_one_after_the_other(a: Seq<Seq<char>>, value: Seq<char>)
    ensures
        tokens_of(a.push(value)) == tokens_of(a) + tokens_of(seq![value]),
        tokens_of(seq![Seq::<char>::empty()]).len() == 0,
{
    let none = Seq::<char>::empty();
    assert(a.push(value).drop_last() =~= a);
    assert(seq![value].drop_last() =~= Seq::empty());
    assert(tokens_of(Seq::<Seq<char>>::empty()) == Seq::<Seq<char>>::empty());
    assert(seq![value].last() == value);
    assert(tokens_of(seq![value]) =~= trimmed_tokens(text::pieces(value, ',')));
    assert(seq![none].drop_last() =~= Seq::empty());
    assert(text::pieces(none, ',') =~= seq![none]);
    assert(seq![none].drop_last() =~= Seq::empty());
    assert(text::trimmed(none) == none);
    assert(trimmed_tokens(Seq::<Seq<char>>::empty()) == Seq::<Seq<char>>::empty());
    assert(seq![none].last() == none);
    assert(trimmed_tokens(seq![none]).len() == 0);
}

/// A response that was decoded has neither its encoding nor its length any
/// more, and one whose vectors were rewritten has neither its length nor any
/// checksum; all other headers stay.
pub proof fn law_stale_headers_are_taken_out(
    headers: Seq<HeaderV>,
    status: u16,
    encoded: bool,
    name: Seq<char>,
)
    ensures
        ({
            let after = AlternatorInterceptor::response_headers(headers, status, encoded);
            let success = 200 <= status <= 299;
            let checksum = name == "x-amz-crc32"@ || name == "x-amz-crc32c"@ || name
                == "x-amz-checksum-crc32"@ || name == "x-amz-checksum-crc32c"@ || name
                == "x-amz-checksum-sha1"@ || name == "x-amz-checksum-sha256"@ || name
                == "x-amz-checksum-crc64nvme"@;
            let stale = (encoded && name == "content-encoding"@) || ((encoded || success) && name
                == "content-length"@) || (success && checksum);
            &&& stale ==> !has_header(after, name)
            &&& !stale ==> header_values(after, name) == header_values(headers, name)
        }),
{
    reveal_strlit("content-encoding");
    reveal_strlit("content-length");
    assert("content-encoding"@.len() == 16 && "content-length"@.len() == 14);
    let decoded = if encoded {
        without_encoding(headers)
    } else {
        headers
    };
    lemma_without(headers, "content-encoding"@, name);
    lemma_without(without(headers, "content-encoding"@), "content-length"@, name);
    lemma_taken_out(headers, "content-encoding"@, name);
    lemma_taken_out(without(headers, "content-encoding"@), "content-length"@, name);
    let h0 = decoded;
    let h1 = without(h0, "content-length"@);
    let h2 = without(h1, "x-amz-crc32"@);
    let h3 = without(h2, "x-amz-crc32c"@);
    let h4 = without(h3, "x-amz-checksum-crc32"@);
    let h5 = without(h4, "x-amz-checksum-crc32c"@);
    let h6 = without(h5, "x-amz-checksum-sha1"@);
    let h7 = without(h6, "x-amz-checksum-sha256"@);
    lemma_taken_out(h0, "content-length"@, name);
    lemma_taken_out(h1, "x-amz-crc32"@, name);
    lemma_taken_out(h2, "x-amz-crc32c"@, name);
    lemma_taken_out(h3, "x-amz-checksum-crc32"@, name);
    lemma_taken_out(h4, "x-amz-checksum-crc32c"@, name);
    lemma_taken_out(h5, "x-amz-checksum-sha1"@, name);
    lemma_taken_out(h6, "x-amz-checksum-sha256"@, name);
    lemma_taken_out(h7, "x-amz-checksum-crc64nvme"@, name);
    assert(without_checksums(h0) == without(h7, "x-amz-checksum-crc64nvme"@));
}

proof fn lemma_taken_out(h: Seq<HeaderV>, out: Seq<char>, name: Seq<char>)
    ensures
        name == out ==> !has_header(without(h, out), name),
        name != out ==> header_values(without(h, out), name) == header_values(h, name),
        !has_header(h, name) ==> !has_header(without(h, out), name),
{
    lemma_without(h, out, name);
}

/// The operation of a request is what follows the last dot of its target.
pub proof fn law_operation_follows_the_last_dot(service: Seq<char>, operation: Seq<char>)
    requires
        !operation.contains('.'),
    ensures
        operation_of(service + seq!['.'] + operation) == operation,
        operation_of(operation) == operation,
{
    text::law_added_piece_is_the_last(service, '.', operation);
}

/// A body is rewritten exactly where the document changes; then it is what was
/// written of the changed document, and else it stays byte for byte. A body
/// that is not there, cannot be read or cannot be written is refused.
pub proof fn law_body_is_rewritten_where_it_changes(
    r: RequestV,
    store: Option<VectorRequestStore>,
    j: JsonV,
    body: Seq<u8>,
)
    requires
        r.body is Some,
    ensures
        ({
            let sent = vector_document(j, operation_of(target_of(r)), store, may_hold_marker(r));
            let after = rewrite_result(r, store, Ok(j), Ok(body));
            &&& sent matches Ok((_, false)) ==> after == Ok::<RequestV, RequestFault>(r)
            &&& sent matches Ok((document, true)) ==> {
                &&& document_written(r, store, Ok(j)) == Some(document)
                &&& after matches Ok(request) && request.body == Some(body) && request.uri == r.uri
            }
            &&& sent matches Err(fault) ==> after == Err::<RequestV, RequestFault>(fault)
            &&& forall|reason: Seq<char>|
                #[trigger] rewrite_result(r, store, Err(reason), Ok(body)) == Err::<
                    RequestV,
                    RequestFault,
                >(RequestFault::InvalidDocument(reason))
        }),
        rewrite_result(RequestV { body: None, ..r }, store, Ok(j), Ok(body)) == Err::<
            RequestV,
            RequestFault,
        >(RequestFault::BodyNotCollected),
{
}

/// Headers are stripped exactly where the settings say so, and the signature is
/// kept as they say; beyond that only the user agent changes.
pub proof fn law_headers_are_stripped_where_asked(
    interceptor: AlternatorInterceptor,
    state: RequestState,
    r: RequestV,
    agent: Option<Seq<char>>,
    name: Seq<char>,
)
    requires
        name != "user-agent"@,
    ensures
        ({
            let sent = interceptor.transmitted(state, r, agent);
            let auth = match state.preserve_auth_headers {
                Some(preserve) => preserve,
                None => interceptor.preserve_auth_headers,
            };
            &&& interceptor.optimize_headers ==> header_values(sent.headers, name)
                == header_values(stripped(r, auth).headers, name)
            &&& !interceptor.optimize_headers ==> header_values(sent.headers, name)
                == header_values(r.headers, name)
            &&& sent.body == r.body
            &&& sent.uri == r.uri
        }),
{
    let auth = overridden(state.preserve_auth_headers, interceptor.preserve_auth_headers);
    let mid = if interceptor.optimize_headers {
        stripped(r, auth)
    } else {
        r
    };
    crate::user_agent::law_only_the_user_agent_changes(mid, agent, name);
}

/// A body may hold a marker exactly where the start that all markers have in
/// base64 stands in it.
pub proof fn law_signature_is_looked_for(r: RequestV, before: Seq<u8>, after: Seq<u8>)
    ensures
        ({
            let sign = encode_utf8(
                crate::base64_text::base64_of(seq![0xACu8, 0x41, 0x56, 0x31, 0xF3, 0x2E]),
            );
            &&& r.body == Some(before + sign + after) ==> may_hold_marker(r)
            &&& r.body is None ==> !may_hold_marker(r)
            &&& r.body matches Some(body) ==> body.len() < sign.len() ==> !may_hold_marker(r)
        }),
{
    let prefix = seq![0xACu8, 0x41, 0x56, 0x31, 0xF3, 0x2E];
    assert(crate::float32_vector::MAGIC_PREFIX@.take(6) =~= prefix);
    let sign = encode_utf8(crate::base64_text::base64_of(prefix));
    let body = before + sign + after;
    assert(body.subrange(before.len() as int, before.len() as int + sign.len()) =~= sign);
    assert(crate::vector_response::occurs_at(body, sign, before.len() as int));
}

/// The target of a request is its first header of that name.
pub proof fn law_target_is_the_header(r: RequestV)
    ensures
        header_values(r.headers, "x-amz-target"@).len() > 0 ==> target_of(r) == header_values(
            r.headers,
            "x-amz-target"@,
        )[0],
        header_values(r.headers, "x-amz-target"@).len() == 0 ==> target_of(r).len() == 0,
{
    crate::http::law_present_header_has_values(r.headers, "x-amz-target"@);
}

} // verus!
