//! Request compression, and negotiation of response compression.

use crate::http::{
    body_view, has_header, header_values, lemma_header_names, lemma_no_values, lemma_with_header,
    with_body, Request, RequestV,
};
use crate::text;
use std::io::Read;
use vstd::prelude::*;

verus! {

/// How a request body is compressed.
#[derive(Debug, Clone, Copy, PartialEq, Eq, Structural)]
pub enum CompressionAlgorithm {
    Gzip,
    Zlib,
}

/// The highest compression level.
pub const MAX_LEVEL: u32 = 10;

/// How much effort compression takes, from 0, which is none, up to [`MAX_LEVEL`].
#[derive(Debug, Clone, Copy, PartialEq, Eq, Structural)]
pub struct CompressionLevel {
    level: u32,
}

impl CompressionLevel {
    /// The level as a number.
    pub closed spec fn view(&self) -> u32 {
        self.level
    }

    /// The level is within range.
    #[verifier::type_invariant]
    spec fn inv(&self) -> bool {
        self.level <= MAX_LEVEL
    }

    /// The level `level`.
    pub fn new(level: u32) -> (r: Self)
        requires
            level <= MAX_LEVEL,
        ensures
            r@ == level,
    {
        CompressionLevel { level }
    }

    /// No compression.
    pub fn none() -> (r: Self)
        ensures
            r@ == 0,
    {
        CompressionLevel { level: 0 }
    }

    /// The fastest compression.
    pub fn fast() -> (r: Self)
        ensures
            r@ == 1,
    {
        CompressionLevel { level: 1 }
    }

    /// The compression with the smallest result.
    pub fn best() -> (r: Self)
        ensures
            r@ == 9,
    {
        CompressionLevel { level: 9 }
    }

    /// The level as a number.
    pub fn level(&self) -> (r: u32)
        ensures
            r == self@,
            r <= MAX_LEVEL,
    {
        proof {
            use_type_invariant(self);
        }
        self.level
    }
}

impl Default for CompressionLevel {
    /// A balance of speed and size.
    fn default() -> (r: Self)
        ensures
            r@ == 6,
    {
        CompressionLevel { level: 6 }
    }
}

/// Whether and how requests are compressed.
#[derive(Debug, Clone, Copy, PartialEq, Eq)]
pub struct RequestCompression {
    compression_with_threshold: Option<(CompressionAlgorithm, CompressionLevel, usize)>,
}

impl RequestCompression {
    /// The algorithm, the level and the threshold, where requests are compressed.
    pub closed spec fn view(&self) -> Option<(CompressionAlgorithm, CompressionLevel, usize)> {
        self.compression_with_threshold
    }

    /// Compression of the bodies whose size is at least `threshold`. With a
    /// threshold of zero every body is compressed.
    pub fn enabled(
        algorithm: CompressionAlgorithm,
        level: CompressionLevel,
        threshold: usize,
    ) -> (r: Self)
        ensures
            r@ == Some((algorithm, level, threshold)),
    {
        RequestCompression { compression_with_threshold: Some((algorithm, level, threshold)) }
    }

    /// No request compression.
    pub fn disabled() -> (r: Self)
        ensures
            r@ is None,
    {
        RequestCompression { compression_with_threshold: None }
    }

    /// The algorithm, the level and the threshold, where requests are compressed.
    pub fn get(&self) -> (r: Option<(CompressionAlgorithm, CompressionLevel, usize)>)
        ensures
            r == self@,
    {
        self.compression_with_threshold
    }
}

impl Default for RequestCompression {
    /// Gzip at the default level, from one kibibyte on.
    fn default() -> (r: Self)
        ensures
            r@ matches Some((algorithm, level, threshold)) && algorithm
                == CompressionAlgorithm::Gzip && level@ == 6 && threshold == 1024,
    {
        RequestCompression::enabled(
            CompressionAlgorithm::Gzip,
            CompressionLevel::default(),
            1024,
        )
    }
}

/// What gzip makes of `content` at `level`.
pub uninterp spec fn gzip_of(content: Seq<u8>, level: u32) -> Option<Seq<u8>>;

/// What zlib makes of `content` at `level`.
pub uninterp spec fn zlib_of(content: Seq<u8>, level: u32) -> Option<Seq<u8>>;

/// The content that a gzip stream holds.
pub uninterp spec fn gunzip_of(compressed: Seq<u8>) -> Option<Seq<u8>>;

/// The content that a zlib stream holds.
pub uninterp spec fn unzlib_of(compressed: Seq<u8>) -> Option<Seq<u8>>;

/// `flate2::read::GzEncoder`, read to its end. The result depends on the
/// content and the level alone, and `flate2::read::GzDecoder` gives the
/// content back. The level must be one that the encoder knows.
#[verifier::external_body]
fn compress_gzip(content: &[u8], level: u32) -> (r: Option<Vec<u8>>)
    requires
        level <= MAX_LEVEL,
    ensures
        body_view(r) == gzip_of(content@, level),
        r is Some ==> gunzip_of(r->0@) == Some(content@),
{
    let mut compressed = Vec::new();
    let mut encoder = flate2::read::GzEncoder::new(content, flate2::Compression::new(level));
    encoder.read_to_end(&mut compressed).ok()?;
    Some(compressed)
}

/// `flate2::read::ZlibEncoder`, read to its end. The result depends on the
/// content and the level alone, and `flate2::read::ZlibDecoder` gives the
/// content back. The level must be one that the encoder knows.
#[verifier::external_body]
fn compress_zlib(content: &[u8], level: u32) -> (r: Option<Vec<u8>>)
    requires
        level <= MAX_LEVEL,
    ensures
        body_view(r) == zlib_of(content@, level),
        r is Some ==> unzlib_of(r->0@) == Some(content@),
{
    let mut compressed = Vec::new();
    let mut encoder = flate2::read::ZlibEncoder::new(content, flate2::Compression::new(level));
    encoder.read_to_end(&mut compressed).ok()?;
    Some(compressed)
}

/// `flate2::read::GzDecoder`, read to its end: the content, or `None` where
/// the bytes are no gzip stream. It depends on the bytes alone.
#[verifier::external_body]
fn decompress_gzip(content: &[u8]) -> (r: Option<Vec<u8>>)
    ensures
        body_view(r) == gunzip_of(content@),
{
    let mut decompressed = Vec::new();
    let mut decoder = flate2::read::GzDecoder::new(content);
    decoder.read_to_end(&mut decompressed).ok()?;
    Some(decompressed)
}

/// `flate2::read::ZlibDecoder`, read to its end: the content, or `None` where
/// the bytes are no zlib stream. It depends on the bytes alone.
#[verifier::external_body]
fn decompress_zlib(content: &[u8]) -> (r: Option<Vec<u8>>)
    ensures
        body_view(r) == unzlib_of(content@),
{
    let mut decompressed = Vec::new();
    let mut decoder = flate2::read::ZlibDecoder::new(content);
    decoder.read_to_end(&mut decompressed).ok()?;
    Some(decompressed)
}

/// What the algorithm makes of `content` at `level`.
pub open spec fn compressed_of(
    algorithm: CompressionAlgorithm,
    content: Seq<u8>,
    level: u32,
) -> Option<Seq<u8>> {
    match algorithm {
        CompressionAlgorithm::Gzip => gzip_of(content, level),
        CompressionAlgorithm::Zlib => zlib_of(content, level),
    }
}

/// The content that a stream of the algorithm holds.
pub open spec fn decompressed_of(
    algorithm: CompressionAlgorithm,
    compressed: Seq<u8>,
) -> Option<Seq<u8>> {
    match algorithm {
        CompressionAlgorithm::Gzip => gunzip_of(compressed),
        CompressionAlgorithm::Zlib => unzlib_of(compressed),
    }
}

/// Compresses `content`. Decompressing the result gives the content back.
pub fn compress(algorithm: CompressionAlgorithm, level: CompressionLevel, content: &[u8]) -> (r:
    Option<Vec<u8>>)
    ensures
        body_view(r) == compressed_of(algorithm, content@, level@),
        body_view(r) == (match algorithm {
            CompressionAlgorithm::Gzip => gzip_of(content@, level@),
            CompressionAlgorithm::Zlib => zlib_of(content@, level@),
        }),
        r is Some ==> decompressed_of(algorithm, r->0@) == Some(content@),
        r is Some && algorithm is Gzip ==> gunzip_of(r->0@) == Some(content@),
        r is Some && algorithm is Zlib ==> unzlib_of(r->0@) == Some(content@),
{
    let level: u32 = level.level();
    match algorithm {
        CompressionAlgorithm::Gzip => compress_gzip(content, level),
        CompressionAlgorithm::Zlib => compress_zlib(content, level),
    }
}

/// Decompresses `content`.
pub fn decompress(algorithm: CompressionAlgorithm, content: &[u8]) -> (r: Option<Vec<u8>>)
    ensures
        body_view(r) == decompressed_of(algorithm, content@),
        body_view(r) == (match algorithm {
            CompressionAlgorithm::Gzip => gunzip_of(content@),
            CompressionAlgorithm::Zlib => unzlib_of(content@),
        }),
{
    match algorithm {
        CompressionAlgorithm::Gzip => decompress_gzip(content),
        CompressionAlgorithm::Zlib => decompress_zlib(content),
    }
}

/// The `Content-Encoding` of a body that the algorithm compressed.
pub open spec fn content_encoding(algorithm: CompressionAlgorithm) -> Seq<char> {
    match algorithm {
        CompressionAlgorithm::Gzip => "gzip"@,
        CompressionAlgorithm::Zlib => "deflate"@,
    }
}

/// The request is not encoded yet, and its body is there and large enough.
pub open spec fn is_compressible(r: RequestV, threshold: usize) -> bool {
    &&& !has_header(r.headers, "content-encoding"@)
    &&& r.body is Some
    &&& r.body->0.len() >= threshold
}

/// The request with its body replaced by the compressed one, if there is one.
pub open spec fn with_compressed(
    r: RequestV,
    algorithm: CompressionAlgorithm,
    compressed: Option<Seq<u8>>,
) -> RequestV {
    match compressed {
        Some(body) => with_body(
            RequestV {
                headers: r.headers.push(("content-encoding"@, content_encoding(algorithm))),
                ..r
            },
            body,
        ),
        None => r,
    }
}

/// Whether a request is to be compressed.
pub fn can_compress(request: &Request, threshold: usize) -> (r: bool)
    ensures
        r == is_compressible(request@, threshold),
{
    proof {
        lemma_header_names();
    }
    if request.headers.contains_key("content-encoding") {
        return false;
    }
    match &request.body {
        Some(body) => body.len() >= threshold,
        None => false,
    }
}

/// Replaces the body of a request by what compression gave, and sets the
/// headers that go with it. Where compression gave nothing, the request is
/// left untouched.
pub fn apply_compressed(
    request: &mut Request,
    algorithm: CompressionAlgorithm,
    compressed: Option<Vec<u8>>,
)
    ensures
        final(request)@ == with_compressed(old(request)@, algorithm, body_view(compressed)),
{
    if let Some(body) = compressed {
        let token = match algorithm {
            CompressionAlgorithm::Gzip => "gzip",
            CompressionAlgorithm::Zlib => "deflate",
        };
        proof {
            lemma_header_names();
        }
        request.headers.append("content-encoding", token);
        request.replace_body(body);
    }
}

/// The request after compression.
pub open spec fn after_compression(
    r: RequestV,
    algorithm: CompressionAlgorithm,
    level: u32,
    threshold: usize,
) -> RequestV {
    if is_compressible(r, threshold) {
        with_compressed(r, algorithm, compressed_of(algorithm, r.body->0, level))
    } else {
        r
    }
}

/// Compresses the body of a request where its size is at least `threshold`,
/// and sets its `content-encoding` and `content-length`. A request that is
/// encoded already, or that cannot be compressed, is left untouched.
pub fn compress_request(
    request: &mut Request,
    algorithm: CompressionAlgorithm,
    level: CompressionLevel,
    threshold: usize,
)
    ensures
        final(request)@ == after_compression(old(request)@, algorithm, level@, threshold),
        is_compressible(old(request)@, threshold) && compressed_of(
            algorithm,
            old(request)@.body->0,
            level@,
        ) is Some ==> {
            &&& final(request)@.body is Some
            &&& decompressed_of(algorithm, final(request)@.body->0) == old(request)@.body
        },
        ({
            let before = old(request)@;
            let after = final(request)@;
            let made = match algorithm {
                CompressionAlgorithm::Gzip => gzip_of(before.body->0, level@),
                CompressionAlgorithm::Zlib => zlib_of(before.body->0, level@),
            };
            let wanted = before.body is Some && before.body->0.len() >= threshold && !has_header(
                before.headers,
                "content-encoding"@,
            ) && made is Some;
            &&& !wanted ==> after == before
            &&& wanted ==> {
                &&& after.body == made
                &&& header_values(after.headers, "content-encoding"@) == seq![
                    if algorithm is Gzip {
                        "gzip"@
                    } else {
                        "deflate"@
                    },
                ]
                &&& header_values(after.headers, "content-length"@) == seq![
                    text::decimal_of(made->0.len()),
                ]
            }
            &&& after.uri == before.uri
        }),
{
    if !can_compress(request, threshold) {
        return;
    }
    let compressed = match &request.body {
        Some(body) => compress(algorithm, level, body.as_slice()),
        None => None,
    };
    apply_compressed(request, algorithm, compressed);
    proof {
        let before = old(request)@;
        let made = body_view(compressed);
        if made is Some {
            lemma_compressed_headers(before, algorithm, made->0);
        }
    }
}

proof fn lemma_compressed_headers(r: RequestV, algorithm: CompressionAlgorithm, body: Seq<u8>)
    requires
        !has_header(r.headers, "content-encoding"@),
    ensures
        ({
            let after = with_compressed(r, algorithm, Some(body));
            &&& header_values(after.headers, "content-encoding"@) == seq![
                content_encoding(algorithm),
            ]
            &&& header_values(after.headers, "content-length"@) == seq![
                text::decimal_of(body.len()),
            ]
        }),
{
    reveal_strlit("content-encoding");
    reveal_strlit("content-length");
    assert("content-encoding"@.len() == 16 && "content-length"@.len() == 14);
    let encoded = r.headers.push(("content-encoding"@, content_encoding(algorithm)));
    let length = text::decimal_of(body.len());
    lemma_no_values(r.headers, "content-encoding"@);
    assert(encoded.drop_last() =~= r.headers);
    assert(header_values(encoded, "content-encoding"@) =~= seq![content_encoding(algorithm)]);
    lemma_with_header(encoded, "content-length"@, length, "content-encoding"@);
}

/// An encoding that the client accepts in responses.
#[derive(Debug, Clone, Copy, PartialEq, Eq, Structural)]
pub enum ResponseCompressionAlgorithm {
    Gzip,
    Deflate,
}

impl ResponseCompressionAlgorithm {
    /// The `Accept-Encoding` token of this algorithm.
    pub open spec fn token(self) -> Seq<char> {
        match self {
            ResponseCompressionAlgorithm::Gzip => "gzip"@,
            ResponseCompressionAlgorithm::Deflate => "deflate"@,
        }
    }

    /// The algorithm of a `Content-Encoding` token: what stands before any
    /// parameters, without white space around it and in any case.
    pub open spec fn of_encoding(token: Seq<char>) -> Option<Self> {
        let name = text::lowered(text::trimmed(text::pieces(token, ';')[0]));
        if name == "gzip"@ || name == "x-gzip"@ {
            Some(ResponseCompressionAlgorithm::Gzip)
        } else if name == "deflate"@ {
            Some(ResponseCompressionAlgorithm::Deflate)
        } else {
            None
        }
    }

    /// The `Accept-Encoding` token of this algorithm.
    pub fn accept_encoding_token(&self) -> (r: &'static str)
        ensures
            r@ == self.token(),
    {
        match self {
            ResponseCompressionAlgorithm::Gzip => "gzip",
            ResponseCompressionAlgorithm::Deflate => "deflate",
        }
    }

    /// Parses a `Content-Encoding` token.
    pub fn from_content_encoding(token: &str) -> (r: Option<Self>)
        ensures
            r == Self::of_encoding(token@),
    {
        let parts = text::split(token, ';');
        assert(text::views(parts@)[0] == parts@[0]@);
        let name = text::ascii_lower(text::trim(parts[0].as_str()).as_str());
        if text::same(name.as_str(), "gzip") || text::same(name.as_str(), "x-gzip") {
            Some(ResponseCompressionAlgorithm::Gzip)
        } else if text::same(name.as_str(), "deflate") {
            Some(ResponseCompressionAlgorithm::Deflate)
        } else {
            None
        }
    }

    /// All supported algorithms, in order of preference.
    pub open spec fn supported() -> Seq<Self> {
        seq![ResponseCompressionAlgorithm::Gzip, ResponseCompressionAlgorithm::Deflate]
    }

    /// All supported algorithms, in order of preference.
    pub fn all() -> (r: Vec<Self>)
        ensures
            r@ == Self::supported(),
    {
        let r = vec![ResponseCompressionAlgorithm::Gzip, ResponseCompressionAlgorithm::Deflate];
        assert(r@ =~= Self::supported());
        r
    }
}

/// What a server is told to send is what the client understands: every token
/// that is advertised is read as the algorithm it stands for.
pub proof fn law_advertised_token_is_understood(algorithm: ResponseCompressionAlgorithm)
    ensures
        ResponseCompressionAlgorithm::of_encoding(algorithm.token()) == Some(algorithm),
{
    reveal_strlit("gzip");
    reveal_strlit("x-gzip");
    reveal_strlit("deflate");
    let t = algorithm.token();
    assert(t.len() > 0);
    text::lemma_first_at(t, ';', t.len() as int);
    assert(text::pieces(t, ';') =~= seq![t]);
    assert(text::trimmed(t) == t);
    assert(text::lowered(t) =~= t);
    assert("gzip"@.len() != "deflate"@.len());
    assert("x-gzip"@.len() != "deflate"@.len());
}

/// The value of an `Accept-Encoding` header.
pub open spec fn accept_encoding(algorithms: Seq<ResponseCompressionAlgorithm>) -> Seq<char>
    decreases algorithms.len(),
{
    if algorithms.len() == 0 {
        Seq::empty()
    } else if algorithms.len() == 1 {
        algorithms[0].token()
    } else {
        accept_encoding(algorithms.drop_last()) + ", "@ + algorithms.last().token()
    }
}

/// Builds the value of an `Accept-Encoding` header.
pub fn accept_encoding_header_value(algorithms: &[ResponseCompressionAlgorithm]) -> (r: String)
    ensures
        r@ == accept_encoding(algorithms@),
{
    let mut out = String::new();
    let mut i: usize = 0;
    while i < algorithms.len()
        invariant
            i <= algorithms.len(),
            out@ == accept_encoding(algorithms@.take(i as int)),
        decreases algorithms.len() - i,
    {
        assert(algorithms@.take(i + 1).drop_last() =~= algorithms@.take(i as int));
        let ghost before = out@;
        if i > 0 {
            out.append(", ");
        }
        out.append(algorithms[i].accept_encoding_token());
        i = i + 1;
        assert(i == 1 ==> out@ =~= algorithms@[0].token());
    }
    assert(algorithms@.take(i as int) =~= algorithms@);
    out
}

/// The elements of `s`, each where it occurs first.
pub open spec fn first_occurrences(s: Seq<ResponseCompressionAlgorithm>) -> Seq<
    ResponseCompressionAlgorithm,
>
    decreases s.len(),
{
    if s.len() == 0 {
        s
    } else if s.drop_last().contains(s.last()) {
        first_occurrences(s.drop_last())
    } else {
        first_occurrences(s.drop_last()).push(s.last())
    }
}

/// What is left has no duplicates and the same elements.
pub proof fn law_first_occurrences(s: Seq<ResponseCompressionAlgorithm>)
    ensures
        first_occurrences(s).no_duplicates(),
        forall|a: ResponseCompressionAlgorithm|
            first_occurrences(s).contains(a) <==> #[trigger] s.contains(a),
    decreases s.len(),
{
    if s.len() > 0 {
        let before = s.drop_last();
        let left = first_occurrences(before);
        law_first_occurrences(before);
        assert forall|a: ResponseCompressionAlgorithm|
            first_occurrences(s).contains(a) <==> #[trigger] s.contains(a) by {
            assert(before.contains(a) <==> left.contains(a));
            if s.contains(a) {
                let i = s.index_of(a);
                if i < s.len() - 1 {
                    assert(before[i] == a);
                }
            }
            if before.contains(a) {
                let i = before.index_of(a);
                assert(s[i] == a);
                let k = left.index_of(a);
                assert(first_occurrences(s)[k] == a);
            }
            if a == s.last() {
                assert(s[s.len() - 1] == a);
                if !before.contains(a) {
                    assert(first_occurrences(s).last() == a);
                }
            }
            if first_occurrences(s).contains(a) && a != s.last() {
                let k = first_occurrences(s).index_of(a);
                assert(left[k] == a);
            }
        }
        if !before.contains(s.last()) {
            assert(!left.contains(s.last()));
        }
    }
}

/// Which encodings the client advertises through `Accept-Encoding`, in order
/// of preference. Responses are decompressed by their `Content-Encoding`,
/// whatever is advertised.
#[derive(Debug, Clone, PartialEq, Eq)]
pub struct ResponseCompression {
    accepted_algorithms: Option<Vec<ResponseCompressionAlgorithm>>,
}

impl ResponseCompression {
    /// The accepted encodings, where any are advertised.
    pub closed spec fn view(&self) -> Option<Seq<ResponseCompressionAlgorithm>> {
        match self.accepted_algorithms {
            Some(v) => Some(v@),
            None => None,
        }
    }

    /// Advertises one encoding.
    pub fn enabled(algorithm: ResponseCompressionAlgorithm) -> (r: Self)
        ensures
            r@ == Some(seq![algorithm]),
    {
        let v = vec![algorithm];
        assert(v@ =~= seq![algorithm]);
        ResponseCompression { accepted_algorithms: Some(v) }
    }

    /// Advertises several encodings in order of preference. Of duplicates the
    /// first is kept; no encoding at all means every supported one.
    pub fn enabled_many(algorithms: Vec<ResponseCompressionAlgorithm>) -> (r: Self)
        ensures
            r@ == Some(
                if algorithms@.len() == 0 {
                    ResponseCompressionAlgorithm::supported()
                } else {
                    first_occurrences(algorithms@)
                },
            ),
    {
        let mut seen: Vec<ResponseCompressionAlgorithm> = Vec::new();
        let mut i: usize = 0;
        assert(seen@ =~= first_occurrences(algorithms@.take(0)));
        while i < algorithms.len()
            invariant
                i <= algorithms.len(),
                seen@ == first_occurrences(algorithms@.take(i as int)),
            decreases algorithms.len() - i,
        {
            let algorithm = algorithms[i];
            assert(algorithms@.take(i + 1).drop_last() =~= algorithms@.take(i as int));
            proof {
                law_first_occurrences(algorithms@.take(i as int));
                assert(algorithms@.take(i as int).contains(algorithm) <==> seen@.contains(
                    algorithm,
                ));
            }
            if !Self::holds(&seen, algorithm) {
                seen.push(algorithm);
            }
            i = i + 1;
        }
        assert(algorithms@.take(i as int) =~= algorithms@);
        proof {
            law_first_occurrences(algorithms@);
            if algorithms@.len() > 0 {
                assert(algorithms@.contains(algorithms@[0]));
            }
        }
        if seen.len() == 0 {
            Self::enabled_all()
        } else {
            ResponseCompression { accepted_algorithms: Some(seen) }
        }
    }

    fn holds(list: &Vec<ResponseCompressionAlgorithm>, algorithm: ResponseCompressionAlgorithm) -> (r:
        bool)
        ensures
            r == list@.contains(algorithm),
    {
        let mut i: usize = 0;
        while i < list.len()
            invariant
                i <= list.len(),
                forall|k: int| 0 <= k < i ==> list@[k] != algorithm,
            decreases list.len() - i,
        {
            if list[i] == algorithm {
                return true;
            }
            i = i + 1;
        }
        false
    }

    /// Advertises every supported encoding.
    pub fn enabled_all() -> (r: Self)
        ensures
            r@ == Some(ResponseCompressionAlgorithm::supported()),
    {
        ResponseCompression { accepted_algorithms: Some(ResponseCompressionAlgorithm::all()) }
    }

    /// Advertises no encoding.
    pub fn disabled() -> (r: Self)
        ensures
            r@ is None,
    {
        ResponseCompression { accepted_algorithms: None }
    }

    /// The accepted encodings, where any are advertised.
    pub fn get(&self) -> (r: Option<&[ResponseCompressionAlgorithm]>)
        ensures
            match r {
                Some(s) => self@ == Some(s@),
                None => self@ is None,
            },
    {
        match &self.accepted_algorithms {
            Some(v) => Some(v.as_slice()),
            None => None,
        }
    }

    /// A copy of this setting.
    pub fn duplicate(&self) -> (r: Self)
        ensures
            r@ == self@,
    {
        match &self.accepted_algorithms {
            Some(v) => {
                let mut out: Vec<ResponseCompressionAlgorithm> = Vec::new();
                let mut i: usize = 0;
                while i < v.len()
                    invariant
                        i <= v.len(),
                        out@ == v@.take(i as int),
                    decreases v.len() - i,
                {
                    out.push(v[i]);
                    i = i + 1;
                    assert(out@ =~= v@.take(i as int));
                }
                assert(out@ =~= v@);
                ResponseCompression { accepted_algorithms: Some(out) }
            },
            None => ResponseCompression { accepted_algorithms: None },
        }
    }
}

impl Default for ResponseCompression {
    fn default() -> (r: Self)
        ensures
            r@ is None,
    {
        ResponseCompression::disabled()
    }
}

proof fn lemma_tokens()
    ensures
        forall|a: ResponseCompressionAlgorithm|
            {
                let t = #[trigger] a.token();
                &&& !t.contains(',')
                &&& t.len() > 0
                &&& text::trimmed(t) == t
                &&& text::trimmed(seq![' '] + t) == t
            },
{
    assert forall|a: ResponseCompressionAlgorithm|
        {
            let t = #[trigger] a.token();
            &&& !t.contains(',')
            &&& t.len() > 0
            &&& text::trimmed(t) == t
            &&& text::trimmed(seq![' '] + t) == t
        } by {
        reveal_strlit("gzip");
        reveal_strlit("deflate");
        let t = a.token();
        assert(t.len() > 0);
        assert(text::trimmed(t) == t);
        let spaced = seq![' '] + t;
        assert(spaced.drop_first() =~= t);
        assert(text::is_white(spaced[0]));
        if t.contains(',') {
            let k = t.index_of(',');
            assert(t[k] == ',');
        }
    }
}

/// The tokens of a list that is advertised are those of its algorithms: between
/// the commas stand the names of the algorithms, in order.
pub proof fn law_advertised_list_names_the_algorithms(
    algorithms: Seq<ResponseCompressionAlgorithm>,
)
    requires
        algorithms.len() > 0,
    ensures
        ({
            let listed = text::pieces(accept_encoding(algorithms), ',');
            &&& listed.len() == algorithms.len()
            &&& forall|i: int|
                0 <= i < listed.len() ==> text::trimmed(#[trigger] listed[i])
                    == algorithms[i].token()
        }),
    decreases algorithms.len(),
{
    lemma_tokens();
    let last = algorithms.last().token();
    if algorithms.len() == 1 {
        text::law_added_piece_is_the_last(Seq::empty(), ',', algorithms[0].token());
        assert(algorithms[0] == algorithms.last());
    } else {
        let before = algorithms.drop_last();
        law_advertised_list_names_the_algorithms(before);
        reveal_strlit(", ");
        assert(", "@ =~= seq![','] + seq![' ']);
        let front = accept_encoding(before);
        let piece = seq![' '] + last;
        assert(accept_encoding(algorithms) =~= front + seq![','] + piece);
        if piece.contains(',') {
            let k = piece.index_of(',');
            assert(last[k - 1] == ',');
            assert(last.contains(','));
        }
        text::law_added_piece_is_the_last(front, ',', piece);
        let listed = text::pieces(accept_encoding(algorithms), ',');
        assert forall|i: int| 0 <= i < listed.len() implies text::trimmed(#[trigger] listed[i])
            == algorithms[i].token() by {
            if i < before.len() {
                assert(listed[i] == text::pieces(front, ',')[i]);
                assert(before[i] == algorithms[i]);
            }
        }
    }
}

/// The names of the encodings.
pub proof fn law_encodings_have_their_names(algorithm: ResponseCompressionAlgorithm)
    ensures
        algorithm is Gzip <==> algorithm.token() == "gzip"@,
        algorithm is Deflate <==> algorithm.token() == "deflate"@,
        content_encoding(CompressionAlgorithm::Gzip) == "gzip"@,
        content_encoding(CompressionAlgorithm::Zlib) == "deflate"@,
{
    reveal_strlit("gzip");
    reveal_strlit("deflate");
    assert("gzip"@.len() != "deflate"@.len());
}

/// An encoding is recognised whatever its case, with white space around it and
/// with parameters after it, also by its older name; nothing else is.
pub proof fn law_encodings_are_recognised(token: Seq<char>, name: Seq<char>)
    requires
        text::lowered(text::trimmed(text::pieces(token, ';')[0])) == name,
    ensures
        ({
            let found = ResponseCompressionAlgorithm::of_encoding(token);
            &&& name == "gzip"@ || name == "x-gzip"@ ==> found == Some(
                ResponseCompressionAlgorithm::Gzip,
            )
            &&& name == "deflate"@ ==> found == Some(ResponseCompressionAlgorithm::Deflate)
            &&& name != "gzip"@ && name != "x-gzip"@ && name != "deflate"@ ==> found is None
        }),
{
    reveal_strlit("gzip");
    reveal_strlit("x-gzip");
    reveal_strlit("deflate");
    assert("gzip"@.len() != "deflate"@.len());
    assert("x-gzip"@.len() != "deflate"@.len());
}

/// What is compressed is read back by a server that goes by the header: the
/// encoding that is named is the one whose decoder gives the body back.
pub proof fn law_named_encoding_reads_the_body_back(
    r: RequestV,
    algorithm: CompressionAlgorithm,
    level: u32,
    threshold: usize,
)
    requires
        is_compressible(r, threshold),
    ensures
        ({
            let after = after_compression(r, algorithm, level, threshold);
            let made = match algorithm {
                CompressionAlgorithm::Gzip => gzip_of(r.body->0, level),
                CompressionAlgorithm::Zlib => zlib_of(r.body->0, level),
            };
            &&& made is None ==> after == r
            &&& made is Some ==> {
                &&& after.body == made
                &&& header_values(after.headers, "content-encoding"@).len() == 1
                &&& ResponseCompressionAlgorithm::of_encoding(
                    header_values(after.headers, "content-encoding"@)[0],
                ) == Some(
                    match algorithm {
                        CompressionAlgorithm::Gzip => ResponseCompressionAlgorithm::Gzip,
                        CompressionAlgorithm::Zlib => ResponseCompressionAlgorithm::Deflate,
                    },
                )
            }
        }),
{
    let made = compressed_of(algorithm, r.body->0, level);
    if made is Some {
        lemma_compressed_headers(r, algorithm, made->0);
    }
    law_advertised_token_is_understood(ResponseCompressionAlgorithm::Gzip);
    law_advertised_token_is_understood(ResponseCompressionAlgorithm::Deflate);
}

/// A body is compressed exactly where it is there, is not encoded yet, and has
/// at least as many bytes as the threshold.
pub proof fn law_bodies_from_the_threshold_on_are_compressed(r: RequestV, threshold: usize)
    ensures
        is_compressible(r, threshold) <==> (r.body matches Some(body) && body.len() >= threshold)
            && header_values(r.headers, "content-encoding"@).len() == 0,
{
    if !has_header(r.headers, "content-encoding"@) {
        lemma_no_values(r.headers, "content-encoding"@);
    } else {
        crate::http::law_present_header_has_values(r.headers, "content-encoding"@);
    }
}

/// Duplicates are left out where they come again, and the order stays: adding
/// an algorithm that is there already changes nothing, and a new one comes last.
pub proof fn law_new_algorithms_come_last(
    s: Seq<ResponseCompressionAlgorithm>,
    a: ResponseCompressionAlgorithm,
)
    ensures
        s.contains(a) ==> first_occurrences(s.push(a)) == first_occurrences(s),
        !s.contains(a) ==> first_occurrences(s.push(a)) == first_occurrences(s).push(a),
{
    assert(s.push(a).drop_last() =~= s);
}

} // verus!
