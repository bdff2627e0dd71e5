//! HTTP messages as plain values: what the interceptors read and change.

use crate::text;
use vstd::prelude::*;

verus! {

/// One header: its name and its value.
pub type HeaderV = (Seq<char>, Seq<char>);

/// The headers of a message, in order. A name can occur more than once. Names
/// are kept in lower case, and the case of a name that is asked for is ignored.
#[derive(Debug)]
pub struct Headers {
    entries: Vec<(String, String)>,
}

/// The position of the first header called `name`, or the number of headers.
pub open spec fn header_at(h: Seq<HeaderV>, name: Seq<char>) -> nat
    decreases h.len(),
{
    if h.len() == 0 || h[0].0 == name {
        0
    } else {
        1 + header_at(h.drop_first(), name)
    }
}

/// There is a header called `name`.
pub open spec fn has_header(h: Seq<HeaderV>, name: Seq<char>) -> bool {
    exists|i: int| 0 <= i < h.len() && (#[trigger] h[i]).0 == name
}

/// The value of the first header called `name`.
pub open spec fn header(h: Seq<HeaderV>, name: Seq<char>) -> Option<Seq<char>> {
    if header_at(h, name) < h.len() {
        Some(h[header_at(h, name) as int].1)
    } else {
        None
    }
}

/// The values of all headers called `name`, in order.
pub open spec fn header_values(h: Seq<HeaderV>, name: Seq<char>) -> Seq<Seq<char>>
    decreases h.len(),
{
    if h.len() == 0 {
        Seq::empty()
    } else if h.last().0 == name {
        header_values(h.drop_last(), name).push(h.last().1)
    } else {
        header_values(h.drop_last(), name)
    }
}

/// The headers that `keep` holds of.
pub open spec fn kept(h: Seq<HeaderV>, keep: spec_fn(Seq<char>) -> bool) -> Seq<HeaderV>
    decreases h.len(),
{
    if h.len() == 0 {
        Seq::empty()
    } else if keep(h.last().0) {
        kept(h.drop_last(), keep).push(h.last())
    } else {
        kept(h.drop_last(), keep)
    }
}

/// The test for names other than `name`.
pub open spec fn other_than(name: Seq<char>) -> spec_fn(Seq<char>) -> bool {
    |n: Seq<char>| n != name
}

/// The headers that are not called `name`.
pub open spec fn without(h: Seq<HeaderV>, name: Seq<char>) -> Seq<HeaderV> {
    kept(h, other_than(name))
}

/// The headers with `name` set to the one value.
pub open spec fn with_header(h: Seq<HeaderV>, name: Seq<char>, value: Seq<char>) -> Seq<HeaderV> {
    without(h, name).push((name, value))
}

/// Everything that is kept is wanted, and was there.
pub proof fn lemma_kept(h: Seq<HeaderV>, keep: spec_fn(Seq<char>) -> bool)
    ensures
        kept(h, keep).len() <= h.len(),
        forall|i: int| 0 <= i < kept(h, keep).len() ==> keep((#[trigger] kept(h, keep)[i]).0),
        forall|i: int| 0 <= i < kept(h, keep).len() ==> h.contains(#[trigger] kept(h, keep)[i]),
    decreases h.len(),
{
    if h.len() > 0 {
        lemma_kept(h.drop_last(), keep);
        let before = kept(h.drop_last(), keep);
        assert forall|i: int| 0 <= i < kept(h, keep).len() implies h.contains(
            #[trigger] kept(h, keep)[i],
        ) by {
            if i < before.len() {
                assert(h.drop_last().contains(before[i]));
                let k = h.drop_last().index_of(before[i]);
                assert(h[k] == before[i]);
            } else {
                assert(h[h.len() - 1] == h.last());
            }
        }
    }
}

/// Everything that is wanted is kept.
pub proof fn lemma_kept_complete(h: Seq<HeaderV>, keep: spec_fn(Seq<char>) -> bool, i: int)
    requires
        0 <= i < h.len(),
        keep(h[i].0),
    ensures
        kept(h, keep).contains(h[i]),
    decreases h.len(),
{
    if i == h.len() - 1 {
        assert(kept(h, keep).last() == h[i]);
    } else {
        lemma_kept_complete(h.drop_last(), keep, i);
        let before = kept(h.drop_last(), keep);
        let k = before.index_of(h[i]);
        assert(kept(h, keep)[k] == h[i]);
    }
}

/// Where everything is wanted, everything is kept as it is.
pub proof fn lemma_kept_all(h: Seq<HeaderV>, keep: spec_fn(Seq<char>) -> bool)
    requires
        forall|i: int| 0 <= i < h.len() ==> keep((#[trigger] h[i]).0),
    ensures
        kept(h, keep) == h,
    decreases h.len(),
{
    if h.len() > 0 {
        assert(keep(h[h.len() - 1].0));
        assert forall|i: int| 0 <= i < h.drop_last().len() implies keep(
            (#[trigger] h.drop_last()[i]).0,
        ) by {
            assert(h.drop_last()[i] == h[i]);
        }
        lemma_kept_all(h.drop_last(), keep);
        assert(kept(h, keep) =~= h);
    } else {
        assert(kept(h, keep) =~= h);
    }
}

proof fn lemma_header_at(h: Seq<HeaderV>, name: Seq<char>, i: int)
    requires
        0 <= i <= h.len(),
        forall|k: int| 0 <= k < i ==> (#[trigger] h[k]).0 != name,
        i == h.len() || h[i].0 == name,
    ensures
        header_at(h, name) == i,
    decreases h.len(),
{
    if i > 0 {
        assert(h[0].0 != name);
        assert forall|k: int| 0 <= k < i - 1 implies (#[trigger] h.drop_first()[k]).0 != name by {
            assert(h.drop_first()[k] == h[k + 1]);
        }
        lemma_header_at(h.drop_first(), name, i - 1);
    }
}

/// There is a header called `name` exactly where one has a value.
pub proof fn lemma_has_header(h: Seq<HeaderV>, name: Seq<char>)
    ensures
        has_header(h, name) <==> header(h, name) is Some,
    decreases h.len(),
{
    if h.len() > 0 {
        let rest = h.drop_first();
        lemma_has_header(rest, name);
        if h[0].0 == name {
            assert(has_header(h, name));
        } else {
            if has_header(rest, name) {
                let i = choose|i: int| 0 <= i < rest.len() && (#[trigger] rest[i]).0 == name;
                assert(h[i + 1].0 == name);
            }
            if has_header(h, name) {
                let i = choose|i: int| 0 <= i < h.len() && (#[trigger] h[i]).0 == name;
                assert(rest[i - 1].0 == name);
            }
        }
    }
}

/// A header that is taken out is not there, and the others are as they were.
pub proof fn lemma_without(h: Seq<HeaderV>, name: Seq<char>, other: Seq<char>)
    ensures
        !has_header(without(h, name), name),
        other != name ==> header_values(without(h, name), other) == header_values(h, other),
        other != name ==> (has_header(without(h, name), other) <==> has_header(h, other)),
    decreases h.len(),
{
    let keep = other_than(name);
    lemma_kept(h, keep);
    if h.len() > 0 {
        lemma_without(h.drop_last(), name, other);
        let before = without(h.drop_last(), name);
        if keep(h.last().0) {
            assert(before.push(h.last()).drop_last() =~= before);
        }
    }
    if other != name {
        if has_header(h, other) {
            let i = choose|i: int| 0 <= i < h.len() && (#[trigger] h[i]).0 == other;
            lemma_kept_complete(h, keep, i);
            let k = kept(h, keep).index_of(h[i]);
            assert(kept(h, keep)[k].0 == other);
        }
        if has_header(without(h, name), other) {
            let k = choose|k: int|
                0 <= k < without(h, name).len() && (#[trigger] without(h, name)[k]).0 == other;
            assert(h.contains(without(h, name)[k]));
            let i = h.index_of(without(h, name)[k]);
            assert(h[i].0 == other);
        }
    }
}

/// A header that is set has the one value, and the others are as they were.
pub proof fn lemma_with_header(h: Seq<HeaderV>, name: Seq<char>, value: Seq<char>, other: Seq<char>)
    ensures
        header_values(with_header(h, name, value), name) == seq![value],
        header(with_header(h, name, value), name) == Some(value),
        other != name ==> header_values(with_header(h, name, value), other) == header_values(
            h,
            other,
        ),
        other != name ==> (has_header(with_header(h, name, value), other) <==> has_header(
            h,
            other,
        )),
{
    let base = without(h, name);
    let all = with_header(h, name, value);
    lemma_without(h, name, other);
    assert(all.drop_last() =~= base);
    lemma_no_values(base, name);
    assert(header_values(all, name) =~= seq![value]);
    assert forall|k: int| 0 <= k < base.len() implies (#[trigger] all[k]).0 != name by {
        assert(base[k].0 != name);
    }
    lemma_header_at(all, name, base.len() as int);
    if other != name {
        if has_header(base, other) {
            let i = choose|i: int| 0 <= i < base.len() && (#[trigger] base[i]).0 == other;
            assert(all[i].0 == other);
        }
        if has_header(all, other) {
            let i = choose|i: int| 0 <= i < all.len() && (#[trigger] all[i]).0 == other;
            assert(base[i].0 == other);
        }
    }
}

/// A header that is not there has no values.
pub proof fn lemma_no_values(h: Seq<HeaderV>, name: Seq<char>)
    requires
        !has_header(h, name),
    ensures
        header_values(h, name) == Seq::<Seq<char>>::empty(),
    decreases h.len(),
{
    if h.len() > 0 {
        assert(h[h.len() - 1].0 != name);
        assert forall|i: int| 0 <= i < h.drop_last().len() implies (
        #[trigger] h.drop_last()[i]).0 != name by {
            assert(h.drop_last()[i] == h[i]);
        }
        lemma_no_values(h.drop_last(), name);
    }
}

impl View for Headers {
    type V = Seq<HeaderV>;

    closed spec fn view(&self) -> Seq<HeaderV> {
        Seq::new(self.entries@.len(), |i: int| (self.entries@[i].0@, self.entries@[i].1@))
    }
}

/// The name is in lower case.
pub open spec fn is_lower(name: Seq<char>) -> bool {
    text::lowered(name) == name
}

proof fn lemma_lowered_is_lower(name: Seq<char>)
    ensures
        is_lower(text::lowered(name)),
{
    assert(text::lowered(text::lowered(name)) =~= text::lowered(name));
}

/// The names of the headers that the library reads or writes are in lower case.
pub(crate) proof fn lemma_header_names()
    ensures
        is_lower("accept-encoding"@),
        is_lower("authorization"@),
        is_lower("content-encoding"@),
        is_lower("content-length"@),
        is_lower("user-agent"@),
        is_lower("x-amz-checksum-crc32"@),
        is_lower("x-amz-checksum-crc32c"@),
        is_lower("x-amz-checksum-crc64nvme"@),
        is_lower("x-amz-checksum-sha1"@),
        is_lower("x-amz-checksum-sha256"@),
        is_lower("x-amz-crc32"@),
        is_lower("x-amz-crc32c"@),
        is_lower("x-amz-date"@),
        is_lower("x-amz-target"@),
{
    reveal_strlit("accept-encoding");
    assert(text::lowered("accept-encoding"@) =~= "accept-encoding"@);
    reveal_strlit("authorization");
    assert(text::lowered("authorization"@) =~= "authorization"@);
    reveal_strlit("content-encoding");
    assert(text::lowered("content-encoding"@) =~= "content-encoding"@);
    reveal_strlit("content-length");
    assert(text::lowered("content-length"@) =~= "content-length"@);
    reveal_strlit("user-agent");
    assert(text::lowered("user-agent"@) =~= "user-agent"@);
    reveal_strlit("x-amz-checksum-crc32");
    assert(text::lowered("x-amz-checksum-crc32"@) =~= "x-amz-checksum-crc32"@);
    reveal_strlit("x-amz-checksum-crc32c");
    assert(text::lowered("x-amz-checksum-crc32c"@) =~= "x-amz-checksum-crc32c"@);
    reveal_strlit("x-amz-checksum-crc64nvme");
    assert(text::lowered("x-amz-checksum-crc64nvme"@) =~= "x-amz-checksum-crc64nvme"@);
    reveal_strlit("x-amz-checksum-sha1");
    assert(text::lowered("x-amz-checksum-sha1"@) =~= "x-amz-checksum-sha1"@);
    reveal_strlit("x-amz-checksum-sha256");
    assert(text::lowered("x-amz-checksum-sha256"@) =~= "x-amz-checksum-sha256"@);
    reveal_strlit("x-amz-crc32");
    assert(text::lowered("x-amz-crc32"@) =~= "x-amz-crc32"@);
    reveal_strlit("x-amz-crc32c");
    assert(text::lowered("x-amz-crc32c"@) =~= "x-amz-crc32c"@);
    reveal_strlit("x-amz-date");
    assert(text::lowered("x-amz-date"@) =~= "x-amz-date"@);
    reveal_strlit("x-amz-target");
    assert(text::lowered("x-amz-target"@) =~= "x-amz-target"@);
}

impl Headers {
    #[verifier::type_invariant]
    spec fn inv(&self) -> bool {
        forall|i: int| 0 <= i < self.entries@.len() ==> is_lower((#[trigger] self.entries@[i]).0@)
    }

    /// No headers.
    pub fn new() -> (r: Headers)
        ensures
            r@ == Seq::<HeaderV>::empty(),
    {
        let r = Headers { entries: Vec::new() };
        assert(r@ =~= Seq::empty());
        r
    }

    /// How many headers there are.
    pub fn len(&self) -> (r: usize)
        ensures
            r == self@.len(),
    {
        self.entries.len()
    }

    /// The name of the header at `i`.
    pub fn name_at(&self, i: usize) -> (r: &str)
        requires
            i < self@.len(),
        ensures
            r@ == self@[i as int].0,
            is_lower(r@),
    {
        proof {
            use_type_invariant(self);
        }
        self.entries[i].0.as_str()
    }

    /// The value of the header at `i`.
    pub fn value_at(&self, i: usize) -> (r: &str)
        requires
            i < self@.len(),
        ensures
            r@ == self@[i as int].1,
    {
        self.entries[i].1.as_str()
    }

    /// Adds a value, beside those that `name` has.
    pub fn append(&mut self, name: &str, value: &str)
        ensures
            final(self)@ == old(self)@.push((text::lowered(name@), value@)),
    {
        let mut taken = Headers::new();
        std::mem::swap(self, &mut taken);
        proof {
            use_type_invariant(&taken);
            lemma_lowered_is_lower(name@);
        }
        let ghost before = taken@;
        let mut entries = taken.entries;
        entries.push((text::ascii_lower(name), value.to_owned()));
        *self = Headers { entries };
        assert(self@ =~= before.push((text::lowered(name@), value@)));
    }

    /// Takes out every header called `name`.
    pub fn remove(&mut self, name: &str)
        ensures
            final(self)@ == without(old(self)@, text::lowered(name@)),
    {
        let name = text::ascii_lower(name);
        let ghost keep = other_than(name@);
        let ghost all = self@;
        let mut out = Headers::new();
        let mut i: usize = 0;
        assert(out@ =~= kept(all.take(0), keep));
        while i < self.len()
            invariant
                i <= self@.len(),
                self@ == all,
                keep == other_than(name@),
                out@ == kept(all.take(i as int), keep),
            decreases self@.len() - i,
        {
            assert(all.take(i + 1).drop_last() =~= all.take(i as int));
            if !text::same(self.name_at(i), name.as_str()) {
                out.append(self.name_at(i), self.value_at(i));
            }
            i = i + 1;
        }
        assert(all.take(i as int) =~= all);
        *self = out;
    }

    /// Sets `name` to the one value.
    pub fn insert(&mut self, name: &str, value: &str)
        ensures
            final(self)@ == with_header(old(self)@, text::lowered(name@), value@),
    {
        self.remove(name);
        self.append(name, value);
    }

    /// Whether there is a header called `name`.
    pub fn contains_key(&self, name: &str) -> (r: bool)
        ensures
            r == has_header(self@, text::lowered(name@)),
    {
        proof {
            lemma_has_header(self@, text::lowered(name@));
        }
        self.get(name).is_some()
    }

    /// The value of the first header called `name`.
    pub fn get(&self, name: &str) -> (r: Option<&str>)
        ensures
            r is Some <==> header(self@, text::lowered(name@)) is Some,
            r matches Some(v) ==> header(self@, text::lowered(name@)) == Some(v@),
    {
        let wanted = text::ascii_lower(name);
        let mut i: usize = 0;
        while i < self.len()
            invariant
                i <= self@.len(),
                wanted@ == text::lowered(name@),
                forall|k: int| 0 <= k < i ==> (#[trigger] self@[k]).0 != wanted@,
            decreases self@.len() - i,
        {
            if text::same(self.name_at(i), wanted.as_str()) {
                proof {
                    lemma_header_at(self@, wanted@, i as int);
                }
                return Some(self.value_at(i));
            }
            i = i + 1;
        }
        proof {
            lemma_header_at(self@, wanted@, i as int);
        }
        None
    }

    /// The values of all headers called `name`, in order.
    pub fn get_all(&self, name: &str) -> (r: Vec<String>)
        ensures
            text::views(r@) == header_values(self@, text::lowered(name@)),
    {
        let name = text::ascii_lower(name);
        let mut out: Vec<String> = Vec::new();
        let mut i: usize = 0;
        assert(text::views(out@) =~= header_values(self@.take(0), name@));
        while i < self.len()
            invariant
                i <= self@.len(),
                text::views(out@) == header_values(self@.take(i as int), name@),
            decreases self@.len() - i,
        {
            assert(self@.take(i + 1).drop_last() =~= self@.take(i as int));
            if text::same(self.name_at(i), name.as_str()) {
                let ghost before = out@;
                out.push(self.value_at(i).to_owned());
                assert(text::views(out@) =~= text::views(before).push(self@[i as int].1));
            }
            i = i + 1;
        }
        assert(self@.take(i as int) =~= self@);
        out
    }

}

/// A request. The body is `None` where it is not collected in memory.
#[derive(Debug)]
pub struct Request {
    pub uri: String,
    pub headers: Headers,
    pub body: Option<Vec<u8>>,
}

/// The mathematical value of a [`Request`].
pub ghost struct RequestV {
    pub uri: Seq<char>,
    pub headers: Seq<HeaderV>,
    pub body: Option<Seq<u8>>,
}

/// The bytes of an optional body.
pub open spec fn body_view(body: Option<Vec<u8>>) -> Option<Seq<u8>> {
    match body {
        Some(b) => Some(b@),
        None => None,
    }
}

impl View for Request {
    type V = RequestV;

    open spec fn view(&self) -> RequestV {
        RequestV { uri: self.uri@, headers: self.headers@, body: body_view(self.body) }
    }
}

impl Request {
    /// A request without headers and with an empty body.
    pub fn empty() -> (r: Request)
        ensures
            r@ == (RequestV {
                uri: "/"@,
                headers: Seq::empty(),
                body: Some(Seq::empty()),
            }),
    {
        let body: Vec<u8> = Vec::new();
        assert(body@ =~= Seq::empty());
        Request { uri: "/".to_owned(), headers: Headers::new(), body: Some(body) }
    }
}

/// The request with another body, and its length in the headers.
pub open spec fn with_body(r: RequestV, body: Seq<u8>) -> RequestV {
    RequestV {
        headers: with_header(r.headers, "content-length"@, text::decimal_of(body.len())),
        body: Some(body),
        ..r
    }
}

impl Request {
    /// Replaces the body, and its length in the headers.
    pub fn replace_body(&mut self, body: Vec<u8>)
        ensures
            final(self)@ == with_body(old(self)@, body@),
    {
        proof {
            lemma_header_names();
        }
        let len = text::decimal(body.len());
        self.headers.insert("content-length", len.as_str());
        self.body = Some(body);
    }
}

/// A header that is there has a value, and its first value is the one that is
/// found.
pub proof fn law_present_header_has_values(h: Seq<HeaderV>, name: Seq<char>)
    ensures
        has_header(h, name) <==> header_values(h, name).len() > 0,
        header(h, name) is Some <==> has_header(h, name),
        has_header(h, name) ==> header(h, name) == Some(header_values(h, name)[0]),
    decreases h.len(),
{
    lemma_has_header(h, name);
    if h.len() > 0 {
        let before = h.drop_last();
        let last = h.len() - 1;
        law_present_header_has_values(before, name);
        if has_header(before, name) {
            let i = choose|i: int| 0 <= i < before.len() && (#[trigger] before[i]).0 == name;
            assert(h[i].0 == name);
            lemma_header_at_found(before, name);
            let k = header_at(before, name) as int;
            assert forall|l: int| 0 <= l < k implies (#[trigger] h[l]).0 != name by {
                assert(before[l].0 != name);
            }
            assert(h[k] == before[k]);
            lemma_header_at(h, name, k);
        } else if h.last().0 == name {
            assert(h[last].0 == name);
            assert forall|l: int| 0 <= l < last implies (#[trigger] h[l]).0 != name by {
                assert(before[l].0 == h[l].0);
            }
            lemma_header_at(h, name, last);
            lemma_no_values(before, name);
        } else if has_header(h, name) {
            let i = choose|i: int| 0 <= i < h.len() && (#[trigger] h[i]).0 == name;
            assert(before[i].0 == name);
        }
    }
}

proof fn lemma_header_at_found(h: Seq<HeaderV>, name: Seq<char>)
    requires
        has_header(h, name),
    ensures
        header_at(h, name) < h.len(),
        h[header_at(h, name) as int].0 == name,
        forall|l: int| 0 <= l < header_at(h, name) ==> (#[trigger] h[l]).0 != name,
    decreases h.len(),
{
    lemma_has_header(h, name);
    if h[0].0 != name {
        let rest = h.drop_first();
        let i = choose|i: int| 0 <= i < h.len() && (#[trigger] h[i]).0 == name;
        assert(rest[i - 1].0 == name);
        lemma_header_at_found(rest, name);
        assert forall|l: int| 0 <= l < header_at(h, name) implies (#[trigger] h[l]).0 != name by {
            if l > 0 {
                assert(rest[l - 1] == h[l]);
            }
        }
    }
}

/// A value that is appended comes after those that the name has, and the other
/// names keep theirs.
pub proof fn law_appended_value_comes_last(
    h: Seq<HeaderV>,
    name: Seq<char>,
    value: Seq<char>,
    other: Seq<char>,
)
    ensures
        header_values(h.push((name, value)), name) == header_values(h, name).push(value),
        other != name ==> header_values(h.push((name, value)), other) == header_values(h, other),
{
    assert(h.push((name, value)).drop_last() =~= h);
}

/// A new body is sent with its length, and with everything else as it was.
pub proof fn law_new_body_has_its_length(r: RequestV, body: Seq<u8>, other: Seq<char>)
    requires
        other != "content-length"@,
    ensures
        with_body(r, body).body == Some(body),
        header_values(with_body(r, body).headers, "content-length"@) == seq![
            text::decimal_of(body.len()),
        ],
        header_values(with_body(r, body).headers, other) == header_values(r.headers, other),
        with_body(r, body).uri == r.uri,
{
    lemma_with_header(r.headers, "content-length"@, text::decimal_of(body.len()), other);
}

/// The value of a request has all its parts.
pub proof fn law_value_has_the_whole_request(r: Request)
    ensures
        r@.uri == r.uri@,
        r@.headers == r.headers@,
        r.body matches Some(body) ==> r@.body == Some(body@),
        r.body is None ==> r@.body is None,
{
}

} // verus!
