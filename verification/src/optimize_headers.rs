//! Stripping the headers that Alternator has no use for.

use crate::http::{
    header_values, kept, lemma_kept, lemma_kept_all, lemma_kept_complete, HeaderV, Headers, Request,
    RequestV,
};
use crate::text;
use vstd::prelude::*;

verus! {

/// The header is one that Alternator reads. Those of a signature count only
/// where `auth` is set.
pub open spec fn is_allowed(name: Seq<char>, auth: bool) -> bool {
    ||| name == "host"@
    ||| name == "x-amz-target"@
    ||| name == "content-length"@
    ||| name == "accept-encoding"@
    ||| name == "content-encoding"@
    ||| auth && name == "authorization"@
    ||| auth && name == "x-amz-date"@
}

/// The test for the headers that Alternator reads.
pub open spec fn allowed(auth: bool) -> spec_fn(Seq<char>) -> bool {
    |name: Seq<char>| is_allowed(name, auth)
}

/// The request without the headers that Alternator has no use for.
pub open spec fn stripped(r: RequestV, auth: bool) -> RequestV {
    RequestV { headers: kept(r.headers, allowed(auth)), ..r }
}

fn allows(name: &str, auth: bool) -> (r: bool)
    ensures
        r == is_allowed(name@, auth),
{
    text::same(name, "host") || text::same(name, "x-amz-target") || text::same(
        name,
        "content-length",
    ) || text::same(name, "accept-encoding") || text::same(name, "content-encoding") || (auth
        && text::same(name, "authorization")) || (auth && text::same(name, "x-amz-date"))
}

/// Removes the headers that Alternator has no use for.
pub fn strip_headers(request: &mut Request, preserve_auth_headers: bool)
    ensures
        final(request)@ == stripped(old(request)@, preserve_auth_headers),
{
    let ghost all = request.headers@;
    let ghost keep = allowed(preserve_auth_headers);
    let mut out = Headers::new();
    let mut i: usize = 0;
    assert(out@ =~= kept(all.take(0), keep));
    while i < request.headers.len()
        invariant
            i <= all.len(),
            all == request.headers@,
            *request == *old(request),
            keep == allowed(preserve_auth_headers),
            out@ == kept(all.take(i as int), keep),
        decreases all.len() - i,
    {
        assert(all.take(i + 1).drop_last() =~= all.take(i as int));
        if allows(request.headers.name_at(i), preserve_auth_headers) {
            out.append(request.headers.name_at(i), request.headers.value_at(i));
        }
        i = i + 1;
    }
    assert(all.take(i as int) =~= all);
    request.headers = out;
}

/// Stripping leaves exactly the allowed headers, and stripping again changes nothing.
pub proof fn law_stripping_keeps_exactly_the_allowed(r: RequestV, auth: bool, header: HeaderV)
    ensures
        stripped(r, auth).headers.contains(header) <==> r.headers.contains(header) && is_allowed(
            header.0,
            auth,
        ),
        stripped(stripped(r, auth), auth) == stripped(r, auth),
{
    let keep = allowed(auth);
    let after = kept(r.headers, keep);
    lemma_kept(r.headers, keep);
    if r.headers.contains(header) && is_allowed(header.0, auth) {
        let i = r.headers.index_of(header);
        lemma_kept_complete(r.headers, keep, i);
    }
    if after.contains(header) {
        let i = after.index_of(header);
        assert(keep(after[i].0));
        assert(r.headers.contains(after[i]));
    }
    lemma_kept_all(after, keep);
}

proof fn lemma_kept_values(
    h: Seq<HeaderV>,
    keep: spec_fn(Seq<char>) -> bool,
    name: Seq<char>,
)
    ensures
        keep(name) ==> header_values(kept(h, keep), name) == header_values(h, name),
        !keep(name) ==> header_values(kept(h, keep), name) == Seq::<Seq<char>>::empty(),
    decreases h.len(),
{
    if h.len() > 0 {
        let before = h.drop_last();
        lemma_kept_values(before, keep, name);
        if keep(h.last().0) {
            assert(kept(h, keep).drop_last() =~= kept(before, keep));
        }
    }
}

/// What Alternator reads is kept, with all its values: the host, the target,
/// the length and the encodings, and the signature where it is to be kept.
/// Everything else is taken out, and nothing but headers changes.
pub proof fn law_stripping_by_name(r: RequestV, auth: bool, name: Seq<char>)
    ensures
        ({
            let after = stripped(r, auth);
            let signature = name == "authorization"@ || name == "x-amz-date"@;
            let read = name == "host"@ || name == "x-amz-target"@ || name == "content-length"@
                || name == "accept-encoding"@ || name == "content-encoding"@;
            &&& read || (signature && auth) ==> header_values(after.headers, name)
                == header_values(r.headers, name)
            &&& !(read || (signature && auth)) ==> header_values(after.headers, name) == Seq::<
                Seq<char>,
            >::empty()
            &&& after.uri == r.uri
            &&& after.body == r.body
        }),
{
    lemma_kept_values(r.headers, allowed(auth), name);
}

} // verus!
