//! URLs of Alternator nodes, as plain values.
//!
//! Parsing and changing a URL is the work of the `url` crate; what it gives is
//! held here by its parts.

use crate::text;
use vstd::prelude::*;
use vstd::utf8::encode_utf8;

verus! {

/// A parsed URL, by its parts.
#[derive(Debug, Clone, PartialEq, Eq, Hash)]
pub struct NodeUrl {
    /// The whole URL in its normal form.
    pub href: String,
    pub scheme: String,
    /// The host, an IPv6 address in brackets.
    pub host: Option<String>,
    /// The port, where it is not the scheme's default.
    pub port: Option<u16>,
    /// The port, or the scheme's default.
    pub known_port: Option<u16>,
}

/// The mathematical value of a [`NodeUrl`].
pub ghost struct UrlV {
    pub href: Seq<char>,
    pub scheme: Seq<char>,
    pub host: Option<Seq<char>>,
    pub port: Option<u16>,
    pub known_port: Option<u16>,
}

/// The characters of an optional string.
pub open spec fn opt_chars(s: Option<String>) -> Option<Seq<char>> {
    match s {
        Some(s) => Some(s@),
        None => None,
    }
}

impl View for NodeUrl {
    type V = UrlV;

    open spec fn view(&self) -> UrlV {
        UrlV {
            href: self.href@,
            scheme: self.scheme@,
            host: opt_chars(self.host),
            port: self.port,
            known_port: self.known_port,
        }
    }
}

/// The value of an optional URL.
pub open spec fn opt_url(u: Option<NodeUrl>) -> Option<UrlV> {
    match u {
        Some(u) => Some(u@),
        None => None,
    }
}

/// The values of a list of URLs.
pub open spec fn url_views(urls: Seq<NodeUrl>) -> Seq<UrlV> {
    Seq::new(urls.len(), |i: int| urls[i]@)
}

/// The value of a parse: the URL, or the reason why there is none.
pub open spec fn parse_view(r: Result<NodeUrl, String>) -> Result<UrlV, Seq<char>> {
    match r {
        Ok(u) => Ok(u@),
        Err(e) => Err(e@),
    }
}

impl NodeUrl {
    /// The whole URL in its normal form.
    pub fn as_str(&self) -> (r: &str)
        ensures
            r@ == self@.href,
    {
        self.href.as_str()
    }

    /// The scheme.
    pub fn scheme(&self) -> (r: &str)
        ensures
            r@ == self@.scheme,
    {
        self.scheme.as_str()
    }

    /// The host.
    pub fn host_str(&self) -> (r: Option<&str>)
        ensures
            match r {
                Some(h) => self@.host == Some(h@),
                None => self@.host is None,
            },
    {
        match &self.host {
            Some(h) => Some(h.as_str()),
            None => None,
        }
    }

    /// The port, where it is not the scheme's default.
    pub fn port(&self) -> (r: Option<u16>)
        ensures
            r == self@.port,
    {
        self.port
    }

    /// The port, or the scheme's default.
    pub fn port_or_known_default(&self) -> (r: Option<u16>)
        ensures
            r == self@.known_port,
    {
        self.known_port
    }

    /// A copy of this URL.
    pub fn duplicate(&self) -> (r: NodeUrl)
        ensures
            r@ == self@,
    {
        NodeUrl {
            href: self.href.clone(),
            scheme: self.scheme.clone(),
            host: match &self.host {
                Some(h) => Some(h.clone()),
                None => None,
            },
            port: self.port,
            known_port: self.known_port,
        }
    }
}

/// A copy of a list of URLs.
pub fn duplicate_urls(urls: &Vec<NodeUrl>) -> (r: Vec<NodeUrl>)
    ensures
        url_views(r@) == url_views(urls@),
{
    let mut out: Vec<NodeUrl> = Vec::new();
    let mut i: usize = 0;
    while i < urls.len()
        invariant
            i <= urls.len(),
            out.len() == i,
            forall|k: int| 0 <= k < i ==> (#[trigger] out@[k])@ == urls@[k]@,
        decreases urls.len() - i,
    {
        out.push(urls[i].duplicate());
        i = i + 1;
    }
    assert(url_views(out@) =~= url_views(urls@));
    out
}

/// What `input` is as a URL, or the reason why it is none.
pub uninterp spec fn url_parsed(input: Seq<char>) -> Result<UrlV, Seq<char>>;

/// The reason why `input` is no host, if it is none.
pub uninterp spec fn host_fault(input: Seq<char>) -> Option<Seq<char>>;

/// The URL `href` with another scheme, where it can have it.
pub uninterp spec fn url_with_scheme(href: Seq<char>, scheme: Seq<char>) -> Option<UrlV>;

/// The URL `href` with another host, where it can have it.
pub uninterp spec fn url_with_host(href: Seq<char>, host: Seq<char>) -> Option<UrlV>;

/// The URL `href` with another port, where it can have it.
pub uninterp spec fn url_with_port(href: Seq<char>, port: Option<u16>) -> Option<UrlV>;

/// The URL `href` with another path, where `href` is a URL.
pub uninterp spec fn url_with_path(href: Seq<char>, path: Seq<char>) -> Option<UrlV>;

/// The URL `href` with a pair added to its query, where `href` is a URL.
pub uninterp spec fn url_with_pair(href: Seq<char>, name: Seq<char>, value: Seq<char>) -> Option<
    UrlV,
>;

/// How long a URL can be, in bytes. The `url` crate holds positions in 32 bits:
/// it parses no URL in which one lies beyond them, and panics where a change
/// would bring one there. What is sent is far shorter: a request's URI has no
/// more than 65534 bytes, and one that is longer is refused when it is set.
pub const MAX_URL_BYTES: u64 = 0xffff_ffff;

/// How many bytes a host can become for each of its own, once its characters
/// are mapped and written in ASCII.
pub const HOST_GROWTH: u64 = 64;

/// How many bytes a path or a pair can become for each of its own, once escaped.
pub const ESCAPE_GROWTH: u64 = 3;

/// How many bytes a port takes.
pub const PORT_BYTES: u64 = 6;

/// How many bytes can stand around a part.
pub const PART_FRAME: u64 = 64;

/// The length of a text, in bytes.
pub open spec fn byte_len(s: Seq<char>) -> nat {
    encode_utf8(s).len()
}

/// The URL `href` can grow by `more` bytes. What is no URL does not grow.
pub open spec fn has_room(href: Seq<char>, more: int) -> bool {
    url_parsed(href) matches Ok(u) ==> byte_len(u.href) + more <= MAX_URL_BYTES
}

/// `url::Url::parse`: the URL, or the reason it is refused for. The result
/// depends on the text alone.
#[verifier::external_body]
pub(crate) fn parse_url(input: &str) -> (r: Result<NodeUrl, String>)
    ensures
        parse_view(r) == url_parsed(input@),
{
    let url = url::Url::parse(input).map_err(|e| e.to_string())?;
    Ok(NodeUrl {
        href: url.as_str().to_owned(),
        scheme: url.scheme().to_owned(),
        host: url.host_str().map(str::to_owned),
        port: url.port(),
        known_port: url.port_or_known_default(),
    })
}

/// `url::Host::parse`: the reason the text is refused for, if it is. The
/// result depends on the text alone.
#[verifier::external_body]
pub(crate) fn find_host_fault(input: &str) -> (r: Option<String>)
    ensures
        opt_chars(r) == host_fault(input@),
{
    url::Host::parse(input).err().map(|e| e.to_string())
}

/// `url::Url::set_scheme` on the URL `href`: the URL after it, or `None` where
/// it is refused or `href` is no URL. The result depends on the two texts alone.
#[verifier::external_body]
fn set_scheme(href: &str, scheme: &str) -> (r: Option<NodeUrl>)
    requires
        has_room(href@, byte_len(scheme@) as int),
    ensures
        opt_url(r) == url_with_scheme(href@, scheme@),
{
    let mut url = url::Url::parse(href).ok()?;
    url.set_scheme(scheme).ok()?;
    Some(NodeUrl {
        href: url.as_str().to_owned(),
        scheme: url.scheme().to_owned(),
        host: url.host_str().map(str::to_owned),
        port: url.port(),
        known_port: url.port_or_known_default(),
    })
}

/// `url::Url::set_host` with a host on the URL `href`: the URL after it, or
/// `None` where it is refused or `href` is no URL. The result depends on the two
/// texts alone. Taking the host away is another matter, and can panic.
#[verifier::external_body]
fn set_host(href: &str, host: &str) -> (r: Option<NodeUrl>)
    requires
        has_room(href@, HOST_GROWTH * byte_len(host@) + PART_FRAME),
    ensures
        opt_url(r) == url_with_host(href@, host@),
{
    let mut url = url::Url::parse(href).ok()?;
    url.set_host(Some(host)).ok()?;
    Some(NodeUrl {
        href: url.as_str().to_owned(),
        scheme: url.scheme().to_owned(),
        host: url.host_str().map(str::to_owned),
        port: url.port(),
        known_port: url.port_or_known_default(),
    })
}

/// `url::Url::set_port` on the URL `href`: the URL after it, or `None` where
/// it is refused or `href` is no URL. The result depends on the text and the port alone, and the
/// port that was set is the one the URL is reached at.
#[verifier::external_body]
fn set_port(href: &str, port: Option<u16>) -> (r: Option<NodeUrl>)
    requires
        has_room(href@, PORT_BYTES as int),
    ensures
        opt_url(r) == url_with_port(href@, port),
        r is Some && port is Some ==> r->0@.known_port == port,
{
    let mut url = url::Url::parse(href).ok()?;
    url.set_port(port).ok()?;
    Some(NodeUrl {
        href: url.as_str().to_owned(),
        scheme: url.scheme().to_owned(),
        host: url.host_str().map(str::to_owned),
        port: url.port(),
        known_port: url.port_or_known_default(),
    })
}

/// `url::Url::set_path` on the URL `href`: the URL after it, or `None` where
/// `href` is no URL. The result depends on the two texts alone.
#[verifier::external_body]
fn set_path(href: &str, path: &str) -> (r: Option<NodeUrl>)
    requires
        has_room(href@, ESCAPE_GROWTH * byte_len(path@) + PART_FRAME),
    ensures
        opt_url(r) == url_with_path(href@, path@),
{
    let mut url = url::Url::parse(href).ok()?;
    url.set_path(path);
    Some(NodeUrl {
        href: url.as_str().to_owned(),
        scheme: url.scheme().to_owned(),
        host: url.host_str().map(str::to_owned),
        port: url.port(),
        known_port: url.port_or_known_default(),
    })
}

/// `append_pair` of `url::Url::query_pairs_mut` on the URL `href`: the URL
/// after it, or `None` where `href` is no URL. The result depends on the three
/// texts alone.
#[verifier::external_body]
fn append_pair(href: &str, name: &str, value: &str) -> (r: Option<NodeUrl>)
    requires
        has_room(href@, ESCAPE_GROWTH * (byte_len(name@) + byte_len(value@)) + PART_FRAME),
    ensures
        opt_url(r) == url_with_pair(href@, name@, value@),
{
    let mut url = url::Url::parse(href).ok()?;
    url.query_pairs_mut().append_pair(name, value);
    Some(NodeUrl {
        href: url.as_str().to_owned(),
        scheme: url.scheme().to_owned(),
        host: url.host_str().map(str::to_owned),
        port: url.port(),
        known_port: url.port_or_known_default(),
    })
}

/// The URL `href` with another scheme, where it can have it and has room for it.
pub open spec fn scheme_changed(href: Seq<char>, scheme: Seq<char>) -> Option<UrlV> {
    if has_room(href, byte_len(scheme) as int) {
        url_with_scheme(href, scheme)
    } else {
        None
    }
}

/// The URL `href` with another host, where there is one and the URL can have it
/// and has room for it. A node without a host is no place to send to.
pub open spec fn host_changed(href: Seq<char>, host: Option<Seq<char>>) -> Option<UrlV> {
    match host {
        Some(h) => if has_room(href, HOST_GROWTH * byte_len(h) + PART_FRAME) {
            url_with_host(href, h)
        } else {
            None
        },
        None => None,
    }
}

/// The URL `href` with another port, where it can have it and has room for it.
pub open spec fn port_changed(href: Seq<char>, port: Option<u16>) -> Option<UrlV> {
    if has_room(href, PORT_BYTES as int) {
        url_with_port(href, port)
    } else {
        None
    }
}

/// The URL `href` with another path, where it is a URL and has room for it.
pub open spec fn path_changed(href: Seq<char>, path: Seq<char>) -> Option<UrlV> {
    if has_room(href, ESCAPE_GROWTH * byte_len(path) + PART_FRAME) {
        url_with_path(href, path)
    } else {
        None
    }
}

/// The URL `href` with a pair added to its query, where it is a URL and has
/// room for it.
pub open spec fn pair_added(href: Seq<char>, name: Seq<char>, value: Seq<char>) -> Option<UrlV> {
    if has_room(href, ESCAPE_GROWTH * (byte_len(name) + byte_len(value)) + PART_FRAME) {
        url_with_pair(href, name, value)
    } else {
        None
    }
}

/// Whether the URL `href` can grow by `each` bytes for each of `bytes`, and
/// `frame` more.
fn can_grow(href: &str, bytes: u64, each: u64, frame: u64) -> (r: bool)
    requires
        1 <= each <= HOST_GROWTH,
        frame <= PART_FRAME,
    ensures
        r == has_room(href@, each * bytes + frame),
{
    match parse_url(href) {
        Ok(u) => {
            let len = u.href.as_str().as_bytes().len();
            if bytes > MAX_URL_BYTES {
                assert(each * bytes >= bytes) by (nonlinear_arith)
                    requires
                        each >= 1,
                ;
                return false;
            }
            assert(each * bytes <= HOST_GROWTH * MAX_URL_BYTES) by (nonlinear_arith)
                requires
                    each <= HOST_GROWTH,
                    bytes <= MAX_URL_BYTES,
            ;
            let more: u64 = each * bytes + frame;
            more <= MAX_URL_BYTES && len as u64 <= MAX_URL_BYTES - more
        },
        Err(_) => true,
    }
}

fn bytes_in(s: &str) -> (r: u64)
    ensures
        r == byte_len(s@),
{
    s.as_bytes().len() as u64
}

fn change_scheme(href: &str, scheme: &str) -> (r: Option<NodeUrl>)
    ensures
        opt_url(r) == scheme_changed(href@, scheme@),
{
    if can_grow(href, bytes_in(scheme), 1, 0) {
        set_scheme(href, scheme)
    } else {
        None
    }
}

fn change_host(href: &str, host: Option<&str>) -> (r: Option<NodeUrl>)
    ensures
        opt_url(r) == host_changed(
            href@,
            match host {
                Some(h) => Some(h@),
                None => None,
            },
        ),
{
    match host {
        Some(h) => if can_grow(href, bytes_in(h), HOST_GROWTH, PART_FRAME) {
            set_host(href, h)
        } else {
            None
        },
        None => None,
    }
}

fn change_port(href: &str, port: Option<u16>) -> (r: Option<NodeUrl>)
    ensures
        opt_url(r) == port_changed(href@, port),
        r is Some && port is Some ==> r->0@.known_port == port,
{
    if can_grow(href, PORT_BYTES, 1, 0) {
        set_port(href, port)
    } else {
        None
    }
}

/// The URL `href` with another path.
pub(crate) fn change_path(href: &str, path: &str) -> (r: Option<NodeUrl>)
    ensures
        opt_url(r) == path_changed(href@, path@),
{
    if can_grow(href, bytes_in(path), ESCAPE_GROWTH, PART_FRAME) {
        set_path(href, path)
    } else {
        None
    }
}

/// The URL `href` with a pair added to its query.
pub(crate) fn add_pair(href: &str, name: &str, value: &str) -> (r: Option<NodeUrl>)
    ensures
        opt_url(r) == pair_added(href@, name@, value@),
{
    let both: u64 = bytes_in(name).saturating_add(bytes_in(value));
    if can_grow(href, both, ESCAPE_GROWTH, PART_FRAME) {
        append_pair(href, name, value)
    } else {
        None
    }
}

/// Why a request cannot be sent to a node.
#[derive(Debug, Clone, PartialEq, Eq)]
pub enum RetargetError {
    /// The request's own URI is no URL, for this reason.
    InvalidUri(String),
    CannotSetScheme,
    CannotSetHost,
    CannotSetPort,
}

/// The URI of a request that is sent to `node`, or why it cannot be.
pub open spec fn retargeted(uri: Seq<char>, node: UrlV) -> Result<Seq<char>, RetargetFault> {
    match url_parsed(uri) {
        Err(reason) => Err(RetargetFault::InvalidUri(reason)),
        Ok(current) => match scheme_changed(current.href, node.scheme) {
            None => Err(RetargetFault::CannotSetScheme),
            Some(schemed) => match host_changed(schemed.href, node.host) {
                None => Err(RetargetFault::CannotSetHost),
                Some(hosted) => match port_changed(hosted.href, node.port) {
                    None => Err(RetargetFault::CannotSetPort),
                    Some(done) => Ok(done.href),
                },
            },
        },
    }
}

/// The mathematical value of a [`RetargetError`].
pub ghost enum RetargetFault {
    InvalidUri(Seq<char>),
    CannotSetScheme,
    CannotSetHost,
    CannotSetPort,
}

impl View for RetargetError {
    type V = RetargetFault;

    open spec fn view(&self) -> RetargetFault {
        match self {
            RetargetError::InvalidUri(s) => RetargetFault::InvalidUri(s@),
            RetargetError::CannotSetScheme => RetargetFault::CannotSetScheme,
            RetargetError::CannotSetHost => RetargetFault::CannotSetHost,
            RetargetError::CannotSetPort => RetargetFault::CannotSetPort,
        }
    }
}

impl RetargetError {
    /// The error's message.
    pub fn message(&self) -> (r: String)
        ensures
            r@ == match self@ {
                RetargetFault::InvalidUri(s) => s,
                RetargetFault::CannotSetScheme => "cannot set scheme"@,
                RetargetFault::CannotSetHost => "cannot set host"@,
                RetargetFault::CannotSetPort => "cannot set port"@,
            },
    {
        match self {
            RetargetError::InvalidUri(s) => s.clone(),
            RetargetError::CannotSetScheme => "cannot set scheme".to_owned(),
            RetargetError::CannotSetHost => "cannot set host".to_owned(),
            RetargetError::CannotSetPort => "cannot set port".to_owned(),
        }
    }
}

/// The value of a retargeting.
pub open spec fn retarget_view(r: Result<String, RetargetError>) -> Result<
    Seq<char>,
    RetargetFault,
> {
    match r {
        Ok(s) => Ok(s@),
        Err(e) => Err(e@),
    }
}

/// The URI of a request that is sent to `node`: its scheme, host and port are
/// the node's, and the rest is its own.
pub fn retarget(uri: &str, node: &NodeUrl) -> (r: Result<String, RetargetError>)
    ensures
        retarget_view(r) == retargeted(uri@, node@),
{
    let current = match parse_url(uri) {
        Ok(u) => u,
        Err(reason) => {
            return Err(RetargetError::InvalidUri(reason));
        },
    };
    let schemed = match change_scheme(current.as_str(), node.scheme()) {
        Some(u) => u,
        None => {
            return Err(RetargetError::CannotSetScheme);
        },
    };
    let hosted = match change_host(schemed.as_str(), node.host_str()) {
        Some(u) => u,
        None => {
            return Err(RetargetError::CannotSetHost);
        },
    };
    match change_port(hosted.as_str(), node.port()) {
        Some(u) => Ok(u.href),
        None => Err(RetargetError::CannotSetPort),
    }
}

/// An address without the brackets around it, where it has both.
pub open spec fn unbracketed_of(addr: Seq<char>) -> Seq<char> {
    if addr.len() >= 2 && addr[0] == '[' && addr.last() == ']' {
        addr.subrange(1, addr.len() - 1)
    } else {
        addr
    }
}

/// An address without the brackets around it, where it has both.
pub fn unbracketed(addr: &str) -> (r: String)
    ensures
        r@ == unbracketed_of(addr@),
{
    let chars = text::to_chars(addr);
    let n: usize = chars.len();
    if n >= 2 && chars[0] == '[' && chars[n - 1] == ']' {
        text::copy_range(&chars, 1, n - 1)
    } else {
        addr.to_owned()
    }
}

/// The text of a node's URL before it is parsed. An IPv6 address stands in
/// brackets.
pub open spec fn node_text(scheme: Seq<char>, addr: Seq<char>, ipv6: bool) -> Seq<char> {
    if ipv6 {
        scheme + "://["@ + addr + "]"@
    } else {
        scheme + "://"@ + addr
    }
}

/// The URL of the node at `addr`, or the reason why there is none.
pub open spec fn node_url(
    scheme: Seq<char>,
    addr: Seq<char>,
    ipv6: bool,
    port: Option<u16>,
) -> Result<UrlV, Seq<char>> {
    match url_parsed(node_text(scheme, addr, ipv6)) {
        Err(reason) => Err(reason),
        Ok(u) => match port_changed(u.href, port) {
            Some(done) => Ok(done),
            None => Err("invalid port number"@),
        },
    }
}

/// Builds the URL of the node at `addr`. `ipv6` tells whether `addr` is an
/// IPv6 address.
pub fn build_node_url(scheme: &str, addr: &str, ipv6: bool, port: Option<u16>) -> (r: Result<
    NodeUrl,
    String,
>)
    ensures
        parse_view(r) == node_url(scheme@, addr@, ipv6, port),
        r is Ok && port is Some ==> r->Ok_0@.known_port == port,
{
    let mut out = scheme.to_owned();
    if ipv6 {
        out.append("://[");
        out.append(addr);
        out.append("]");
    } else {
        out.append("://");
        out.append(addr);
    }
    let url = match parse_url(out.as_str()) {
        Ok(u) => u,
        Err(reason) => {
            return Err(reason);
        },
    };
    match change_port(url.as_str(), port) {
        Some(u) => Ok(u),
        None => Err("invalid port number".to_owned()),
    }
}

/// The URL of a configured seed host, or the reason why there is none. What is
/// not an IPv6 address must be a host and nothing more.
pub open spec fn seed_url(
    scheme: Seq<char>,
    addr: Seq<char>,
    ipv6: bool,
    port: Option<u16>,
) -> Result<UrlV, Seq<char>> {
    if !ipv6 && host_fault(addr) is Some {
        Err(host_fault(addr)->0)
    } else {
        node_url(scheme, unbracketed_of(addr), ipv6, port)
    }
}

/// Builds the URL of a configured seed host. `ipv6` tells whether `addr`
/// without brackets is an IPv6 address.
pub fn build_seed_url(scheme: &str, addr: &str, ipv6: bool, port: Option<u16>) -> (r: Result<
    NodeUrl,
    String,
>)
    ensures
        parse_view(r) == seed_url(scheme@, addr@, ipv6, port),
        r is Ok && port is Some ==> r->Ok_0@.known_port == port,
{
    if !ipv6 {
        if let Some(reason) = find_host_fault(addr) {
            return Err(reason);
        }
    }
    let inner = unbracketed(addr);
    build_node_url(scheme, inner.as_str(), ipv6, port)
}

/// The two URLs lead to the same node.
pub open spec fn same_node(a: UrlV, b: UrlV) -> bool {
    a.host == b.host && a.known_port == b.known_port
}

/// Some node of the list is `node`.
pub open spec fn lists_node(nodes: Seq<UrlV>, node: UrlV) -> bool {
    exists|i: int| 0 <= i < nodes.len() && same_node(#[trigger] nodes[i], node)
}

fn same_host(a: &NodeUrl, b: &NodeUrl) -> (r: bool)
    ensures
        r == same_node(a@, b@),
{
    let hosts = match (&a.host, &b.host) {
        (Some(x), Some(y)) => text::same(x.as_str(), y.as_str()),
        (None, None) => true,
        _ => false,
    };
    let ports = match (a.known_port, b.known_port) {
        (Some(x), Some(y)) => x == y,
        (None, None) => true,
        _ => false,
    };
    hosts && ports
}

/// Whether some node of the list is `node`.
pub fn node_is_in_list(node: &NodeUrl, nodes: &Vec<NodeUrl>) -> (r: bool)
    ensures
        r == lists_node(url_views(nodes@), node@),
{
    let mut i: usize = 0;
    while i < nodes.len()
        invariant
            i <= nodes.len(),
            forall|k: int| 0 <= k < i ==> !same_node(#[trigger] url_views(nodes@)[k], node@),
        decreases nodes.len() - i,
    {
        assert(url_views(nodes@)[i as int] == nodes@[i as int]@);
        if same_host(&nodes[i], node) {
            return true;
        }
        i = i + 1;
    }
    false
}

/// A node is reached at its address, an IPv6 address in brackets, over the
/// scheme and at the port that are given.
pub proof fn law_node_is_reached_at_its_address(
    scheme: Seq<char>,
    addr: Seq<char>,
    ipv6: bool,
    port: Option<u16>,
    parsed: UrlV,
    reached: UrlV,
)
    requires
        url_parsed(
            if ipv6 {
                scheme + "://["@ + addr + "]"@
            } else {
                scheme + "://"@ + addr
            },
        ) == Ok::<UrlV, Seq<char>>(parsed),
        has_room(parsed.href, PORT_BYTES as int),
        url_with_port(parsed.href, port) == Some(reached),
    ensures
        node_url(scheme, addr, ipv6, port) == Ok::<UrlV, Seq<char>>(reached),
{
}

/// A seed host is a node's address; one that is not an IPv6 address must be a
/// host alone, and else is refused for the reason that it is none. Brackets
/// around an address make no difference.
pub proof fn law_seed_host_is_an_address(
    scheme: Seq<char>,
    addr: Seq<char>,
    port: Option<u16>,
)
    ensures
        seed_url(scheme, seq!['['] + addr + seq![']'], true, port) == node_url(
            scheme,
            addr,
            true,
            port,
        ),
        addr.len() == 0 || addr[0] != '[' ==> seed_url(scheme, addr, true, port) == node_url(
            scheme,
            addr,
            true,
            port,
        ),
        host_fault(addr) matches Some(reason) ==> seed_url(scheme, addr, false, port) == Err::<
            UrlV,
            Seq<char>,
        >(reason),
        host_fault(addr) is None && (addr.len() == 0 || addr[0] != '[') ==> seed_url(
            scheme,
            addr,
            false,
            port,
        ) == node_url(scheme, addr, false, port),
{
    let wrapped = seq!['['] + addr + seq![']'];
    assert(wrapped[0] == '[' && wrapped.last() == ']');
    assert(wrapped.subrange(1, wrapped.len() - 1) =~= addr);
}

/// A request that is sent to a node has the node's scheme, then its host, then
/// its port set in its own URI, and nothing else.
pub proof fn law_retargeting_sets_scheme_host_and_port(
    uri: Seq<char>,
    node: UrlV,
    current: UrlV,
    schemed: UrlV,
    hosted: UrlV,
    done: UrlV,
)
    requires
        url_parsed(uri) == Ok::<UrlV, Seq<char>>(current),
        has_room(current.href, byte_len(node.scheme) as int),
        url_with_scheme(current.href, node.scheme) == Some(schemed),
        node.host is Some,
        has_room(schemed.href, HOST_GROWTH * byte_len(node.host->0) + PART_FRAME),
        url_with_host(schemed.href, node.host->0) == Some(hosted),
        has_room(hosted.href, PORT_BYTES as int),
        url_with_port(hosted.href, node.port) == Some(done),
    ensures
        retargeted(uri, node) == Ok::<Seq<char>, RetargetFault>(done.href),
{
}

/// A request is never sent to a node in part: where any of the three cannot be
/// set, or the URI is no URL, it is refused for that.
pub proof fn law_retargeting_is_all_or_nothing(uri: Seq<char>, node: UrlV)
    ensures
        url_parsed(uri) matches Err(reason) ==> retargeted(uri, node) == Err::<
            Seq<char>,
            RetargetFault,
        >(RetargetFault::InvalidUri(reason)),
        url_parsed(uri) matches Ok(u) ==> {
            &&& url_with_scheme(u.href, node.scheme) is None ==> retargeted(uri, node) == Err::<
                Seq<char>,
                RetargetFault,
            >(RetargetFault::CannotSetScheme)
            &&& node.host is None ==> retargeted(uri, node) is Err
            &&& url_with_scheme(u.href, node.scheme) matches Some(schemed) ==> {
                node.host matches Some(host) ==> url_with_host(schemed.href, host) is None
                    ==> retargeted(uri, node) is Err
            }
        },
{
}

/// Two URLs lead to one node exactly where they have the same host and are
/// reached at the same port, whatever else differs.
pub proof fn law_same_host_and_port_is_the_same_node(a: UrlV, b: UrlV)
    ensures
        lists_node(seq![a], b) <==> a.host == b.host && a.known_port == b.known_port,
{
    let one = seq![a];
    if same_node(a, b) {
        assert(same_node(one[0], b));
    }
}

/// The value of a URL has all its parts.
pub proof fn law_value_has_the_whole_url(u: NodeUrl)
    ensures
        u@.href == u.href@,
        u@.scheme == u.scheme@,
        u.host matches Some(h) ==> u@.host == Some(h@),
        u.host is None ==> u@.host is None,
        u@.port == u.port,
        u@.known_port == u.known_port,
{
}

/// The reason why a request cannot be sent to a node is the one that is given.
pub proof fn law_value_has_the_reason(e: RetargetError)
    ensures
        e matches RetargetError::InvalidUri(s) ==> e@ == RetargetFault::InvalidUri(s@),
        e is CannotSetScheme <==> e@ is CannotSetScheme,
        e is CannotSetHost <==> e@ is CannotSetHost,
        e is CannotSetPort <==> e@ is CannotSetPort,
{
}

} // verus!
