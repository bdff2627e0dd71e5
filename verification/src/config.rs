//! The settings of a client.

use crate::compression::{RequestCompression, ResponseCompression, ResponseCompressionAlgorithm};
use crate::keyrouting::affinity_config::{KeyRouteAffinityConfig, KeyRouteAffinityType};
use crate::node_url;
use crate::node_url::{opt_chars, opt_url, url_parsed, NodeUrl, UrlV};
use crate::routing_scope::{RoutingScope, ScopeV};
use crate::text;
use crate::user_agent::UserAgent;
use vstd::prelude::*;

verus! {

/// What a client is refused with that both requires credentials and permits
/// unsigned requests.
pub const INCOMPATIBLE_AUTH_OPTIONS_MESSAGE: &'static str =
    "require_auth() cannot be combined with allow_no_auth(): require_auth() makes missing credentials fail before sending an unsigned request, while allow_no_auth() explicitly permits unsigned requests.";

/// The behaviour of the SDK that a client was written for, by its release.
#[derive(Debug, Clone, Copy, PartialEq, Eq, Structural)]
pub enum BehaviorVersion {
    V2023_11_09,
    V2024_03_28,
    V2025_01_17,
    V2025_08_07,
    V2026_01_12,
}

impl BehaviorVersion {
    /// The place of the version among all.
    pub open spec fn rank(self) -> nat {
        match self {
            BehaviorVersion::V2023_11_09 => 0,
            BehaviorVersion::V2024_03_28 => 1,
            BehaviorVersion::V2025_01_17 => 2,
            BehaviorVersion::V2025_08_07 => 3,
            BehaviorVersion::V2026_01_12 => 4,
        }
    }

    fn number(&self) -> (r: u8)
        ensures
            r == self.rank(),
    {
        match self {
            BehaviorVersion::V2023_11_09 => 0,
            BehaviorVersion::V2024_03_28 => 1,
            BehaviorVersion::V2025_01_17 => 2,
            BehaviorVersion::V2025_08_07 => 3,
            BehaviorVersion::V2026_01_12 => 4,
        }
    }

    /// Whether this version is `other` or a later one.
    pub fn is_at_least(&self, other: BehaviorVersion) -> (r: bool)
        ensures
            r == (self.rank() >= other.rank()),
    {
        self.number() >= other.number()
    }

    /// The latest version.
    pub fn latest() -> (r: Self)
        ensures
            r == BehaviorVersion::V2026_01_12,
    {
        BehaviorVersion::V2026_01_12
    }
}

/// A length of time, in nanoseconds.
pub type Nanos = u128;

/// All settings. What was not chosen is `None`.
pub struct AlternatorExtensions {
    pub request_compression: Option<RequestCompression>,
    pub response_compression: Option<ResponseCompression>,
    pub optimize_headers: Option<bool>,
    pub user_agent: Option<UserAgent>,
    pub preserve_float32_vectors: Option<bool>,
    pub has_credentials_provider: bool,
    pub require_auth: bool,
    pub allow_no_auth: bool,
    pub active_interval: Option<Nanos>,
    pub idle_interval: Option<Nanos>,
    pub routing_scope: Option<RoutingScope>,
    pub scheme: Option<String>,
    pub port: Option<u16>,
    pub seed_hosts: Option<Vec<String>>,
    pub key_route_affinity: Option<KeyRouteAffinityConfig>,
    pub endpoint_url: Option<String>,
    /// The caller supplies the HTTP client.
    pub has_http_client: bool,
    pub has_region: bool,
    pub behavior_version: Option<BehaviorVersion>,
}

/// The mathematical value of the settings.
pub ghost struct SettingsV {
    pub request_compression: Option<RequestCompression>,
    pub response_compression: Option<Option<Seq<ResponseCompressionAlgorithm>>>,
    pub optimize_headers: Option<bool>,
    pub user_agent: Option<UserAgent>,
    pub preserve_float32_vectors: Option<bool>,
    pub has_credentials_provider: bool,
    pub require_auth: bool,
    pub allow_no_auth: bool,
    pub active_interval: Option<Nanos>,
    pub idle_interval: Option<Nanos>,
    pub routing_scope: Option<Seq<ScopeV>>,
    pub scheme: Option<Seq<char>>,
    pub port: Option<u16>,
    pub seed_hosts: Option<Seq<Seq<char>>>,
    pub key_route_affinity: Option<(KeyRouteAffinityType, Map<Seq<char>, Seq<char>>)>,
    pub endpoint_url: Option<Seq<char>>,
    pub has_http_client: bool,
    pub has_region: bool,
    pub behavior_version: Option<BehaviorVersion>,
}

/// The value of an optional key route affinity.
pub open spec fn affinity_view(c: Option<KeyRouteAffinityConfig>) -> Option<
    (KeyRouteAffinityType, Map<Seq<char>, Seq<char>>),
> {
    match c {
        Some(c) => Some((c.affinity_type, c.pk_info_per_table@)),
        None => None,
    }
}

/// The value of an optional response compression.
pub open spec fn response_view(c: Option<ResponseCompression>) -> Option<
    Option<Seq<ResponseCompressionAlgorithm>>,
> {
    match c {
        Some(c) => Some(c@),
        None => None,
    }
}

/// The value of an optional routing scope.
pub open spec fn scope_view(s: Option<RoutingScope>) -> Option<Seq<ScopeV>> {
    match s {
        Some(s) => Some(s.chain()),
        None => None,
    }
}

/// The value of an optional list of hosts.
pub open spec fn hosts_view(h: Option<Vec<String>>) -> Option<Seq<Seq<char>>> {
    match h {
        Some(h) => Some(text::views(h@)),
        None => None,
    }
}

impl View for AlternatorExtensions {
    type V = SettingsV;

    open spec fn view(&self) -> SettingsV {
        SettingsV {
            request_compression: self.request_compression,
            response_compression: response_view(self.response_compression),
            optimize_headers: self.optimize_headers,
            user_agent: self.user_agent,
            preserve_float32_vectors: self.preserve_float32_vectors,
            has_credentials_provider: self.has_credentials_provider,
            require_auth: self.require_auth,
            allow_no_auth: self.allow_no_auth,
            active_interval: self.active_interval,
            idle_interval: self.idle_interval,
            routing_scope: scope_view(self.routing_scope),
            scheme: opt_chars(self.scheme),
            port: self.port,
            seed_hosts: hosts_view(self.seed_hosts),
            key_route_affinity: affinity_view(self.key_route_affinity),
            endpoint_url: opt_chars(self.endpoint_url),
            has_http_client: self.has_http_client,
            has_region: self.has_region,
            behavior_version: self.behavior_version,
        }
    }
}

impl AlternatorExtensions {
    /// Credentials are not both required and dispensable, and the routing
    /// scope is valid.
    pub open spec fn valid(self) -> bool {
        &&& !(self.require_auth && self.allow_no_auth)
        &&& self.routing_scope is Some ==> self.routing_scope->0.valid()
    }

    /// A copy of these settings.
    pub fn duplicate(&self) -> (r: Self)
        ensures
            r@ == self@,
            r.valid() == self.valid(),
    {
        AlternatorExtensions {
            request_compression: self.request_compression,
            response_compression: match &self.response_compression {
                Some(c) => Some(c.duplicate()),
                None => None,
            },
            optimize_headers: self.optimize_headers,
            user_agent: match &self.user_agent {
                Some(u) => Some(u.duplicate()),
                None => None,
            },
            preserve_float32_vectors: self.preserve_float32_vectors,
            has_credentials_provider: self.has_credentials_provider,
            require_auth: self.require_auth,
            allow_no_auth: self.allow_no_auth,
            active_interval: self.active_interval,
            idle_interval: self.idle_interval,
            routing_scope: match &self.routing_scope {
                Some(s) => Some(s.duplicate()),
                None => None,
            },
            scheme: match &self.scheme {
                Some(s) => Some(s.clone()),
                None => None,
            },
            port: self.port,
            seed_hosts: match &self.seed_hosts {
                Some(h) => Some(duplicate_strings(h)),
                None => None,
            },
            key_route_affinity: match &self.key_route_affinity {
                Some(c) => Some(c.duplicate()),
                None => None,
            },
            endpoint_url: match &self.endpoint_url {
                Some(s) => Some(s.clone()),
                None => None,
            },
            has_http_client: self.has_http_client,
            has_region: self.has_region,
            behavior_version: self.behavior_version,
        }
    }
}

/// A copy of a list of strings.
pub fn duplicate_strings(strings: &Vec<String>) -> (r: Vec<String>)
    ensures
        r@ == strings@,
{
    let mut out: Vec<String> = Vec::new();
    let mut i: usize = 0;
    while i < strings.len()
        invariant
            i <= strings.len(),
            out@ == strings@.take(i as int),
        decreases strings.len() - i,
    {
        out.push(strings[i].clone());
        i = i + 1;
        assert(out@ =~= strings@.take(i as int));
    }
    assert(out@ =~= strings@);
    out
}

/// No setting chosen.
pub open spec fn unset() -> SettingsV {
    SettingsV {
        request_compression: None,
        response_compression: None,
        optimize_headers: None,
        user_agent: None,
        preserve_float32_vectors: None,
        has_credentials_provider: false,
        require_auth: false,
        allow_no_auth: false,
        active_interval: None,
        idle_interval: None,
        routing_scope: None,
        scheme: None,
        port: None,
        seed_hosts: None,
        key_route_affinity: None,
        endpoint_url: None,
        has_http_client: false,
        has_region: false,
        behavior_version: None,
    }
}

impl Default for AlternatorExtensions {
    fn default() -> (r: Self)
        ensures
            r@ == unset(),
            r.valid(),
    {
        AlternatorExtensions {
            request_compression: None,
            response_compression: None,
            optimize_headers: None,
            user_agent: None,
            preserve_float32_vectors: None,
            has_credentials_provider: false,
            require_auth: false,
            allow_no_auth: false,
            active_interval: None,
            idle_interval: None,
            routing_scope: None,
            scheme: None,
            port: None,
            seed_hosts: None,
            key_route_affinity: None,
            endpoint_url: None,
            has_http_client: false,
            has_region: false,
            behavior_version: None,
        }
    }
}

/// The settings of one operation that differ from those of the client.
#[derive(Debug, Clone)]
pub struct AlternatorOperationBuilder {
    pub request_compression: Option<RequestCompression>,
    pub response_compression: Option<ResponseCompression>,
    pub preserve_float32_vectors: Option<bool>,
}

impl AlternatorOperationBuilder {
    /// The settings of the operation that were chosen.
    pub open spec fn view(&self) -> (
        Option<RequestCompression>,
        Option<Option<Seq<ResponseCompressionAlgorithm>>>,
        Option<bool>,
    ) {
        (
            self.request_compression,
            response_view(self.response_compression),
            self.preserve_float32_vectors,
        )
    }

    /// Nothing differs.
    pub fn new() -> (r: Self)
        ensures
            r.request_compression is None,
            r.response_compression is None,
            r.preserve_float32_vectors is None,
    {
        AlternatorOperationBuilder {
            request_compression: None,
            response_compression: None,
            preserve_float32_vectors: None,
        }
    }

    /// Sets the request compression.
    pub fn request_compression(self, request_compression: RequestCompression) -> (r: Self)
        ensures
            r@ == (Some(request_compression), self@.1, self@.2),
    {
        AlternatorOperationBuilder { request_compression: Some(request_compression), ..self }
    }

    /// Sets the response compression.
    pub fn response_compression(self, response_compression: ResponseCompression) -> (r: Self)
        ensures
            r@ == (self@.0, Some(response_compression@), self@.2),
    {
        AlternatorOperationBuilder { response_compression: Some(response_compression), ..self }
    }

    /// Sets whether vectors in responses are preserved.
    pub fn preserve_float32_vectors(self, preserve: bool) -> (r: Self)
        ensures
            r@ == (self@.0, self@.1, Some(preserve)),
    {
        AlternatorOperationBuilder { preserve_float32_vectors: Some(preserve), ..self }
    }
}

/// The configuration of a client.
pub struct AlternatorConfig {
    ext: AlternatorExtensions,
}

/// Builds an [`AlternatorConfig`].
pub struct AlternatorBuilder {
    ext: AlternatorExtensions,
}

/// The string without the characters `c` at its end.
pub open spec fn without_trailing(s: Seq<char>, c: char) -> Seq<char>
    decreases s.len(),
{
    if s.len() > 0 && s.last() == c {
        without_trailing(s.drop_last(), c)
    } else {
        s
    }
}

/// The scheme alone: `http`, `http:` and `http://` all give `http`.
pub open spec fn normal_scheme(s: Seq<char>) -> Seq<char> {
    without_trailing(without_trailing(s, '/'), ':')
}

fn trim_trailing(chars: &Vec<char>, end: usize, c: char) -> (r: usize)
    requires
        end <= chars.len(),
    ensures
        r <= end,
        chars@.take(r as int) == without_trailing(chars@.take(end as int), c),
{
    let mut n: usize = end;
    while n > 0 && chars[n - 1] == c
        invariant
            n <= end <= chars.len(),
            without_trailing(chars@.take(end as int), c) == without_trailing(
                chars@.take(n as int),
                c,
            ),
        decreases n,
    {
        assert(chars@.take(n as int).drop_last() =~= chars@.take(n - 1));
        n = n - 1;
    }
    n
}

/// The scheme alone: `http`, `http:` and `http://` all give `http`.
pub fn normalize_scheme(scheme: &str) -> (r: String)
    ensures
        r@ == normal_scheme(scheme@),
{
    let chars = text::to_chars(scheme);
    let n: usize = chars.len();
    assert(chars@.take(n as int) =~= scheme@);
    let slashes: usize = trim_trailing(&chars, n, '/');
    let end: usize = trim_trailing(&chars, slashes, ':');
    assert(chars@.subrange(0, end as int) =~= chars@.take(end as int));
    text::copy_range(&chars, 0, end)
}

/// The settings after the endpoint was set, given what it is as a URL. Where
/// it is a URL with a host, the seed host, the scheme and the port are those
/// of the URL; else they are unset.
pub open spec fn with_endpoint(
    s: SettingsV,
    endpoint_url: Option<Seq<char>>,
    parsed: Option<UrlV>,
) -> SettingsV {
    match parsed {
        Some(u) if u.host is Some => SettingsV {
            seed_hosts: Some(seq![u.host->0]),
            scheme: Some(normal_scheme(u.scheme)),
            port: u.port,
            endpoint_url,
            ..s
        },
        _ => SettingsV { seed_hosts: None, scheme: None, port: None, endpoint_url, ..s },
    }
}

/// What the endpoint is as a URL.
pub open spec fn endpoint_parsed(endpoint_url: Option<Seq<char>>) -> Option<UrlV> {
    match endpoint_url {
        Some(text) => match url_parsed(text) {
            Ok(u) => Some(u),
            Err(_) => None,
        },
        None => None,
    }
}

impl AlternatorConfig {
    /// The value of this configuration.
    pub closed spec fn view(&self) -> SettingsV {
        self.ext@
    }

    #[verifier::type_invariant]
    spec fn inv(&self) -> bool {
        self.ext.valid()
    }

    /// A builder with nothing chosen.
    pub fn builder() -> (r: AlternatorBuilder)
        ensures
            r@ == unset(),
    {
        AlternatorBuilder::new()
    }

    /// A builder for the settings of one operation.
    pub fn operation_builder() -> (r: AlternatorOperationBuilder)
        ensures
            r.request_compression is None,
            r.response_compression is None,
            r.preserve_float32_vectors is None,
    {
        AlternatorOperationBuilder::new()
    }

    /// A builder with these settings.
    pub fn to_builder(&self) -> (r: AlternatorBuilder)
        ensures
            r@ == self@,
    {
        proof {
            use_type_invariant(self);
        }
        AlternatorBuilder { ext: self.ext.duplicate() }
    }

    /// Whether headers that Alternator has no use for are stripped.
    pub fn optimize_headers(&self) -> (r: Option<bool>)
        ensures
            r == self@.optimize_headers,
    {
        self.ext.optimize_headers
    }

    /// The user agent.
    pub fn user_agent(&self) -> (r: Option<&UserAgent>)
        ensures
            match r {
                Some(u) => self@.user_agent == Some(*u),
                None => self@.user_agent is None,
            },
    {
        match &self.ext.user_agent {
            Some(u) => Some(u),
            None => None,
        }
    }

    /// Whether and how requests are compressed.
    pub fn request_compression(&self) -> (r: Option<RequestCompression>)
        ensures
            r == self@.request_compression,
    {
        self.ext.request_compression
    }

    /// Which response encodings are advertised.
    pub fn response_compression(&self) -> (r: Option<ResponseCompression>)
        ensures
            response_view(r) == self@.response_compression,
    {
        match &self.ext.response_compression {
            Some(c) => Some(c.duplicate()),
            None => None,
        }
    }

    /// Whether vectors in responses are preserved.
    pub fn preserve_float32_vectors(&self) -> (r: Option<bool>)
        ensures
            r == self@.preserve_float32_vectors,
    {
        self.ext.preserve_float32_vectors
    }

    /// Whether credentials were given.
    pub fn has_credentials_provider(&self) -> (r: bool)
        ensures
            r == self@.has_credentials_provider,
    {
        self.ext.has_credentials_provider
    }

    /// Whether every request must be signed. Never where unsigned requests are permitted.
    pub fn requires_auth(&self) -> (r: bool)
        ensures
            r == self@.require_auth,
            !(self@.require_auth && self@.allow_no_auth),
    {
        proof {
            use_type_invariant(self);
        }
        self.ext.require_auth
    }

    /// Whether unsigned requests are permitted explicitly.
    pub fn allows_no_auth(&self) -> (r: bool)
        ensures
            r == self@.allow_no_auth,
    {
        self.ext.allow_no_auth
    }

    /// How often the nodes are refreshed while requests are sent.
    pub fn active_interval(&self) -> (r: Option<Nanos>)
        ensures
            r == self@.active_interval,
    {
        self.ext.active_interval
    }

    /// How often the nodes are refreshed while no requests are sent.
    pub fn idle_interval(&self) -> (r: Option<Nanos>)
        ensures
            r == self@.idle_interval,
    {
        self.ext.idle_interval
    }

    /// The nodes that requests are routed to.
    pub fn routing_scope(&self) -> (r: Option<RoutingScope>)
        ensures
            scope_view(r) == self@.routing_scope,
            r is Some ==> r->0.valid(),
    {
        proof {
            use_type_invariant(self);
        }
        match &self.ext.routing_scope {
            Some(s) => Some(s.duplicate()),
            None => None,
        }
    }

    /// The scheme of the nodes.
    pub fn scheme(&self) -> (r: Option<String>)
        ensures
            opt_chars(r) == self@.scheme,
    {
        match &self.ext.scheme {
            Some(s) => Some(s.clone()),
            None => None,
        }
    }

    /// The port of the nodes.
    pub fn port(&self) -> (r: Option<u16>)
        ensures
            r == self@.port,
    {
        self.ext.port
    }

    /// The hosts that discovery starts from.
    pub fn seed_hosts(&self) -> (r: Option<Vec<String>>)
        ensures
            hosts_view(r) == self@.seed_hosts,
    {
        match &self.ext.seed_hosts {
            Some(h) => Some(duplicate_strings(h)),
            None => None,
        }
    }

    /// Which operations are routed by partition key.
    pub fn key_route_affinity(&self) -> (r: Option<KeyRouteAffinityConfig>)
        ensures
            affinity_view(r) == self@.key_route_affinity,
    {
        match &self.ext.key_route_affinity {
            Some(c) => Some(c.duplicate()),
            None => None,
        }
    }

    /// The endpoint.
    pub fn endpoint_url(&self) -> (r: Option<&str>)
        ensures
            match r {
                Some(s) => self@.endpoint_url == Some(s@),
                None => self@.endpoint_url is None,
            },
    {
        match &self.ext.endpoint_url {
            Some(s) => Some(s.as_str()),
            None => None,
        }
    }

    /// Whether the caller supplies the HTTP client.
    pub fn has_http_client(&self) -> (r: bool)
        ensures
            r == self@.has_http_client,
    {
        self.ext.has_http_client
    }

    /// Whether a region was given.
    pub fn has_region(&self) -> (r: bool)
        ensures
            r == self@.has_region,
    {
        self.ext.has_region
    }

    /// The behaviour of the SDK that the client was written for.
    pub fn behavior_version(&self) -> (r: Option<BehaviorVersion>)
        ensures
            r == self@.behavior_version,
    {
        self.ext.behavior_version
    }
}

impl AlternatorBuilder {
    /// The value of this builder.
    pub closed spec fn view(&self) -> SettingsV {
        self.ext@
    }

    #[verifier::type_invariant]
    spec fn inv(&self) -> bool {
        self.ext.valid()
    }

    /// Nothing chosen.
    pub fn new() -> (r: Self)
        ensures
            r@ == unset(),
    {
        AlternatorBuilder { ext: AlternatorExtensions::default() }
    }

    /// A copy of this builder.
    pub fn duplicate(&self) -> (r: Self)
        ensures
            r@ == self@,
    {
        proof {
            use_type_invariant(self);
        }
        AlternatorBuilder { ext: self.ext.duplicate() }
    }

    /// The configuration with these settings.
    pub fn build(self) -> (r: AlternatorConfig)
        ensures
            r@ == self@,
    {
        proof {
            use_type_invariant(&self);
        }
        AlternatorConfig { ext: self.ext }
    }

    /// Sets whether headers that Alternator has no use for are stripped. They are by default.
    pub fn optimize_headers(self, optimize: bool) -> (r: Self)
        ensures
            r@ == (SettingsV { optimize_headers: Some(optimize), ..self@ }),
    {
        proof {
            use_type_invariant(&self);
        }
        AlternatorBuilder {
            ext: AlternatorExtensions { optimize_headers: Some(optimize), ..self.ext },
        }
    }

    /// Sets whether headers that Alternator has no use for are stripped. They are by default.
    pub fn set_optimize_headers(&mut self, optimize: bool) -> (r: &mut Self)
        ensures
            r@ == (SettingsV { optimize_headers: Some(optimize), ..old(self)@ }),
            *final(self) == *final(r),
    {
        proof {
            use_type_invariant(&*self);
        }
        self.ext.optimize_headers = Some(optimize);
        self
    }

    /// Sets whether and how requests are compressed. They are not by default.
    pub fn request_compression(self, request_compression: RequestCompression) -> (r: Self)
        ensures
            r@ == (SettingsV { request_compression: Some(request_compression), ..self@ }),
    {
        proof {
            use_type_invariant(&self);
        }
        AlternatorBuilder {
            ext: AlternatorExtensions { request_compression: Some(request_compression), ..self.ext },
        }
    }

    /// Sets whether and how requests are compressed. They are not by default.
    pub fn set_request_compression(&mut self, request_compression: RequestCompression) -> (r: &mut Self)
        ensures
            r@ == (SettingsV { request_compression: Some(request_compression), ..old(self)@ }),
            *final(self) == *final(r),
    {
        proof {
            use_type_invariant(&*self);
        }
        self.ext.request_compression = Some(request_compression);
        self
    }

    /// Sets which response encodings are advertised. None are by default.
    pub fn response_compression(self, response_compression: ResponseCompression) -> (r: Self)
        ensures
            r@ == (SettingsV { response_compression: Some(response_compression@), ..self@ }),
    {
        proof {
            use_type_invariant(&self);
        }
        AlternatorBuilder {
            ext: AlternatorExtensions { response_compression: Some(response_compression), ..self.ext },
        }
    }

    /// Sets which response encodings are advertised. None are by default.
    pub fn set_response_compression(&mut self, response_compression: ResponseCompression) -> (r: &mut Self)
        ensures
            r@ == (SettingsV { response_compression: Some(response_compression@), ..old(self)@ }),
            *final(self) == *final(r),
    {
        proof {
            use_type_invariant(&*self);
        }
        self.ext.response_compression = Some(response_compression);
        self
    }

    /// Sets whether vectors in responses are preserved. They are not by default.
    pub fn preserve_float32_vectors(self, preserve: bool) -> (r: Self)
        ensures
            r@ == (SettingsV { preserve_float32_vectors: Some(preserve), ..self@ }),
    {
        proof {
            use_type_invariant(&self);
        }
        AlternatorBuilder {
            ext: AlternatorExtensions { preserve_float32_vectors: Some(preserve), ..self.ext },
        }
    }

    /// Sets whether vectors in responses are preserved. They are not by default.
    pub fn set_preserve_float32_vectors(&mut self, preserve: bool) -> (r: &mut Self)
        ensures
            r@ == (SettingsV { preserve_float32_vectors: Some(preserve), ..old(self)@ }),
            *final(self) == *final(r),
    {
        proof {
            use_type_invariant(&*self);
        }
        self.ext.preserve_float32_vectors = Some(preserve);
        self
    }

    /// Sets how often the nodes are refreshed while requests are sent. The default is a second.
    pub fn active_interval(self, active_interval: Nanos) -> (r: Self)
        ensures
            r@ == (SettingsV { active_interval: Some(active_interval), ..self@ }),
    {
        proof {
            use_type_invariant(&self);
        }
        AlternatorBuilder {
            ext: AlternatorExtensions { active_interval: Some(active_interval), ..self.ext },
        }
    }

    /// Sets how often the nodes are refreshed while requests are sent. The default is a second.
    pub fn set_active_interval(&mut self, active_interval: Nanos) -> (r: &mut Self)
        ensures
            r@ == (SettingsV { active_interval: Some(active_interval), ..old(self)@ }),
            *final(self) == *final(r),
    {
        proof {
            use_type_invariant(&*self);
        }
        self.ext.active_interval = Some(active_interval);
        self
    }

    /// Sets how often the nodes are refreshed while no requests are sent, and after how long without requests that is. The default is a minute.
    pub fn idle_interval(self, idle_interval: Nanos) -> (r: Self)
        ensures
            r@ == (SettingsV { idle_interval: Some(idle_interval), ..self@ }),
    {
        proof {
            use_type_invariant(&self);
        }
        AlternatorBuilder {
            ext: AlternatorExtensions { idle_interval: Some(idle_interval), ..self.ext },
        }
    }

    /// Sets how often the nodes are refreshed while no requests are sent, and after how long without requests that is. The default is a minute.
    pub fn set_idle_interval(&mut self, idle_interval: Nanos) -> (r: &mut Self)
        ensures
            r@ == (SettingsV { idle_interval: Some(idle_interval), ..old(self)@ }),
            *final(self) == *final(r),
    {
        proof {
            use_type_invariant(&*self);
        }
        self.ext.idle_interval = Some(idle_interval);
        self
    }

    /// Sets the port of the nodes.
    pub fn port(self, port: u16) -> (r: Self)
        ensures
            r@ == (SettingsV { port: Some(port), ..self@ }),
    {
        proof {
            use_type_invariant(&self);
        }
        AlternatorBuilder {
            ext: AlternatorExtensions { port: Some(port), ..self.ext },
        }
    }

    /// Sets the port of the nodes.
    pub fn set_port(&mut self, port: u16) -> (r: &mut Self)
        ensures
            r@ == (SettingsV { port: Some(port), ..old(self)@ }),
            *final(self) == *final(r),
    {
        proof {
            use_type_invariant(&*self);
        }
        self.ext.port = Some(port);
        self
    }

    /// Sets the hosts, names or addresses, that discovery starts from.
    pub fn seed_hosts(self, seed_hosts: Vec<String>) -> (r: Self)
        ensures
            r@ == (SettingsV { seed_hosts: Some(text::views(seed_hosts@)), ..self@ }),
    {
        proof {
            use_type_invariant(&self);
        }
        AlternatorBuilder {
            ext: AlternatorExtensions { seed_hosts: Some(seed_hosts), ..self.ext },
        }
    }

    /// Sets the hosts, names or addresses, that discovery starts from.
    pub fn set_seed_hosts(&mut self, seed_hosts: Vec<String>) -> (r: &mut Self)
        ensures
            r@ == (SettingsV { seed_hosts: Some(text::views(seed_hosts@)), ..old(self)@ }),
            *final(self) == *final(r),
    {
        proof {
            use_type_invariant(&*self);
        }
        self.ext.seed_hosts = Some(seed_hosts);
        self
    }

    /// Sets which operations are routed by partition key. None are by default.
    pub fn key_route_affinity(self, key_route_affinity: KeyRouteAffinityConfig) -> (r: Self)
        ensures
            r@ == (SettingsV { key_route_affinity: affinity_view(Some(key_route_affinity)), ..self@ }),
    {
        proof {
            use_type_invariant(&self);
        }
        AlternatorBuilder {
            ext: AlternatorExtensions { key_route_affinity: Some(key_route_affinity), ..self.ext },
        }
    }

    /// Sets which operations are routed by partition key. None are by default.
    pub fn set_key_route_affinity(&mut self, key_route_affinity: KeyRouteAffinityConfig) -> (r: &mut Self)
        ensures
            r@ == (SettingsV { key_route_affinity: affinity_view(Some(key_route_affinity)), ..old(self)@ }),
            *final(self) == *final(r),
    {
        proof {
            use_type_invariant(&*self);
        }
        self.ext.key_route_affinity = Some(key_route_affinity);
        self
    }

    /// Sets the behaviour of the SDK that the client was written for.
    pub fn behavior_version(self, behavior_version: BehaviorVersion) -> (r: Self)
        ensures
            r@ == (SettingsV { behavior_version: Some(behavior_version), ..self@ }),
    {
        proof {
            use_type_invariant(&self);
        }
        AlternatorBuilder {
            ext: AlternatorExtensions { behavior_version: Some(behavior_version), ..self.ext },
        }
    }

    /// Sets the behaviour of the SDK that the client was written for, or takes
    /// the setting back.
    pub fn set_behavior_version(&mut self, behavior_version: Option<BehaviorVersion>) -> (r:
        &mut Self)
        ensures
            r@ == (SettingsV { behavior_version, ..old(self)@ }),
            *final(self) == *final(r),
    {
        proof {
            use_type_invariant(&*self);
        }
        self.ext.behavior_version = behavior_version;
        self
    }

    /// Sets the user agent.
    pub fn user_agent(self, user_agent: UserAgent) -> (r: Self)
        ensures
            r@ == (SettingsV { user_agent: Some(user_agent), ..self@ }),
    {
        proof {
            use_type_invariant(&self);
        }
        AlternatorBuilder {
            ext: AlternatorExtensions { user_agent: Some(user_agent), ..self.ext },
        }
    }

    /// Sets the user agent; `None` restores the default.
    pub fn set_user_agent(&mut self, user_agent: Option<UserAgent>) -> (r: &mut Self)
        ensures
            r@ == (SettingsV { user_agent, ..old(self)@ }),
            *final(self) == *final(r),
    {
        proof {
            use_type_invariant(&*self);
        }
        self.ext.user_agent = user_agent;
        self
    }

    /// Sends no user agent.
    pub fn without_user_agent(self) -> (r: Self)
        ensures
            r@ == (SettingsV { user_agent: Some(UserAgent::Disabled), ..self@ }),
    {
        self.user_agent(UserAgent::disabled())
    }

    /// Sends no user agent.
    pub fn set_without_user_agent(&mut self) -> (r: &mut Self)
        ensures
            r@ == (SettingsV { user_agent: Some(UserAgent::Disabled), ..old(self)@ }),
            *final(self) == *final(r),
    {
        proof {
            use_type_invariant(&*self);
        }
        self.ext.user_agent = Some(UserAgent::disabled());
        self
    }

    /// Sets the nodes that requests are routed to, and what to fall back to.
    /// The default is the whole cluster.
    pub fn routing_scope(self, routing_scope: RoutingScope) -> (r: Self)
        requires
            routing_scope.valid(),
        ensures
            r@ == (SettingsV { routing_scope: Some(routing_scope.chain()), ..self@ }),
    {
        proof {
            use_type_invariant(&self);
        }
        AlternatorBuilder {
            ext: AlternatorExtensions { routing_scope: Some(routing_scope), ..self.ext },
        }
    }

    /// Sets the nodes that requests are routed to, and what to fall back to.
    /// The default is the whole cluster.
    pub fn set_routing_scope(&mut self, routing_scope: RoutingScope) -> (r: &mut Self)
        requires
            routing_scope.valid(),
        ensures
            r@ == (SettingsV { routing_scope: Some(routing_scope.chain()), ..old(self)@ }),
            *final(self) == *final(r),
    {
        proof {
            use_type_invariant(&*self);
        }
        self.ext.routing_scope = Some(routing_scope);
        self
    }

    /// Sets the scheme of the nodes, `http` or `https`. What follows the name,
    /// as in `http://`, is left off.
    pub fn scheme(self, scheme: &str) -> (r: Self)
        ensures
            r@ == (SettingsV { scheme: Some(normal_scheme(scheme@)), ..self@ }),
    {
        proof {
            use_type_invariant(&self);
        }
        AlternatorBuilder {
            ext: AlternatorExtensions { scheme: Some(normalize_scheme(scheme)), ..self.ext },
        }
    }

    /// Sets the scheme of the nodes, `http` or `https`. What follows the name,
    /// as in `http://`, is left off.
    pub fn set_scheme(&mut self, scheme: &str) -> (r: &mut Self)
        ensures
            r@ == (SettingsV { scheme: Some(normal_scheme(scheme@)), ..old(self)@ }),
            *final(self) == *final(r),
    {
        proof {
            use_type_invariant(&*self);
        }
        self.ext.scheme = Some(normalize_scheme(scheme));
        self
    }

    /// Requires every request to be signed: without credentials a request
    /// fails before it is sent. Cannot be combined with
    /// [`allow_no_auth`](Self::allow_no_auth).
    pub fn require_auth(self) -> (r: Self)
        requires
            !self@.allow_no_auth,
        ensures
            r@ == (SettingsV { require_auth: true, ..self@ }),
    {
        proof {
            use_type_invariant(&self);
        }
        AlternatorBuilder { ext: AlternatorExtensions { require_auth: true, ..self.ext } }
    }

    /// Sets whether every request must be signed.
    pub fn set_require_auth(&mut self, require_auth: bool) -> (r: &mut Self)
        requires
            !(require_auth && old(self)@.allow_no_auth),
        ensures
            r@ == (SettingsV { require_auth, ..old(self)@ }),
            *final(self) == *final(r),
    {
        proof {
            use_type_invariant(&*self);
        }
        self.ext.require_auth = require_auth;
        self
    }

    /// Permits unsigned requests. Cannot be combined with
    /// [`require_auth`](Self::require_auth).
    pub fn allow_no_auth(self) -> (r: Self)
        requires
            !self@.require_auth,
        ensures
            r@ == (SettingsV { allow_no_auth: true, ..self@ }),
    {
        proof {
            use_type_invariant(&self);
        }
        AlternatorBuilder { ext: AlternatorExtensions { allow_no_auth: true, ..self.ext } }
    }

    /// Permits unsigned requests.
    pub fn set_allow_no_auth(&mut self) -> (r: &mut Self)
        requires
            !old(self)@.require_auth,
        ensures
            r@ == (SettingsV { allow_no_auth: true, ..old(self)@ }),
            *final(self) == *final(r),
    {
        proof {
            use_type_invariant(&*self);
        }
        self.ext.allow_no_auth = true;
        self
    }

    /// Whether requiring credentials is refused, because unsigned requests are permitted.
    pub fn refuses_require_auth(&self) -> (r: bool)
        ensures
            r == self@.allow_no_auth,
    {
        self.ext.allow_no_auth
    }

    /// Whether permitting unsigned requests is refused, because credentials are required.
    pub fn refuses_allow_no_auth(&self) -> (r: bool)
        ensures
            r == self@.require_auth,
    {
        self.ext.require_auth
    }

    /// Records that credentials were given.
    pub fn with_credentials_provider(self) -> (r: Self)
        ensures
            r@ == (SettingsV { has_credentials_provider: true, ..self@ }),
    {
        proof {
            use_type_invariant(&self);
        }
        AlternatorBuilder {
            ext: AlternatorExtensions { has_credentials_provider: true, ..self.ext },
        }
    }

    /// Records that the caller set a provider of credentials, or none. Once
    /// there was one, there is.
    pub fn set_credentials_provider(&mut self, given: bool) -> (r: &mut Self)
        ensures
            r@ == (SettingsV {
                has_credentials_provider: given || old(self)@.has_credentials_provider,
                ..old(self)@
            }),
            *final(self) == *final(r),
    {
        proof {
            use_type_invariant(&*self);
        }
        if given {
            self.ext.has_credentials_provider = true;
        }
        self
    }

    /// Records whether the caller supplies the HTTP client.
    pub fn set_has_http_client(&mut self, given: bool) -> (r: &mut Self)
        ensures
            r@ == (SettingsV { has_http_client: given, ..old(self)@ }),
            *final(self) == *final(r),
    {
        proof {
            use_type_invariant(&*self);
        }
        self.ext.has_http_client = given;
        self
    }

    /// Records whether a region was given.
    pub fn set_has_region(&mut self, given: bool) -> (r: &mut Self)
        ensures
            r@ == (SettingsV { has_region: given, ..old(self)@ }),
            *final(self) == *final(r),
    {
        proof {
            use_type_invariant(&*self);
        }
        self.ext.has_region = given;
        self
    }

    /// Sets the latest behaviour of the SDK.
    pub fn behavior_version_latest(self) -> (r: Self)
        ensures
            r@ == (SettingsV { behavior_version: Some(BehaviorVersion::V2026_01_12), ..self@ }),
    {
        self.behavior_version(BehaviorVersion::latest())
    }

    /// Sets the endpoint, given what it is as a URL, and the seed host, the
    /// scheme and the port with it. What was set of these before is forgotten.
    pub fn apply_endpoint(
        &mut self,
        endpoint_url: Option<String>,
        parsed: Option<NodeUrl>,
    ) -> (r: &mut Self)
        ensures
            r@ == with_endpoint(old(self)@, opt_chars(endpoint_url), opt_url(parsed)),
            *final(self) == *final(r),
    {
        proof {
            use_type_invariant(&*self);
        }
        self.ext.seed_hosts = None;
        self.ext.scheme = None;
        self.ext.port = None;
        if let Some(url) = parsed {
            if let Some(host) = url.host_str() {
                let hosts = vec![host.to_owned()];
                assert(text::views(hosts@) =~= seq![host@]);
                self.ext.seed_hosts = Some(hosts);
                self.ext.scheme = Some(normalize_scheme(url.scheme()));
                self.ext.port = url.port();
            }
        }
        self.ext.endpoint_url = endpoint_url;
        self
    }

    /// Sets the endpoint, and the seed host, the scheme and the port with it.
    pub fn set_endpoint_url(&mut self, endpoint_url: Option<String>) -> (r: &mut Self)
        ensures
            r@ == with_endpoint(
                old(self)@,
                opt_chars(endpoint_url),
                endpoint_parsed(opt_chars(endpoint_url)),
            ),
            *final(self) == *final(r),
    {
        let parsed = match &endpoint_url {
            Some(text) => match node_url::parse_url(text.as_str()) {
                Ok(u) => Some(u),
                Err(_) => None,
            },
            None => None,
        };
        self.apply_endpoint(endpoint_url, parsed)
    }

    /// Sets the endpoint, and the seed host, the scheme and the port with it.
    pub fn endpoint_url(self, endpoint_url: &str) -> (r: Self)
        ensures
            r@ == with_endpoint(
                self@,
                Some(endpoint_url@),
                endpoint_parsed(Some(endpoint_url@)),
            ),
    {
        let mut builder = self;
        builder.set_endpoint_url(Some(endpoint_url.to_owned()));
        builder
    }
}

/// Setting an endpoint leaves no seed hosts, scheme or port of an earlier one,
/// and touches nothing else.
pub proof fn law_endpoint_leaves_nothing_stale(
    s: SettingsV,
    t: SettingsV,
    endpoint_url: Option<Seq<char>>,
    parsed: Option<UrlV>,
)
    ensures
        with_endpoint(s, endpoint_url, parsed).seed_hosts == with_endpoint(
            t,
            endpoint_url,
            parsed,
        ).seed_hosts,
        with_endpoint(s, endpoint_url, parsed).scheme == with_endpoint(
            t,
            endpoint_url,
            parsed,
        ).scheme,
        with_endpoint(s, endpoint_url, parsed).port == with_endpoint(t, endpoint_url, parsed).port,
        parsed is None ==> with_endpoint(s, endpoint_url, parsed).seed_hosts is None,
        (SettingsV {
            seed_hosts: s.seed_hosts,
            scheme: s.scheme,
            port: s.port,
            endpoint_url: s.endpoint_url,
            ..with_endpoint(s, endpoint_url, parsed)
        }) == s,
{
}

/// An endpoint that is a URL with a host is what requests are routed from: its
/// host is the seed, with its scheme and its port, if it has one. One that is
/// not leaves no seed. The endpoint itself is kept as it was given.
pub proof fn law_endpoint_is_the_seed(s: SettingsV, endpoint: Seq<char>)
    ensures
        ({
            let after = with_endpoint(s, Some(endpoint), endpoint_parsed(Some(endpoint)));
            &&& after.endpoint_url == Some(endpoint)
            &&& match url_parsed(endpoint) {
                Ok(u) => match u.host {
                    Some(host) => {
                        &&& after.seed_hosts == Some(seq![host])
                        &&& after.port == u.port
                        &&& u.scheme.len() > 0 && u.scheme.last() != ':' && u.scheme.last() != '/'
                            ==> after.scheme == Some(u.scheme)
                    },
                    None => after.seed_hosts is None && after.scheme is None && after.port is None,
                },
                Err(_) => after.seed_hosts is None && after.scheme is None && after.port is None,
            }
        }),
{
}

/// A scheme may be written with what follows it in a URL: the colon and the
/// slashes are left out.
pub proof fn law_scheme_is_named_with_or_without_punctuation(s: Seq<char>)
    requires
        s.len() > 0,
        s.last() != ':',
        s.last() != '/',
    ensures
        normal_scheme(s) == s,
        normal_scheme(s.push(':')) == s,
        normal_scheme(s.push(':').push('/').push('/')) == s,
{
    let colon = s.push(':');
    let slash = colon.push('/');
    let slashes = slash.push('/');
    assert(colon.drop_last() =~= s);
    assert(slash.drop_last() =~= colon);
    assert(slashes.drop_last() =~= slash);
    assert(without_trailing(colon, '/') == colon);
    assert(without_trailing(slash, '/') == colon);
    assert(without_trailing(slashes, '/') == colon);
    assert(without_trailing(s, ':') == s);
    assert(without_trailing(colon, ':') == s);
}

/// A new builder has nothing chosen.
pub proof fn law_nothing_is_chosen_at_first()
    ensures
        ({
            let s = unset();
            &&& s.request_compression is None && s.response_compression is None
            &&& s.optimize_headers is None && s.user_agent is None
            &&& s.preserve_float32_vectors is None
            &&& !s.has_credentials_provider && !s.require_auth && !s.allow_no_auth
            &&& s.active_interval is None && s.idle_interval is None
            &&& s.routing_scope is None && s.key_route_affinity is None
            &&& s.scheme is None && s.port is None && s.seed_hosts is None
            &&& s.endpoint_url is None && !s.has_http_client && !s.has_region
            &&& s.behavior_version is None
        }),
{
}

} // verus!
