//! How a client is put together from its configuration.
//!
//! The decisions are made here; whoever builds the client carries them out.

use crate::compression::{RequestCompression, ResponseCompression, ResponseCompressionAlgorithm};
use crate::config::{affinity_view, AlternatorConfig, BehaviorVersion, Nanos, SettingsV};
use crate::interceptors::{overridden, AlternatorInterceptor};
use crate::keyrouting::affinity_config::{KeyRouteAffinityConfig, KeyRouteAffinityType};
use crate::live_nodes;
use crate::live_nodes::{
    fault_message, nodes_built, roots_message, seed_count, BuildFault, LiveNodes, LiveNodesBuildError,
    LiveNodesV, NativeRoots,
};
use crate::node_url;
use crate::node_url::url_parsed;
use crate::text;
use crate::user_agent::UserAgent;
use vstd::prelude::*;

verus! {

/// Why a client cannot be built.
#[derive(Debug)]
pub enum AlternatorClientBuildError {
    TlsConfiguration(String),
    LiveNodes(LiveNodesBuildError),
}

/// The mathematical value of an [`AlternatorClientBuildError`].
pub ghost enum ClientFault {
    TlsConfiguration(Seq<char>),
    LiveNodes(BuildFault),
}

impl View for AlternatorClientBuildError {
    type V = ClientFault;

    open spec fn view(&self) -> ClientFault {
        match self {
            AlternatorClientBuildError::TlsConfiguration(s) => ClientFault::TlsConfiguration(s@),
            AlternatorClientBuildError::LiveNodes(e) => ClientFault::LiveNodes(e@),
        }
    }
}

impl AlternatorClientBuildError {
    /// The error's message.
    pub fn message(&self) -> (r: String)
        ensures
            r@ == match self@ {
                ClientFault::TlsConfiguration(message) => "failed to configure SDK TLS: "@
                    + message,
                ClientFault::LiveNodes(fault) => "failed to configure Alternator routing: "@
                    + fault_message(fault),
            },
    {
        match self {
            AlternatorClientBuildError::TlsConfiguration(message) => {
                let mut out = "failed to configure SDK TLS: ".to_owned();
                out.append(message.as_str());
                out
            },
            AlternatorClientBuildError::LiveNodes(source) => {
                let mut out = "failed to configure Alternator routing: ".to_owned();
                out.append(source.message().as_str());
                out
            },
        }
    }
}

/// The live nodes of a client.
#[derive(Debug)]
pub enum ClientNodes {
    /// Those that were given.
    Shared,
    /// Its own.
    Created(LiveNodes),
    /// None: the endpoint is used without discovery.
    Absent,
}

/// How requests are transported.
#[derive(Debug, Clone, Copy, PartialEq, Eq, Structural)]
pub enum Transport {
    /// As the SDK or the caller's HTTP client does it.
    Unchanged,
    /// Through a connector that is supplied.
    Supplied { use_tls: bool, proxy_from_env: bool },
}

/// How the attempts of a request are given to nodes.
#[derive(Debug)]
pub enum Routing {
    /// They are not: all go to the endpoint.
    Unrouted,
    /// Round the live nodes.
    RoundRobin,
    /// By partition key, and else round the live nodes.
    Affinity(KeyRouteAffinityConfig),
}

/// How a client is put together.
pub struct ClientPlan {
    /// Unsigned requests are permitted, though it was not said.
    pub allow_no_auth: bool,
    pub interceptor: AlternatorInterceptor,
    pub nodes: ClientNodes,
    pub transport: Transport,
    /// The default region is set.
    pub set_default_region: bool,
    pub routing: Routing,
}

/// The mathematical value of a [`ClientPlan`].
pub ghost struct ClientPlanV {
    pub allow_no_auth: bool,
    pub request_compression: Option<RequestCompression>,
    pub response_compression: Option<Seq<ResponseCompressionAlgorithm>>,
    pub optimize_headers: bool,
    pub user_agent: UserAgent,
    pub preserve_auth_headers: bool,
    pub preserve_float32_vectors: bool,
    pub shares_nodes: bool,
    pub created_nodes: Option<LiveNodesV>,
    pub transport: Transport,
    pub set_default_region: bool,
    pub round_robin: bool,
    pub affinity: Option<(KeyRouteAffinityType, Map<Seq<char>, Seq<char>>)>,
}

/// The region of clients that none was given for.
pub const DEFAULT_REGION: &'static str = "us-east-1";

/// What the transport depends on: the scheme of the nodes, and whether there
/// are certificates to trust.
pub ghost struct NodeFacts {
    pub scheme: Seq<char>,
    pub roots_usable: bool,
}

/// What the transport to the nodes depends on.
pub open spec fn facts_of(nodes: LiveNodesV) -> NodeFacts {
    NodeFacts { scheme: nodes.seeds[0].scheme, roots_usable: nodes.native_roots_usable }
}

/// The scheme of the endpoint, where it is a URL.
pub open spec fn endpoint_scheme(s: SettingsV) -> Option<Seq<char>> {
    match s.endpoint_url {
        Some(text) => match url_parsed(text) {
            Ok(u) => Some(u.scheme),
            Err(_) => None,
        },
        None => None,
    }
}

/// Requests go out in plain text.
pub open spec fn is_plaintext(s: SettingsV, facts: Option<NodeFacts>) -> bool {
    match facts {
        Some(f) => f.scheme == "http"@,
        None => endpoint_scheme(s) == Some("http"@),
    }
}

/// Requests go straight to an endpoint over TLS.
pub open spec fn is_direct_https(s: SettingsV, facts: Option<NodeFacts>) -> bool {
    facts is None && endpoint_scheme(s) == Some("https"@)
}

/// The behaviour of the SDK that is in force.
pub open spec fn version_of(s: SettingsV) -> BehaviorVersion {
    overridden(s.behavior_version, BehaviorVersion::V2026_01_12)
}

/// How requests are transported. The SDK's own connector is replaced for
/// behaviours from before it was modern, and where it would look for
/// certificates that are neither there nor needed.
pub open spec fn transport_of(s: SettingsV, facts: Option<NodeFacts>, roots_usable: bool) -> Transport {
    let usable = match facts {
        Some(f) => f.roots_usable,
        None => roots_usable,
    };
    let rootless = is_plaintext(s, facts) && !usable;
    let old = version_of(s).rank() < BehaviorVersion::V2026_01_12.rank();
    if s.has_http_client || !(old || rootless) {
        Transport::Unchanged
    } else {
        Transport::Supplied {
            use_tls: !rootless,
            proxy_from_env: version_of(s).rank() >= BehaviorVersion::V2025_08_07.rank(),
        }
    }
}

/// The key route affinity, where it is one that routes anything.
pub open spec fn enabled_affinity(s: SettingsV) -> Option<
    (KeyRouteAffinityType, Map<Seq<char>, Seq<char>>),
> {
    match s.key_route_affinity {
        Some((mode, names)) => if mode != KeyRouteAffinityType::Disabled {
            Some((mode, names))
        } else {
            None
        },
        None => None,
    }
}

/// How the client is put together once it is known which nodes it has.
pub open spec fn assembled(
    s: SettingsV,
    shared: Option<LiveNodesV>,
    created: Option<LiveNodesV>,
    roots: NativeRoots,
) -> Result<ClientPlanV, ClientFault> {
    let facts = match shared {
        Some(n) => Some(facts_of(n)),
        None => match created {
            Some(n) => Some(facts_of(n)),
            None => None,
        },
    };
    if is_direct_https(s, facts) && !s.has_http_client && !roots.usable {
        Err(ClientFault::TlsConfiguration(roots_message(text::views(roots.errors@))))
    } else {
        Ok(
            ClientPlanV {
                allow_no_auth: !s.has_credentials_provider && !s.require_auth && !s.allow_no_auth,
                request_compression: s.request_compression,
                response_compression: overridden(s.response_compression, None),
                optimize_headers: overridden(s.optimize_headers, true),
                user_agent: overridden(s.user_agent, UserAgent::Default),
                preserve_auth_headers: s.has_credentials_provider,
                preserve_float32_vectors: overridden(s.preserve_float32_vectors, false),
                shares_nodes: shared is Some,
                created_nodes: created,
                transport: transport_of(s, facts, roots.usable),
                set_default_region: !s.has_region,
                round_robin: facts is Some && enabled_affinity(s) is None,
                affinity: if facts is Some {
                    enabled_affinity(s)
                } else {
                    None
                },
            },
        )
    }
}

/// How the client is put together. Nodes that are given are used, and the
/// settings for discovery are then not looked at.
pub open spec fn client_planned(
    s: SettingsV,
    shared: Option<LiveNodesV>,
    ipv6: Seq<bool>,
    roots: NativeRoots,
    now: Nanos,
) -> Result<ClientPlanV, ClientFault> {
    match shared {
        Some(nodes) => assembled(s, shared, None, roots),
        None => match nodes_built(s, ipv6, roots, now) {
            Err(fault) => Err(ClientFault::LiveNodes(fault)),
            Ok(created) => assembled(s, None, created, roots),
        },
    }
}

/// The request compression that the settings ask for: none unless it is set.
pub open spec fn asks_compression(chosen: RequestCompression, setting: Option<RequestCompression>) -> bool {
    match setting {
        Some(c) => chosen == c,
        None => chosen@ is None,
    }
}

impl ClientPlan {
    /// The plan is the one described.
    pub open spec fn is_plan(&self, v: ClientPlanV) -> bool {
        &&& self.allow_no_auth == v.allow_no_auth
        &&& asks_compression(self.interceptor.request_compression, v.request_compression)
        &&& self.interceptor.response_compression@ == v.response_compression
        &&& self.interceptor.optimize_headers == v.optimize_headers
        &&& self.interceptor.user_agent == v.user_agent
        &&& self.interceptor.preserve_auth_headers == v.preserve_auth_headers
        &&& self.interceptor.preserve_float32_vectors == v.preserve_float32_vectors
        &&& (self.nodes is Shared <==> v.shares_nodes)
        &&& match self.nodes {
            ClientNodes::Created(n) => v.created_nodes == Some(n@),
            _ => v.created_nodes is None,
        }
        &&& self.transport == v.transport
        &&& self.set_default_region == v.set_default_region
        &&& (self.routing is RoundRobin <==> v.round_robin)
        &&& match self.routing {
            Routing::Affinity(c) => v.affinity == affinity_view(Some(c)),
            _ => v.affinity is None,
        }
    }
}

fn scheme_of_endpoint(config: &AlternatorConfig) -> (r: Option<String>)
    ensures
        node_url::opt_chars(r) == endpoint_scheme(config@),
{
    match config.endpoint_url() {
        Some(text) => match node_url::parse_url(text) {
            Ok(u) => Some(u.scheme),
            Err(_) => None,
        },
        None => None,
    }
}

fn choose_transport(
    config: &AlternatorConfig,
    plaintext: bool,
    roots_usable: bool,
) -> (r: Transport)
    ensures
        ({
            let s = config@;
            let rootless = plaintext && !roots_usable;
            let old = version_of(s).rank() < BehaviorVersion::V2026_01_12.rank();
            r == (if s.has_http_client || !(old || rootless) {
                Transport::Unchanged
            } else {
                Transport::Supplied {
                    use_tls: !rootless,
                    proxy_from_env: version_of(s).rank() >= BehaviorVersion::V2025_08_07.rank(),
                }
            })
        }),
{
    if config.has_http_client() {
        return Transport::Unchanged;
    }
    let version = match config.behavior_version() {
        Some(v) => v,
        None => BehaviorVersion::latest(),
    };
    let old = !version.is_at_least(BehaviorVersion::V2026_01_12);
    let rootless = plaintext && !roots_usable;
    if old || rootless {
        Transport::Supplied {
            use_tls: !rootless,
            proxy_from_env: version.is_at_least(BehaviorVersion::V2025_08_07),
        }
    } else {
        Transport::Unchanged
    }
}

fn choose_routing(config: &AlternatorConfig, has_nodes: bool) -> (r: Routing)
    ensures
        r is RoundRobin <==> has_nodes && enabled_affinity(config@) is None,
        match r {
            Routing::Affinity(c) => has_nodes && enabled_affinity(config@) == affinity_view(
                Some(c),
            ),
            _ => !has_nodes || enabled_affinity(config@) is None,
        },
{
    if !has_nodes {
        return Routing::Unrouted;
    }
    match config.key_route_affinity() {
        Some(c) => if c.is_enabled() {
            Routing::Affinity(c)
        } else {
            Routing::RoundRobin
        },
        None => Routing::RoundRobin,
    }
}

fn build_interceptor(config: &AlternatorConfig) -> (r: AlternatorInterceptor)
    ensures
        asks_compression(r.request_compression, config@.request_compression),
        r.response_compression@ == overridden(config@.response_compression, None),
        r.optimize_headers == overridden(config@.optimize_headers, true),
        r.user_agent == overridden(config@.user_agent, UserAgent::Default),
        r.preserve_auth_headers == config@.has_credentials_provider,
        r.preserve_float32_vectors == overridden(config@.preserve_float32_vectors, false),
{
    AlternatorInterceptor {
        request_compression: match config.request_compression() {
            Some(c) => c,
            None => RequestCompression::disabled(),
        },
        response_compression: match config.response_compression() {
            Some(c) => c,
            None => ResponseCompression::default(),
        },
        optimize_headers: match config.optimize_headers() {
            Some(optimize) => optimize,
            None => true,
        },
        user_agent: match config.user_agent() {
            Some(u) => u.duplicate(),
            None => UserAgent::default(),
        },
        preserve_auth_headers: config.has_credentials_provider(),
        preserve_float32_vectors: match config.preserve_float32_vectors() {
            Some(preserve) => preserve,
            None => false,
        },
    }
}

/// Decides how a client is put together, given the nodes that it shares or
/// those that were created for it.
pub fn assemble(
    config: &AlternatorConfig,
    shared: Option<&LiveNodes>,
    created: Option<LiveNodes>,
    roots: &NativeRoots,
) -> (r: Result<ClientPlan, AlternatorClientBuildError>)
    requires
        !(shared is Some && created is Some),
    ensures
        ({
            let wanted = assembled(
                config@,
                match shared {
                    Some(n) => Some(n@),
                    None => None,
                },
                match created {
                    Some(n) => Some(n@),
                    None => None,
                },
                *roots,
            );
            match r {
                Ok(plan) => wanted is Ok && plan.is_plan(wanted->Ok_0),
                Err(e) => wanted is Err && wanted->Err_0 == e@,
            }
        }),
{
    let endpoint = scheme_of_endpoint(config);
    let has_nodes = shared.is_some() || created.is_some();
    let plaintext = match shared {
        Some(n) => text::same(n.scheme(), "http"),
        None => match &created {
            Some(n) => text::same(n.scheme(), "http"),
            None => match &endpoint {
                Some(scheme) => text::same(scheme.as_str(), "http"),
                None => false,
            },
        },
    };
    let direct_https = !has_nodes && match &endpoint {
        Some(scheme) => text::same(scheme.as_str(), "https"),
        None => false,
    };
    if direct_https && !config.has_http_client() {
        match live_nodes::ensure_native_roots_are_usable(roots) {
            Ok(_) => {},
            Err(message) => {
                return Err(AlternatorClientBuildError::TlsConfiguration(message));
            },
        }
    }
    let usable = match shared {
        Some(n) => n.has_usable_native_roots(),
        None => match &created {
            Some(n) => n.has_usable_native_roots(),
            None => live_nodes::native_roots_are_usable(roots),
        },
    };
    let transport = choose_transport(config, plaintext, usable);
    let routing = choose_routing(config, has_nodes);
    let allow_no_auth = !config.has_credentials_provider() && !config.requires_auth()
        && !config.allows_no_auth();
    let nodes = match shared {
        Some(_) => ClientNodes::Shared,
        None => match created {
            Some(n) => ClientNodes::Created(n),
            None => ClientNodes::Absent,
        },
    };
    Ok(
        ClientPlan {
            allow_no_auth,
            interceptor: build_interceptor(config),
            nodes,
            transport,
            set_default_region: !config.has_region(),
            routing,
        },
    )
}

/// Decides how a client is put together. `shared` are live nodes that were
/// given; where there are none, they are created from the configuration.
/// `ipv6` tells of each seed host whether it is an IPv6 address.
pub fn try_from_conf(
    config: &AlternatorConfig,
    shared: Option<&LiveNodes>,
    ipv6: &Vec<bool>,
    roots: &NativeRoots,
    now: Nanos,
) -> (r: Result<ClientPlan, AlternatorClientBuildError>)
    requires
        ipv6.len() == seed_count(config@),
    ensures
        ({
            let wanted = client_planned(
                config@,
                match shared {
                    Some(n) => Some(n@),
                    None => None,
                },
                ipv6@,
                *roots,
                now,
            );
            match r {
                Ok(plan) => wanted is Ok && plan.is_plan(wanted->Ok_0),
                Err(e) => wanted is Err && wanted->Err_0 == e@,
            }
        }),
{
    match shared {
        Some(_) => assemble(config, shared, None, roots),
        None => match LiveNodes::try_new(config, ipv6, roots, now) {
            Ok(created) => assemble(config, None, created, roots),
            Err(e) => Err(AlternatorClientBuildError::LiveNodes(e)),
        },
    }
}

/// A client never both requires credentials and permits unsigned requests by
/// itself, and permits them by itself only where there are no credentials.
pub proof fn law_required_auth_is_kept(
    s: SettingsV,
    shared: Option<LiveNodesV>,
    ipv6: Seq<bool>,
    roots: NativeRoots,
    now: Nanos,
)
    requires
        s.require_auth || s.has_credentials_provider,
    ensures
        client_planned(s, shared, ipv6, roots, now) matches Ok(plan) ==> !plan.allow_no_auth,
{
}

/// A client without a target to route to is refused rather than sent to some
/// other endpoint.
pub proof fn law_missing_target_fails_closed(
    s: SettingsV,
    ipv6: Seq<bool>,
    roots: NativeRoots,
    now: Nanos,
)
    requires
        s.seed_hosts is None || (s.seed_hosts->0.len() == 0 && s.endpoint_url is None),
    ensures
        client_planned(s, None, ipv6, roots, now) == Err::<ClientPlanV, ClientFault>(
            ClientFault::LiveNodes(BuildFault::MissingRoutingTarget),
        ),
{
}

/// With nodes that are given, the settings for discovery make no difference.
pub proof fn law_shared_nodes_replace_discovery_settings(
    s: SettingsV,
    shared: LiveNodesV,
    other: SettingsV,
    ipv6: Seq<bool>,
    roots: NativeRoots,
    now: Nanos,
)
    requires
        other == (SettingsV {
            seed_hosts: other.seed_hosts,
            scheme: other.scheme,
            port: other.port,
            routing_scope: other.routing_scope,
            active_interval: other.active_interval,
            idle_interval: other.idle_interval,
            ..s
        }),
    ensures
        client_planned(s, Some(shared), ipv6, roots, now) == client_planned(
            other,
            Some(shared),
            ipv6,
            roots,
            now,
        ),
{
}

/// Every setting reaches the client; what is not set has its default: no
/// compression, stripped headers, the driver's user agent and no preserved
/// vectors. The headers of a signature are kept where there are credentials.
pub proof fn law_settings_reach_the_client(
    s: SettingsV,
    shared: Option<LiveNodesV>,
    ipv6: Seq<bool>,
    roots: NativeRoots,
    now: Nanos,
)
    ensures
        client_planned(s, shared, ipv6, roots, now) matches Ok(plan) ==> {
            &&& plan.request_compression == s.request_compression
            &&& s.response_compression matches Some(c) ==> plan.response_compression == c
            &&& s.response_compression is None ==> plan.response_compression is None
            &&& s.optimize_headers matches Some(b) ==> plan.optimize_headers == b
            &&& s.optimize_headers is None ==> plan.optimize_headers
            &&& s.user_agent matches Some(agent) ==> plan.user_agent == agent
            &&& s.user_agent is None ==> plan.user_agent == UserAgent::Default
            &&& s.preserve_float32_vectors matches Some(b) ==> plan.preserve_float32_vectors == b
            &&& s.preserve_float32_vectors is None ==> !plan.preserve_float32_vectors
            &&& plan.preserve_auth_headers == s.has_credentials_provider
            &&& plan.set_default_region == !s.has_region
            &&& plan.allow_no_auth <==> !s.has_credentials_provider && !s.require_auth
                && !s.allow_no_auth
        },
{
}

/// A client uses the nodes that it is given, or those that are set up from its
/// settings; it has none of its own exactly where none are set up.
pub proof fn law_client_has_its_nodes(
    s: SettingsV,
    shared: Option<LiveNodesV>,
    ipv6: Seq<bool>,
    roots: NativeRoots,
    now: Nanos,
)
    ensures
        client_planned(s, shared, ipv6, roots, now) matches Ok(plan) ==> {
            &&& plan.shares_nodes == shared is Some
            &&& shared is Some ==> plan.created_nodes is None
            &&& shared is None ==> nodes_built(s, ipv6, roots, now) == Ok::<
                Option<LiveNodesV>,
                BuildFault,
            >(plan.created_nodes)
        },
        shared is None ==> (nodes_built(s, ipv6, roots, now) matches Err(fault) ==> client_planned(
            s,
            shared,
            ipv6,
            roots,
            now,
        ) == Err::<ClientPlanV, ClientFault>(ClientFault::LiveNodes(fault))),
{
}

/// A client with nodes routes its requests: by partition key where an affinity
/// is set that routes anything, and else round the nodes. Without nodes it
/// routes nothing.
pub proof fn law_client_with_nodes_routes(
    s: SettingsV,
    shared: Option<LiveNodesV>,
    ipv6: Seq<bool>,
    roots: NativeRoots,
    now: Nanos,
)
    ensures
        client_planned(s, shared, ipv6, roots, now) matches Ok(plan) ==> {
            let has_nodes = plan.shares_nodes || plan.created_nodes is Some;
            let by_key = (s.key_route_affinity matches Some((mode, _)) && (mode is Rmw
                || mode is AnyWrite));
            &&& plan.affinity is Some <==> has_nodes && by_key
            &&& plan.affinity is Some ==> plan.affinity == s.key_route_affinity
            &&& plan.round_robin <==> has_nodes && !by_key
        },
{
}

/// The versions of the SDK's behaviour are in the order of their dates.
pub proof fn law_versions_are_in_order()
    ensures
        BehaviorVersion::V2023_11_09.rank() < BehaviorVersion::V2024_03_28.rank(),
        BehaviorVersion::V2024_03_28.rank() < BehaviorVersion::V2025_01_17.rank(),
        BehaviorVersion::V2025_01_17.rank() < BehaviorVersion::V2025_08_07.rank(),
        BehaviorVersion::V2025_08_07.rank() < BehaviorVersion::V2026_01_12.rank(),
{
}

/// How a client transports its requests. The caller's own HTTP client is left
/// alone. Otherwise a connector is supplied for behaviours from before the
/// latest, and for plain text without usable certificates; only in the latter
/// case it is one without TLS. It takes its proxy from the environment from
/// August 2025 on.
pub proof fn law_transport_is_chosen(
    s: SettingsV,
    shared: Option<LiveNodesV>,
    ipv6: Seq<bool>,
    roots: NativeRoots,
    now: Nanos,
)
    ensures
        client_planned(s, shared, ipv6, roots, now) matches Ok(plan) ==> {
            let nodes = match shared {
                Some(n) => Some(n),
                None => plan.created_nodes,
            };
            let scheme = match nodes {
                Some(n) => Some(n.seeds[0].scheme),
                None => match s.endpoint_url {
                    Some(text) => match url_parsed(text) {
                        Ok(u) => Some(u.scheme),
                        Err(_) => None,
                    },
                    None => None,
                },
            };
            let usable = match nodes {
                Some(n) => n.native_roots_usable,
                None => roots.usable,
            };
            let latest = s.behavior_version is None || s.behavior_version == Some(
                BehaviorVersion::V2026_01_12,
            );
            let rootless = scheme == Some("http"@) && !usable;
            &&& s.has_http_client ==> plan.transport == Transport::Unchanged
            &&& !s.has_http_client && latest && !rootless ==> plan.transport
                == Transport::Unchanged
            &&& !s.has_http_client && (!latest || rootless) ==> {
                &&& plan.transport matches Transport::Supplied { use_tls, proxy_from_env } && {
                    &&& use_tls == !rootless
                    &&& proxy_from_env <==> latest || s.behavior_version == Some(
                        BehaviorVersion::V2025_08_07,
                    )
                }
            }
        },
{
    law_versions_are_in_order();
}

/// A client that goes straight to an endpoint over TLS is refused where there
/// are no certificates to trust and no HTTP client is given, and with the
/// reasons that there are none; all others are built once their nodes are.
pub proof fn law_tls_needs_certificates(
    s: SettingsV,
    shared: Option<LiveNodesV>,
    ipv6: Seq<bool>,
    roots: NativeRoots,
    now: Nanos,
)
    requires
        shared is None ==> nodes_built(s, ipv6, roots, now) is Ok,
    ensures
        ({
            let direct = shared is None && nodes_built(s, ipv6, roots, now)->Ok_0 is None;
            let tls = s.endpoint_url matches Some(text) && url_parsed(text) matches Ok(u)
                && u.scheme == "https"@;
            let refused = direct && tls && !s.has_http_client && !roots.usable;
            &&& refused ==> client_planned(s, shared, ipv6, roots, now) == Err::<
                ClientPlanV,
                ClientFault,
            >(ClientFault::TlsConfiguration(roots_message(text::views(roots.errors@))))
            &&& !refused ==> client_planned(s, shared, ipv6, roots, now) is Ok
        }),
{
}

/// A plan has every part of what was planned.
pub proof fn law_plan_has_every_part(plan: ClientPlan, v: ClientPlanV)
    requires
        plan.is_plan(v),
    ensures
        plan.allow_no_auth == v.allow_no_auth,
        plan.transport == v.transport,
        plan.set_default_region == v.set_default_region,
        plan.interceptor.optimize_headers == v.optimize_headers,
        plan.interceptor.user_agent == v.user_agent,
        plan.interceptor.preserve_auth_headers == v.preserve_auth_headers,
        plan.interceptor.preserve_float32_vectors == v.preserve_float32_vectors,
        plan.interceptor.response_compression@ == v.response_compression,
        v.request_compression matches Some(c) ==> plan.interceptor.request_compression == c,
        v.request_compression is None ==> plan.interceptor.request_compression@ is None,
        plan.nodes is Shared <==> v.shares_nodes,
        plan.nodes matches ClientNodes::Created(n) ==> v.created_nodes == Some(n@),
        v.created_nodes is Some ==> plan.nodes is Created,
        plan.routing is RoundRobin <==> v.round_robin,
        plan.routing matches Routing::Affinity(c) ==> v.affinity == Some(
            (c.affinity_type, c.pk_info_per_table@),
        ),
        v.affinity is Some ==> plan.routing is Affinity,
{
}

} // verus!
