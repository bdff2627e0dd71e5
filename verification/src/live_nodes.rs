//! The live Alternator nodes, as the `/localnodes` endpoint reports them.
//!
//! A refresh starts from the first scope of the routing chain, takes the
//! current nodes in a random order, and walks them as a queue of candidates:
//!
//! - A node that answers with a list that is not empty gives the new live
//!   nodes, and the refresh ends.
//! - A node that answers with an empty list goes to the end of the queue, and
//!   the next node is asked for the next scope of the chain.
//! - A node that cannot be asked is dropped, and the next one is asked for the
//!   same scope.
//! - When the queue runs out, it is filled with the seed nodes once. When these
//!   run out too, the refresh ends and changes nothing.
//!
//! For the whole cluster, all seed nodes and all known nodes are asked, and
//! their answers are united.
//!
//! While requests are sent, the nodes are refreshed often; while none are,
//! seldom, and the next request ends the wait.

use crate::config::{AlternatorConfig, Nanos, SettingsV};
use crate::discovery::{ClusterDiscovery, Refresh};
use crate::node_url;
use crate::node_url::{
    node_url, opt_url, seed_url, url_parsed, url_views, NodeUrl, UrlV,
};
use crate::routing_scope::{RoutingScope, ScopeV};
use crate::sorting;
use crate::sorting::{sorted, Sortable};
use crate::text;
use rand::seq::SliceRandom;
use vstd::prelude::*;

verus! {

/// How often the nodes are refreshed while requests are sent: every second.
pub const DEFAULT_ACTIVE_REFRESH_INTERVAL: Nanos = 1_000_000_000;

/// How often the nodes are refreshed while no requests are sent: every minute.
pub const DEFAULT_IDLE_REFRESH_INTERVAL: Nanos = 60_000_000_000;

/// The certificates of the machine: whether any can be used, and what was
/// wrong with the others.
#[derive(Debug)]
pub struct NativeRoots {
    pub usable: bool,
    pub errors: Vec<String>,
}

/// Why there are no usable certificates.
pub open spec fn roots_message(errors: Seq<Seq<char>>) -> Seq<char> {
    if errors.len() == 0 {
        "no usable native CA certificates were found"@
    } else {
        text::joined(errors, "; "@)
    }
}

/// Why there are no usable certificates.
pub fn unusable_native_roots_message(errors: &Vec<String>) -> (r: String)
    ensures
        r@ == roots_message(text::views(errors@)),
{
    if errors.len() == 0 {
        "no usable native CA certificates were found".to_owned()
    } else {
        text::join(errors, "; ")
    }
}

/// Whether any certificate can be used.
pub fn native_roots_are_usable(roots: &NativeRoots) -> (r: bool)
    ensures
        r == roots.usable,
{
    roots.usable
}

/// The certificates can be used, or why they cannot.
pub fn ensure_native_roots_are_usable(roots: &NativeRoots) -> (r: Result<(), String>)
    ensures
        r is Ok <==> roots.usable,
        r matches Err(e) ==> e@ == roots_message(text::views(roots.errors@)),
{
    if roots.usable {
        Ok(())
    } else {
        Err(unusable_native_roots_message(&roots.errors))
    }
}

/// Why discovery cannot be set up.
#[derive(Debug)]
pub enum LiveNodesBuildError {
    MissingRoutingTarget,
    InvalidSeedHost { seed_host: String, reason: String },
    InvalidScheme(String),
    TlsConfiguration(String),
    HttpClient(String),
}

/// The mathematical value of a [`LiveNodesBuildError`].
pub ghost enum BuildFault {
    MissingRoutingTarget,
    InvalidSeedHost { seed_host: Seq<char>, reason: Seq<char> },
    InvalidScheme(Seq<char>),
    TlsConfiguration(Seq<char>),
    HttpClient(Seq<char>),
}

impl View for LiveNodesBuildError {
    type V = BuildFault;

    open spec fn view(&self) -> BuildFault {
        match self {
            LiveNodesBuildError::MissingRoutingTarget => BuildFault::MissingRoutingTarget,
            LiveNodesBuildError::InvalidSeedHost { seed_host, reason } => {
                BuildFault::InvalidSeedHost { seed_host: seed_host@, reason: reason@ }
            },
            LiveNodesBuildError::InvalidScheme(s) => BuildFault::InvalidScheme(s@),
            LiveNodesBuildError::TlsConfiguration(s) => BuildFault::TlsConfiguration(s@),
            LiveNodesBuildError::HttpClient(s) => BuildFault::HttpClient(s@),
        }
    }
}

/// The message of a fault.
pub open spec fn fault_message(fault: BuildFault) -> Seq<char> {
    match fault {
        BuildFault::MissingRoutingTarget =>
            "no Alternator routing target configured; set endpoint_url or non-empty seed_hosts"@,
        BuildFault::InvalidSeedHost { seed_host, reason } => "invalid seed host "@
            + text::quoted_of(seed_host) + ": "@ + reason,
        BuildFault::InvalidScheme(scheme) => "invalid Alternator transport scheme "@
            + text::quoted_of(scheme) + ": expected http or https"@,
        BuildFault::TlsConfiguration(message) => "failed to configure discovery TLS: "@ + message,
        BuildFault::HttpClient(source) =>
            "failed to build the HTTP client for live-node discovery: "@ + source,
    }
}

impl LiveNodesBuildError {
    /// The error's message.
    pub fn message(&self) -> (r: String)
        ensures
            r@ == fault_message(self@),
    {
        match self {
            LiveNodesBuildError::MissingRoutingTarget =>
                "no Alternator routing target configured; set endpoint_url or non-empty seed_hosts".to_owned(),
            LiveNodesBuildError::InvalidSeedHost { seed_host, reason } => {
                let mut out = "invalid seed host ".to_owned();
                out.append(text::quoted(seed_host.as_str()).as_str());
                out.append(": ");
                out.append(reason.as_str());
                out
            },
            LiveNodesBuildError::InvalidScheme(scheme) => {
                let mut out = "invalid Alternator transport scheme ".to_owned();
                out.append(text::quoted(scheme.as_str()).as_str());
                out.append(": expected http or https");
                out
            },
            LiveNodesBuildError::TlsConfiguration(message) => {
                let mut out = "failed to configure discovery TLS: ".to_owned();
                out.append(message.as_str());
                out
            },
            LiveNodesBuildError::HttpClient(source) => {
                let mut out =
                    "failed to build the HTTP client for live-node discovery: ".to_owned();
                out.append(source.as_str());
                out
            },
        }
    }
}

/// The scheme is one that Alternator speaks, in any case.
pub open spec fn known_scheme(scheme: Seq<char>) -> bool {
    text::lowered(scheme) == "http"@ || text::lowered(scheme) == "https"@
}

fn is_known_scheme(scheme: &str) -> (r: bool)
    ensures
        r == known_scheme(scheme@),
{
    let lower = text::ascii_lower(scheme);
    text::same(lower.as_str(), "http") || text::same(lower.as_str(), "https")
}

/// The URLs of the seed hosts, or the first host that has none, and why.
/// `ipv6` tells of each host whether it is an IPv6 address.
pub open spec fn seeds_built(
    scheme: Seq<char>,
    hosts: Seq<Seq<char>>,
    ipv6: Seq<bool>,
    port: Option<u16>,
) -> Result<Seq<UrlV>, BuildFault>
    decreases hosts.len(),
{
    if hosts.len() == 0 {
        Ok(Seq::empty())
    } else {
        match seeds_built(scheme, hosts.drop_last(), ipv6, port) {
            Err(e) => Err(e),
            Ok(urls) => match seed_url(scheme, hosts.last(), ipv6[hosts.len() - 1], port) {
                Ok(u) => Ok(urls.push(u)),
                Err(reason) => Err(
                    BuildFault::InvalidSeedHost { seed_host: hosts.last(), reason },
                ),
            },
        }
    }
}

proof fn lemma_seeds_built(
    scheme: Seq<char>,
    hosts: Seq<Seq<char>>,
    ipv6: Seq<bool>,
    port: Option<u16>,
    n: int,
)
    requires
        0 <= n <= hosts.len(),
        seeds_built(scheme, hosts.take(n), ipv6, port) is Err,
    ensures
        seeds_built(scheme, hosts, ipv6, port) == seeds_built(scheme, hosts.take(n), ipv6, port),
    decreases hosts.len(),
{
    if n < hosts.len() {
        assert(hosts.drop_last().take(n) =~= hosts.take(n));
        lemma_seeds_built(scheme, hosts.drop_last(), ipv6, port, n);
    } else {
        assert(hosts.take(n) =~= hosts);
    }
}

/// There is one URL for each host.
pub proof fn lemma_seeds_len(
    scheme: Seq<char>,
    hosts: Seq<Seq<char>>,
    ipv6: Seq<bool>,
    port: Option<u16>,
)
    ensures
        seeds_built(scheme, hosts, ipv6, port) matches Ok(urls) ==> urls.len() == hosts.len(),
    decreases hosts.len(),
{
    if hosts.len() > 0 {
        lemma_seeds_len(scheme, hosts.drop_last(), ipv6, port);
    }
}

fn build_seeds(scheme: &str, hosts: &Vec<String>, ipv6: &Vec<bool>, port: Option<u16>) -> (r: Result<
    Vec<NodeUrl>,
    LiveNodesBuildError,
>)
    requires
        hosts.len() == ipv6.len(),
    ensures
        match r {
            Ok(urls) => seeds_built(scheme@, text::views(hosts@), ipv6@, port) == Ok::<
                Seq<UrlV>,
                BuildFault,
            >(url_views(urls@)),
            Err(e) => seeds_built(scheme@, text::views(hosts@), ipv6@, port) == Err::<
                Seq<UrlV>,
                BuildFault,
            >(e@),
        },
{
    let ghost all = text::views(hosts@);
    let mut out: Vec<NodeUrl> = Vec::new();
    let mut i: usize = 0;
    assert(url_views(out@) =~= Seq::empty());
    while i < hosts.len()
        invariant
            i <= hosts.len(),
            hosts.len() == ipv6.len(),
            all == text::views(hosts@),
            seeds_built(scheme@, all.take(i as int), ipv6@, port) == Ok::<Seq<UrlV>, BuildFault>(
                url_views(out@),
            ),
        decreases hosts.len() - i,
    {
        assert(all.take(i + 1).drop_last() =~= all.take(i as int));
        match node_url::build_seed_url(scheme, hosts[i].as_str(), ipv6[i], port) {
            Ok(u) => {
                let ghost before = out@;
                out.push(u);
                assert(url_views(out@) =~= url_views(before).push(u@));
            },
            Err(reason) => {
                proof {
                    lemma_seeds_built(scheme@, all, ipv6@, port, i + 1);
                }
                return Err(
                    LiveNodesBuildError::InvalidSeedHost { seed_host: hosts[i].clone(), reason },
                );
            },
        }
        i = i + 1;
    }
    assert(all.take(i as int) =~= all);
    Ok(out)
}

/// The task that refreshes the nodes: the runtime it runs on, and what tells
/// it from other tasks.
#[derive(Debug, Clone, Copy, PartialEq, Eq, Structural)]
pub struct DiscoveryRegistration {
    pub runtime: u64,
    pub token: u64,
}

/// How long to wait after a refresh.
#[derive(Debug, Clone, Copy, PartialEq, Eq, Structural)]
pub enum RefreshWait {
    /// For this long.
    Active(Nanos),
    /// For this long, or until the next request.
    Idle(Nanos),
}

/// The live nodes, and what it takes to refresh them.
#[derive(Debug)]
pub struct LiveNodes {
    routing_scope: RoutingScope,
    active_interval: Nanos,
    idle_interval: Nanos,
    counter: usize,
    live_nodes: Vec<NodeUrl>,
    seed_urls: Vec<NodeUrl>,
    alternator_scheme: String,
    port: Option<u16>,
    native_roots_usable: bool,
    last_activity: Nanos,
    wake: bool,
    registration: Option<DiscoveryRegistration>,
}

/// The mathematical value of a [`LiveNodes`].
pub ghost struct LiveNodesV {
    /// The routing scope and all it falls back to.
    pub scopes: Seq<ScopeV>,
    pub active_interval: Nanos,
    pub idle_interval: Nanos,
    /// Where the next round starts.
    pub counter: usize,
    pub live: Seq<UrlV>,
    pub seeds: Seq<UrlV>,
    pub scheme: Seq<char>,
    pub port: Option<u16>,
    pub native_roots_usable: bool,
    pub last_activity: Nanos,
    /// The refresh task is to be woken.
    pub wake: bool,
    pub registration: Option<DiscoveryRegistration>,
}

/// The setting, or its default.
pub open spec fn or_default<T>(setting: Option<T>, default: T) -> T {
    match setting {
        Some(v) => v,
        None => default,
    }
}

/// The scheme of the settings.
pub open spec fn scheme_of(s: SettingsV) -> Seq<char> {
    or_default(s.scheme, "http"@)
}

/// The live nodes before any were discovered: the seeds, in the order in
/// which they are configured.
pub open spec fn fresh_nodes(s: SettingsV, seeds: Seq<UrlV>, roots_usable: bool, now: Nanos) -> LiveNodesV {
    LiveNodesV {
        scopes: or_default(s.routing_scope, seq![ScopeV::Cluster]),
        active_interval: or_default(s.active_interval, DEFAULT_ACTIVE_REFRESH_INTERVAL),
        idle_interval: or_default(s.idle_interval, DEFAULT_IDLE_REFRESH_INTERVAL),
        counter: 0,
        live: seeds,
        seeds,
        scheme: scheme_of(s),
        port: s.port,
        native_roots_usable: roots_usable,
        last_activity: now,
        wake: false,
        registration: None,
    }
}

/// Why the endpoint cannot be used without discovery, if it cannot.
pub open spec fn direct_fault(s: SettingsV) -> Option<BuildFault> {
    match s.endpoint_url {
        None => Some(BuildFault::MissingRoutingTarget),
        Some(endpoint) => if s.has_http_client {
            None
        } else {
            match url_parsed(endpoint) {
                Err(_) => Some(BuildFault::MissingRoutingTarget),
                Ok(u) => if known_scheme(u.scheme) {
                    None
                } else {
                    Some(BuildFault::InvalidScheme(u.scheme))
                },
            }
        },
    }
}

/// Why the seeds cannot be asked, if they cannot: over TLS there must be
/// certificates to trust.
pub open spec fn tls_fault(seeds: Seq<UrlV>, roots: NativeRoots) -> Option<BuildFault> {
    if text::lowered(seeds[0].scheme) == "https"@ && !roots.usable {
        Some(BuildFault::TlsConfiguration(roots_message(text::views(roots.errors@))))
    } else {
        None
    }
}

/// What discovery is set up as: `None` where the endpoint is used without it.
pub open spec fn nodes_built(
    s: SettingsV,
    ipv6: Seq<bool>,
    roots: NativeRoots,
    now: Nanos,
) -> Result<Option<LiveNodesV>, BuildFault> {
    match s.seed_hosts {
        None => Err(BuildFault::MissingRoutingTarget),
        Some(hosts) => if hosts.len() == 0 {
            match direct_fault(s) {
                Some(fault) => Err(fault),
                None => Ok(None),
            }
        } else if !known_scheme(scheme_of(s)) {
            Err(BuildFault::InvalidScheme(scheme_of(s)))
        } else {
            match seeds_built(scheme_of(s), hosts, ipv6, s.port) {
                Err(fault) => Err(fault),
                Ok(seeds) => match tls_fault(seeds, roots) {
                    Some(fault) => Err(fault),
                    None => Ok(Some(fresh_nodes(s, seeds, roots.usable, now))),
                },
            }
        },
    }
}

/// The value of a set up.
pub open spec fn build_view(r: Result<Option<LiveNodes>, LiveNodesBuildError>) -> Result<
    Option<LiveNodesV>,
    BuildFault,
> {
    match r {
        Ok(Some(n)) => Ok(Some(n@)),
        Ok(None) => Ok(None),
        Err(e) => Err(e@),
    }
}

/// How many hosts there are to start from.
pub open spec fn seed_count(s: SettingsV) -> nat {
    match s.seed_hosts {
        Some(hosts) => hosts.len(),
        None => 0,
    }
}

/// The first node in the round from `start` on, from the `i`-th on, that was
/// not used yet.
pub open spec fn round_robin(live: Seq<UrlV>, start: int, used: Set<Seq<char>>, i: nat) -> Option<UrlV>
    decreases live.len() - i,
{
    if i >= live.len() {
        None
    } else if !used.contains(live[(start + i) % live.len() as int].href) {
        Some(live[(start + i) % live.len() as int])
    } else {
        round_robin(live, start, used, i + 1)
    }
}

/// A node that is given is live and was not used; none is given only when all
/// were used.
pub proof fn law_round_robin_gives_an_unused_node(live: Seq<UrlV>, start: int, used: Set<Seq<char>>)
    requires
        live.len() > 0,
    ensures
        match round_robin(live, start, used, 0) {
            Some(u) => live.contains(u) && !used.contains(u.href),
            None => forall|k: int| 0 <= k < live.len() ==> used.contains((#[trigger] live[k]).href),
        },
{
    lemma_round_robin(live, start, used, 0);
    if round_robin(live, start, used, 0) is None {
        assert forall|k: int| 0 <= k < live.len() implies used.contains(
            (#[trigger] live[k]).href,
        ) by {
            let n = live.len() as int;
            let i = (k - start) % n;
            vstd::arithmetic::div_mod::lemma_fundamental_div_mod(k - start, n);
            let q = (k - start) / n;
            assert(k - start == n * q + i);
            assert((start + i) % n == k) by {
                assert(start + i == k + n * (-q)) by (nonlinear_arith)
                    requires
                        k - start == n * q + i,
                ;
                vstd::arithmetic::div_mod::lemma_mod_multiples_vanish(-q, k, n);
                vstd::arithmetic::div_mod::lemma_small_mod(k as nat, n as nat);
            }
            assert(used.contains(live[(start + i) % n].href));
        }
    }
}

proof fn lemma_round_robin(live: Seq<UrlV>, start: int, used: Set<Seq<char>>, i: nat)
    requires
        live.len() > 0,
        i <= live.len(),
    ensures
        match round_robin(live, start, used, i) {
            Some(u) => live.contains(u) && !used.contains(u.href),
            None => forall|k: int|
                i <= k < live.len() ==> used.contains(
                    (#[trigger] live[(start + k) % live.len() as int]).href,
                ),
        },
    decreases live.len() - i,
{
    if i < live.len() {
        if used.contains(live[(start + i) % live.len() as int].href) {
            lemma_round_robin(live, start, used, i + 1);
        }
    }
}

/// Requests that share nothing but the counter start one node apart, so that
/// every node is the first of some request in a cycle.
pub proof fn law_round_robin_rotates(live: Seq<UrlV>, counter: nat)
    requires
        live.len() > 0,
    ensures
        round_robin(live, (counter % live.len()) as int, Set::empty(), 0) == Some(
            live[(counter % live.len()) as int],
        ),
{
    vstd::arithmetic::div_mod::lemma_small_mod(counter % live.len(), live.len());
}

/// In a cycle every node is the first of exactly one request: whatever the
/// counter, each of the `n` nodes has its turn, and no two turns are the same
/// node's.
pub proof fn law_round_robin_is_even(n: nat, counter: nat, k: int)
    requires
        0 <= k < n,
    ensures
        exists|turn: int| 0 <= turn < n && #[trigger] ((counter + turn) % n as int) == k,
        forall|i: int, j: int|
            0 <= i < j < n ==> #[trigger] ((counter + i) % n as int) != #[trigger] ((counter + j)
                % n as int),
{
    let c = counter as int;
    let m = n as int;
    let turn = (k - c) % m;
    vstd::arithmetic::div_mod::lemma_fundamental_div_mod(k - c, m);
    let q = (k - c) / m;
    assert(c + turn == k + m * (-q)) by (nonlinear_arith)
        requires
            k - c == m * q + turn,
    ;
    vstd::arithmetic::div_mod::lemma_mod_multiples_vanish(-q, k, m);
    vstd::arithmetic::div_mod::lemma_small_mod(k as nat, n);
    assert((c + turn) % m == k);
    assert forall|i: int, j: int| 0 <= i < j < n implies #[trigger] ((counter + i) % n as int)
        != #[trigger] ((counter + j) % n as int) by {
        lemma_turns_differ(n, counter, i, j);
    }
}

proof fn lemma_turns_differ(n: nat, counter: nat, i: int, j: int)
    requires
        0 <= i < j < n,
    ensures
        (counter + i) % n as int != (counter + j) % n as int,
{
    let c = counter as int;
    let m = n as int;
    if (c + i) % m == (c + j) % m {
        vstd::arithmetic::div_mod::lemma_fundamental_div_mod(c + i, m);
        vstd::arithmetic::div_mod::lemma_fundamental_div_mod(c + j, m);
        let a = (c + i) / m;
        let b = (c + j) / m;
        assert(j - i == m * (b - a)) by (nonlinear_arith)
            requires
                c + i == m * a + (c + i) % m,
                c + j == m * b + (c + j) % m,
                (c + i) % m == (c + j) % m,
        ;
        assert(false) by (nonlinear_arith)
            requires
                j - i == m * (b - a),
                0 < j - i < m,
        ;
    }
}

/// The URLs that were used.
pub open spec fn used_set(used: Seq<String>) -> Set<Seq<char>> {
    Set::new(|href: Seq<char>| exists|i: int| 0 <= i < used.len() && (#[trigger] used[i])@ == href)
}

fn was_used(used: &Vec<String>, href: &str) -> (r: bool)
    ensures
        r == used_set(used@).contains(href@),
{
    let mut i: usize = 0;
    while i < used.len()
        invariant
            i <= used.len(),
            forall|k: int| 0 <= k < i ==> (#[trigger] used@[k])@ != href@,
        decreases used.len() - i,
    {
        if text::same(used[i].as_str(), href) {
            return true;
        }
        i = i + 1;
    }
    false
}

/// The discovery task is to be started: there is a runtime to start it on, and
/// no other task is registered on it or on another runtime that still works.
pub open spec fn starts_task(
    current: Option<u64>,
    registration: Option<DiscoveryRegistration>,
    owner_shut_down: bool,
) -> bool {
    current is Some && !(registration is Some && (registration->0.runtime == current->0
        || !owner_shut_down))
}

/// How much time passed.
pub open spec fn elapsed(since: Nanos, now: Nanos) -> int {
    if now > since {
        now - since
    } else {
        0
    }
}

/// The nodes after activity at `now`. Where there was none for longer than the
/// idle interval, the refresh task is to be woken.
pub open spec fn marked(nodes: LiveNodesV, now: Nanos) -> LiveNodesV {
    LiveNodesV {
        last_activity: now,
        wake: nodes.wake || elapsed(nodes.last_activity, now) > nodes.idle_interval,
        ..nodes
    }
}

fn elapsed_since(since: Nanos, now: Nanos) -> (r: Nanos)
    ensures
        r == elapsed(since, now),
{
    if now > since {
        now - since
    } else {
        0
    }
}

impl LiveNodes {
    /// The value of these nodes.
    pub closed spec fn view(&self) -> LiveNodesV {
        LiveNodesV {
            scopes: self.routing_scope.chain(),
            active_interval: self.active_interval,
            idle_interval: self.idle_interval,
            counter: self.counter,
            live: url_views(self.live_nodes@),
            seeds: url_views(self.seed_urls@),
            scheme: self.alternator_scheme@,
            port: self.port,
            native_roots_usable: self.native_roots_usable,
            last_activity: self.last_activity,
            wake: self.wake,
            registration: self.registration,
        }
    }

    /// There is always a seed, and always a live node.
    #[verifier::type_invariant]
    spec fn inv(&self) -> bool {
        &&& self.routing_scope.valid()
        &&& self.seed_urls@.len() > 0
        &&& self.live_nodes@.len() > 0
    }

    /// Sets up discovery from the URLs of the seed hosts.
    pub fn from_seed_urls(
        config: &AlternatorConfig,
        seed_urls: Vec<NodeUrl>,
        roots: &NativeRoots,
        now: Nanos,
    ) -> (r: Result<LiveNodes, LiveNodesBuildError>)
        requires
            seed_urls@.len() > 0,
        ensures
            match r {
                Ok(n) => tls_fault(url_views(seed_urls@), *roots) is None && n@ == fresh_nodes(
                    config@,
                    url_views(seed_urls@),
                    roots.usable,
                    now,
                ),
                Err(e) => tls_fault(url_views(seed_urls@), *roots) == Some(e@),
            },
    {
        let routing_scope = match config.routing_scope() {
            Some(s) => s,
            None => RoutingScope::from_cluster(),
        };
        let active_interval: Nanos = match config.active_interval() {
            Some(d) => d,
            None => DEFAULT_ACTIVE_REFRESH_INTERVAL,
        };
        let idle_interval: Nanos = match config.idle_interval() {
            Some(d) => d,
            None => DEFAULT_IDLE_REFRESH_INTERVAL,
        };
        let alternator_scheme = match config.scheme() {
            Some(s) => s,
            None => "http".to_owned(),
        };
        let lower = text::ascii_lower(seed_urls[0].scheme());
        if text::same(lower.as_str(), "https") && !roots.usable {
            return Err(
                LiveNodesBuildError::TlsConfiguration(unusable_native_roots_message(&roots.errors)),
            );
        }
        let live_nodes = node_url::duplicate_urls(&seed_urls);
        assert(live_nodes@.len() == url_views(live_nodes@).len());
        Ok(
            LiveNodes {
                routing_scope,
                active_interval,
                idle_interval,
                counter: 0,
                live_nodes,
                seed_urls,
                alternator_scheme,
                port: config.port(),
                native_roots_usable: roots.usable,
                last_activity: now,
                wake: false,
                registration: None,
            },
        )
    }

    /// Sets up discovery from the configured seed hosts. Gives `None` where
    /// there are none and an endpoint is used without discovery. `ipv6` tells
    /// of each seed host whether it is an IPv6 address, in brackets or not.
    pub fn try_new(
        config: &AlternatorConfig,
        ipv6: &Vec<bool>,
        roots: &NativeRoots,
        now: Nanos,
    ) -> (r: Result<Option<LiveNodes>, LiveNodesBuildError>)
        requires
            ipv6.len() == seed_count(config@),
        ensures
            build_view(r) == nodes_built(config@, ipv6@, *roots, now),
    {
        let hosts = match config.seed_hosts() {
            Some(h) => h,
            None => {
                return Err(LiveNodesBuildError::MissingRoutingTarget);
            },
        };
        assert(text::views(hosts@).len() == hosts@.len());
        if hosts.len() == 0 {
            let endpoint = match config.endpoint_url() {
                Some(e) => e,
                None => {
                    return Err(LiveNodesBuildError::MissingRoutingTarget);
                },
            };
            if !config.has_http_client() {
                match node_url::parse_url(endpoint) {
                    Ok(u) => {
                        if !is_known_scheme(u.scheme()) {
                            return Err(LiveNodesBuildError::InvalidScheme(u.scheme));
                        }
                    },
                    Err(_) => {
                        return Err(LiveNodesBuildError::MissingRoutingTarget);
                    },
                }
            }
            return Ok(None);
        }
        let scheme = match config.scheme() {
            Some(s) => s,
            None => "http".to_owned(),
        };
        if !is_known_scheme(scheme.as_str()) {
            return Err(LiveNodesBuildError::InvalidScheme(scheme));
        }
        let seeds = match build_seeds(scheme.as_str(), &hosts, ipv6, config.port()) {
            Ok(seeds) => seeds,
            Err(e) => {
                return Err(e);
            },
        };
        proof {
            lemma_seeds_len(scheme@, text::views(hosts@), ipv6@, config@.port);
        }
        match LiveNodes::from_seed_urls(config, seeds, roots, now) {
            Ok(nodes) => Ok(Some(nodes)),
            Err(e) => Err(e),
        }
    }

    /// The scheme of the nodes.
    pub fn scheme(&self) -> (r: &str)
        ensures
            self@.seeds.len() > 0,
            r@ == self@.seeds[0].scheme,
    {
        proof {
            use_type_invariant(self);
        }
        self.seed_urls[0].scheme()
    }

    /// Whether there were certificates to trust.
    pub fn has_usable_native_roots(&self) -> (r: bool)
        ensures
            r == self@.native_roots_usable,
    {
        self.native_roots_usable
    }

    /// Whether the discovery task is to be started: there is a runtime to start
    /// it on, and no task is registered on it or on a runtime that still works.
    pub fn ensure_discovery_started(&self, current_runtime: Option<u64>, owner_shut_down: bool) -> (r:
        bool)
        ensures
            r == starts_task(current_runtime, self@.registration, owner_shut_down),
    {
        match current_runtime {
            None => false,
            Some(current) => match self.registration {
                Some(active) => !(active.runtime == current || !owner_shut_down),
                None => true,
            },
        }
    }

    /// Registers the discovery task, in place of any other, which is given back
    /// so that it can be stopped. Starting the task counts as activity.
    pub fn register_discovery(&mut self, registration: DiscoveryRegistration, now: Nanos) -> (r: Option<
        DiscoveryRegistration,
    >)
        ensures
            r == old(self)@.registration,
            final(self)@ == (LiveNodesV {
                registration: Some(registration),
                ..marked(old(self)@, now)
            }),
    {
        proof {
            use_type_invariant(&*self);
        }
        let old_task = self.registration;
        self.registration = Some(registration);
        self.mark_activity(now);
        old_task
    }

    /// Takes the registration of a task that ended out, and no other.
    pub fn unregister_discovery(&mut self, registration: DiscoveryRegistration)
        ensures
            final(self)@ == (LiveNodesV {
                registration: if old(self)@.registration == Some(registration) {
                    None
                } else {
                    old(self)@.registration
                },
                ..old(self)@
            }),
    {
        proof {
            use_type_invariant(&*self);
        }
        if let Some(active) = self.registration {
            if active == registration {
                self.registration = None;
            }
        }
    }

    /// Records activity. The refresh task is to be woken, where there was none
    /// for longer than the idle interval.
    pub fn mark_activity(&mut self, now: Nanos)
        ensures
            final(self)@ == marked(old(self)@, now),
    {
        proof {
            use_type_invariant(&*self);
        }
        if elapsed_since(self.last_activity, now) > self.idle_interval {
            self.wake = true;
        }
        self.last_activity = now;
    }

    /// Whether the refresh task is to be woken. It is asked once: who asks wakes it.
    pub fn take_wake(&mut self) -> (r: bool)
        ensures
            r == old(self)@.wake,
            final(self)@ == (LiveNodesV { wake: false, ..old(self)@ }),
    {
        proof {
            use_type_invariant(&*self);
        }
        let wake = self.wake;
        self.wake = false;
        wake
    }

    /// How long to wait after a refresh.
    pub fn wait_after_refresh(&self, now: Nanos) -> (r: RefreshWait)
        ensures
            r == (if elapsed(self@.last_activity, now) >= self@.idle_interval {
                RefreshWait::Idle(self@.idle_interval)
            } else {
                RefreshWait::Active(self@.active_interval)
            }),
    {
        if elapsed_since(self.last_activity, now) >= self.idle_interval {
            RefreshWait::Idle(self.idle_interval)
        } else {
            RefreshWait::Active(self.active_interval)
        }
    }

    /// How many live nodes there are. There is always one.
    pub fn live_node_count(&self) -> (r: usize)
        ensures
            r == self@.live.len(),
            r > 0,
    {
        proof {
            use_type_invariant(self);
        }
        assert(self@.live.len() == self.live_nodes@.len());
        self.live_nodes.len()
    }

    /// All live nodes. Reading them counts as activity.
    pub fn get_live_nodes(&mut self, now: Nanos) -> (r: Vec<NodeUrl>)
        ensures
            url_views(r@) == old(self)@.live,
            r@.len() > 0,
            r@.len() == old(self)@.live.len(),
            final(self)@ == marked(old(self)@, now),
    {
        self.mark_activity(now);
        proof {
            use_type_invariant(&*self);
        }
        let r = node_url::duplicate_urls(&self.live_nodes);
        assert(r@.len() == url_views(r@).len());
        assert(self@.live.len() == self.live_nodes@.len());
        r
    }

    /// The seed nodes.
    pub fn seed_urls(&self) -> (r: Vec<NodeUrl>)
        ensures
            url_views(r@) == self@.seeds,
            r@.len() == self@.seeds.len(),
    {
        let r = node_url::duplicate_urls(&self.seed_urls);
        assert(r@.len() == url_views(r@).len());
        assert(self@.seeds.len() == self.seed_urls@.len());
        r
    }

    /// The first live node that was not used, from the next node of the round
    /// on. Asking for one counts as activity.
    pub fn get_next_node_round_robin(&mut self, used_nodes: &Vec<String>, now: Nanos) -> (r: Option<
        NodeUrl,
    >)
        ensures
            opt_url(r) == round_robin(
                old(self)@.live,
                old(self)@.counter as int % old(self)@.live.len() as int,
                used_set(used_nodes@),
                0,
            ),
            final(self)@ == (LiveNodesV {
                counter: old(self)@.counter.wrapping_add(1),
                ..marked(old(self)@, now)
            }),
    {
        self.mark_activity(now);
        proof {
            use_type_invariant(&*self);
        }
        let len: usize = self.live_nodes.len();
        let start: usize = self.counter % len;
        self.counter = self.counter.wrapping_add(1);
        let ghost live = self@.live;
        let mut i: usize = 0;
        while i < len
            invariant
                i <= len,
                len == self.live_nodes@.len(),
                len == live.len(),
                live == url_views(self.live_nodes@),
                start < len,
                self@ == (LiveNodesV {
                    counter: old(self)@.counter.wrapping_add(1),
                    ..marked(old(self)@, now)
                }),
                live == old(self)@.live,
                start == old(self)@.counter as int % live.len() as int,
                round_robin(live, start as int, used_set(used_nodes@), 0) == round_robin(
                    live,
                    start as int,
                    used_set(used_nodes@),
                    i as nat,
                ),
            decreases len - i,
        {
            let idx: usize = if i < len - start {
                start + i
            } else {
                i - (len - start)
            };
            assert((start + i) % len as int == idx) by {
                if i < len - start {
                    vstd::arithmetic::div_mod::lemma_small_mod((start + i) as nat, len as nat);
                } else {
                    vstd::arithmetic::div_mod::lemma_mod_sub_multiples_vanish(
                        start + i,
                        len as int,
                    );
                    vstd::arithmetic::div_mod::lemma_small_mod(idx as nat, len as nat);
                }
            }
            let node = &self.live_nodes[idx];
            assert(live[idx as int] == node@);
            if !was_used(used_nodes, node.as_str()) {
                return Some(node.duplicate());
            }
            i = i + 1;
        }
        None
    }

    /// Replaces the live nodes.
    pub fn store_live_nodes(&mut self, nodes: Vec<NodeUrl>)
        requires
            nodes@.len() > 0,
        ensures
            final(self)@ == (LiveNodesV { live: url_views(nodes@), ..old(self)@ }),
    {
        proof {
            use_type_invariant(&*self);
        }
        self.live_nodes = nodes;
    }
}

/// The registration that a task leaves behind is its own: one that was
/// replaced does not take out its successor.
pub proof fn law_stale_task_keeps_successor(
    registration: Option<DiscoveryRegistration>,
    ended: DiscoveryRegistration,
    current: u64,
    shut_down: bool,
)
    requires
        registration is Some,
        registration != Some(ended),
        registration->0.runtime == current,
    ensures
        !starts_task(
            Some(current),
            if registration == Some(ended) {
                None
            } else {
                registration
            },
            shut_down,
        ),
{
}

/// A task that was started is not started again from its own runtime, nor from
/// another while its own still works; once that was shut down, it is.
pub proof fn law_discovery_is_started_once(registration: DiscoveryRegistration, current: u64)
    ensures
        !starts_task(Some(registration.runtime), Some(registration), false),
        !starts_task(Some(registration.runtime), Some(registration), true),
        !starts_task(Some(current), Some(registration), false),
        !starts_task(None, Some(registration), true),
        !starts_task(None, None, true),
        current != registration.runtime ==> starts_task(Some(current), Some(registration), true),
        starts_task(Some(current), None, false),
{
}

/// `rand::seq::SliceRandom::shuffle` puts the nodes in some order.
#[verifier::external_body]
fn shuffle(nodes: &mut Vec<NodeUrl>)
    ensures
        url_views(final(nodes)@).to_multiset() == url_views(old(nodes)@).to_multiset(),
{
    nodes.shuffle(&mut rand::rng());
}

/// The URLs are in strictly ascending order.
pub open spec fn ascending(urls: Seq<UrlV>) -> bool {
    forall|i: int, j: int|
        0 <= i < j < urls.len() ==> text::comes_before(
            (#[trigger] urls[i]).href,
            (#[trigger] urls[j]).href,
        )
}

/// The ascending list with `u` at its place, or as it is where it has it.
pub open spec fn with_url(urls: Seq<UrlV>, u: UrlV) -> Seq<UrlV>
    decreases urls.len(),
{
    if urls.len() == 0 {
        seq![u]
    } else if urls.last().href == u.href {
        urls
    } else if text::comes_before(u.href, urls.last().href) {
        with_url(urls.drop_last(), u).push(urls.last())
    } else {
        urls.push(u)
    }
}

/// The ascending list with all of `more` at their places, none twice.
pub open spec fn united(urls: Seq<UrlV>, more: Seq<UrlV>) -> Seq<UrlV>
    decreases more.len(),
{
    if more.len() == 0 {
        urls
    } else {
        with_url(united(urls, more.drop_last()), more.last())
    }
}

/// Some URL of the list is `href`.
pub open spec fn has_href(urls: Seq<UrlV>, href: Seq<char>) -> bool {
    exists|i: int| 0 <= i < urls.len() && (#[trigger] urls[i]).href == href
}

proof fn lemma_has_href_push(urls: Seq<UrlV>, u: UrlV, href: Seq<char>)
    ensures
        has_href(urls.push(u), href) <==> has_href(urls, href) || u.href == href,
{
    let all = urls.push(u);
    if has_href(urls, href) {
        let i = choose|i: int| 0 <= i < urls.len() && (#[trigger] urls[i]).href == href;
        assert(all[i].href == href);
    }
    if u.href == href {
        assert(all[urls.len() as int].href == href);
    }
    if has_href(all, href) {
        let i = choose|i: int| 0 <= i < all.len() && (#[trigger] all[i]).href == href;
        if i < urls.len() {
            assert(urls[i].href == href);
        }
    }
}

/// The list with a URL more stays ascending, and has that URL and no other more.
pub proof fn lemma_with_url(urls: Seq<UrlV>, u: UrlV)
    requires
        ascending(urls),
    ensures
        ascending(with_url(urls, u)),
        forall|href: Seq<char>| #[trigger]
            has_href(with_url(urls, u), href) <==> has_href(urls, href) || u.href == href,
    decreases urls.len(),
{
    let after = with_url(urls, u);
    if urls.len() == 0 {
        assert forall|href: Seq<char>| #[trigger] has_href(after, href) <==> has_href(urls, href)
            || u.href == href by {
            lemma_has_href_push(urls, u, href);
            assert(urls.push(u) =~= seq![u]);
        }
    } else {
        let last = urls.last();
        let before = urls.drop_last();
        assert(before.push(last) =~= urls);
        assert forall|i: int, j: int| 0 <= i < j < before.len() implies text::comes_before(
            (#[trigger] before[i]).href,
            (#[trigger] before[j]).href,
        ) by {
            assert(before[i] == urls[i] && before[j] == urls[j]);
        }
        if last.href == u.href {
            assert(urls[urls.len() - 1].href == u.href);
            assert(has_href(urls, u.href));
        } else if text::comes_before(u.href, last.href) {
            lemma_with_url(before, u);
            let inner = with_url(before, u);
            assert forall|i: int| 0 <= i < inner.len() implies text::comes_before(
                (#[trigger] inner[i]).href,
                last.href,
            ) by {
                assert(has_href(inner, inner[i].href));
                if has_href(before, inner[i].href) {
                    let k = choose|k: int|
                        0 <= k < before.len() && (#[trigger] before[k]).href == inner[i].href;
                    assert(text::comes_before(urls[k].href, urls[urls.len() - 1].href));
                }
            }
            assert(ascending(after));
            assert forall|href: Seq<char>| #[trigger]
                has_href(after, href) <==> has_href(urls, href) || u.href == href by {
                lemma_has_href_push(inner, last, href);
                lemma_has_href_push(before, last, href);
            }
        } else {
            text::lemma_comes_before_total(u.href, last.href);
            assert forall|i: int| 0 <= i < urls.len() implies text::comes_before(
                (#[trigger] urls[i]).href,
                u.href,
            ) by {
                if i < urls.len() - 1 {
                    assert(text::comes_before(urls[i].href, urls[urls.len() - 1].href));
                    text::lemma_comes_before_transitive(urls[i].href, last.href, u.href);
                }
            }
            assert(ascending(after));
            assert forall|href: Seq<char>| #[trigger]
                has_href(after, href) <==> has_href(urls, href) || u.href == href by {
                lemma_has_href_push(urls, u, href);
            }
        }
    }
}

/// The union is in ascending order without duplicates, and has the URLs of
/// both and no other.
pub proof fn law_union_of_answers(urls: Seq<UrlV>, more: Seq<UrlV>)
    requires
        ascending(urls),
    ensures
        ascending(united(urls, more)),
        forall|href: Seq<char>| #[trigger]
            has_href(united(urls, more), href) <==> has_href(urls, href) || has_href(more, href),
    decreases more.len(),
{
    if more.len() > 0 {
        let rest = more.drop_last();
        law_union_of_answers(urls, rest);
        lemma_with_url(united(urls, rest), more.last());
        assert forall|href: Seq<char>| #[trigger]
            has_href(united(urls, more), href) <==> has_href(urls, href) || has_href(
                more,
                href,
            ) by {
            assert(rest.push(more.last()) =~= more);
            lemma_has_href_push(rest, more.last(), href);
        }
    }
}

fn insert_url(urls: &mut Vec<NodeUrl>, u: NodeUrl)
    requires
        ascending(url_views(old(urls)@)),
    ensures
        url_views(final(urls)@) == with_url(url_views(old(urls)@), u@),
{
    let ghost all = url_views(urls@);
    let n: usize = urls.len();
    let mut i: usize = n;
    assert(all.take(n as int) =~= all);
    assert(all.skip(n as int) =~= Seq::empty());
    assert(with_url(all.take(n as int), u@) + all.skip(n as int) =~= with_url(all, u@));
    while i > 0 && text::is_before(u.as_str(), urls[i - 1].as_str())
        invariant
            i <= n == urls@.len(),
            urls@ == old(urls)@,
            all == url_views(urls@),
            ascending(all),
            with_url(all.take(i as int), u@) + all.skip(i as int) == with_url(all, u@),
        decreases i,
    {
        let ghost part = all.take(i as int);
        proof {
            assert(part.last() == all[i - 1]);
            assert(all[i - 1] == urls@[i - 1]@);
            text::lemma_comes_before_irreflexive(u@.href);
            assert(part.drop_last() =~= all.take(i - 1));
            assert(seq![all[i - 1]] + all.skip(i as int) =~= all.skip(i - 1));
            let inner = with_url(all.take(i - 1), u@);
            assert(with_url(part, u@) == inner.push(all[i - 1]));
            assert(inner.push(all[i - 1]) + all.skip(i as int) =~= inner + all.skip(i - 1));
        }
        i = i - 1;
    }
    let ghost part = all.take(i as int);
    if i > 0 {
        assert(part.last() == all[i - 1]);
        assert(all[i - 1] == urls@[i - 1]@);
        if text::same(urls[i - 1].as_str(), u.as_str()) {
            assert(part + all.skip(i as int) =~= all);
            return;
        }
    }
    urls.insert(i, u);
    assert(url_views(urls@) =~= part.push(u@) + all.skip(i as int));
    assert(i == 0 ==> part.push(u@) =~= seq![u@]);
}

/// Puts all of `more` at their places.
pub(crate) fn unite(urls: &mut Vec<NodeUrl>, more: Vec<NodeUrl>)
    requires
        ascending(url_views(old(urls)@)),
    ensures
        url_views(final(urls)@) == united(url_views(old(urls)@), url_views(more@)),
        ascending(url_views(final(urls)@)),
{
    let ghost start = url_views(urls@);
    let ghost new = url_views(more@);
    let mut i: usize = 0;
    while i < more.len()
        invariant
            i <= more.len(),
            new == url_views(more@),
            ascending(start),
            ascending(url_views(urls@)),
            url_views(urls@) == united(start, new.take(i as int)),
        decreases more.len() - i,
    {
        assert(new.take(i + 1).drop_last() =~= new.take(i as int));
        proof {
            lemma_with_url(url_views(urls@), new[i as int]);
        }
        insert_url(urls, more[i].duplicate());
        i = i + 1;
    }
    assert(new.take(i as int) =~= new);
}

/// An address that a node reports.
#[derive(Debug)]
pub struct NodeAddress {
    pub addr: String,
    /// It is an IPv6 address, not in brackets.
    pub ipv6: bool,
}

/// The mathematical value of a [`NodeAddress`].
pub ghost struct AddressV {
    pub addr: Seq<char>,
    pub ipv6: bool,
}

/// The values of addresses.
pub open spec fn address_views(addresses: Seq<NodeAddress>) -> Seq<AddressV> {
    Seq::new(
        addresses.len(),
        |i: int| AddressV { addr: addresses[i].addr@, ipv6: addresses[i].ipv6 },
    )
}

/// The order of addresses.
pub open spec fn by_address() -> spec_fn(AddressV, AddressV) -> bool {
    |a: AddressV, b: AddressV| text::comes_before(a.addr, b.addr)
}

impl Sortable for NodeAddress {
    type Key = AddressV;

    open spec fn value(&self) -> AddressV {
        AddressV { addr: self.addr@, ipv6: self.ipv6 }
    }

    open spec fn order() -> spec_fn(AddressV, AddressV) -> bool {
        by_address()
    }

    fn goes_before(&self, other: &Self) -> (r: bool) {
        text::is_before(self.addr.as_str(), other.addr.as_str())
    }

    fn copied(&self) -> (r: Self) {
        NodeAddress { addr: self.addr.clone(), ipv6: self.ipv6 }
    }
}

/// The addresses in order.
pub open spec fn sorted_addresses(addresses: Seq<AddressV>) -> Seq<AddressV> {
    sorted(addresses, by_address())
}

/// The URLs of the addresses that have one.
pub open spec fn address_urls(
    scheme: Seq<char>,
    port: Option<u16>,
    addresses: Seq<AddressV>,
) -> Seq<UrlV>
    decreases addresses.len(),
{
    if addresses.len() == 0 {
        Seq::empty()
    } else {
        let before = address_urls(scheme, port, addresses.drop_last());
        match node_url(scheme, addresses.last().addr, addresses.last().ipv6, port) {
            Ok(u) => before.push(u),
            Err(_) => before,
        }
    }
}

/// Sorting addresses keeps each of them as often as it is there, and puts them
/// in order.
pub proof fn law_addresses_are_sorted(addresses: Seq<AddressV>)
    ensures
        sorted_addresses(addresses).to_multiset() == addresses.to_multiset(),
        forall|i: int, j: int|
            0 <= i < j < sorted_addresses(addresses).len() ==> !text::comes_before(
                (#[trigger] sorted_addresses(addresses)[j]).addr,
                (#[trigger] sorted_addresses(addresses)[i]).addr,
            ),
{
    let order = by_address();
    assert forall|a: AddressV, b: AddressV| #[trigger] order(a, b) implies !order(b, a) by {
        if order(b, a) {
            text::lemma_comes_before_transitive(a.addr, b.addr, a.addr);
            text::lemma_comes_before_irreflexive(a.addr);
        }
    }
    assert forall|a: AddressV, b: AddressV, c: AddressV|
        !(#[trigger] order(b, a)) && !(#[trigger] order(c, b)) implies !order(c, a) by {
        text::lemma_comes_before_total(a.addr, b.addr);
        if order(c, a) && a.addr != b.addr {
            text::lemma_comes_before_transitive(c.addr, a.addr, b.addr);
        }
    }
    sorting::law_sorting_keeps_values(addresses, order);
    sorting::law_sorting_puts_in_order(addresses, order);
    let after = sorted_addresses(addresses);
    assert forall|i: int, j: int| 0 <= i < j < after.len() implies !text::comes_before(
        (#[trigger] after[j]).addr,
        (#[trigger] after[i]).addr,
    ) by {
        assert(!order(after[j], after[i]));
    }
}

fn sort_addresses(addresses: &Vec<NodeAddress>) -> (r: Vec<NodeAddress>)
    ensures
        address_views(r@) == sorted_addresses(address_views(addresses@)),
{
    let out = sorting::sort(addresses);
    assert(sorting::values_of(addresses@) =~= address_views(addresses@));
    assert(sorting::values_of(out@) =~= address_views(out@));
    out
}

impl LiveNodes {
    /// The nodes that an answer reports: the addresses in order, those that
    /// make no URL left out.
    pub fn nodes_from_answer(&self, addresses: &Vec<NodeAddress>) -> (r: Vec<NodeUrl>)
        ensures
            url_views(r@) == address_urls(
                self@.scheme,
                self@.port,
                sorted_addresses(address_views(addresses@)),
            ),
    {
        let sorted = sort_addresses(addresses);
        let ghost all = address_views(sorted@);
        let mut out: Vec<NodeUrl> = Vec::new();
        let mut i: usize = 0;
        assert(url_views(out@) =~= address_urls(self@.scheme, self@.port, all.take(0)));
        while i < sorted.len()
            invariant
                i <= sorted.len(),
                all == address_views(sorted@),
                url_views(out@) == address_urls(self@.scheme, self@.port, all.take(i as int)),
            decreases sorted.len() - i,
        {
            assert(all.take(i + 1).drop_last() =~= all.take(i as int));
            assert(all[i as int] == (AddressV {
                addr: sorted@[i as int].addr@,
                ipv6: sorted@[i as int].ipv6,
            }));
            if let Ok(u) = node_url::build_node_url(
                self.alternator_scheme.as_str(),
                sorted[i].addr.as_str(),
                sorted[i].ipv6,
                self.port,
            ) {
                let ghost before = out@;
                out.push(u);
                assert(url_views(out@) =~= url_views(before).push(u@));
            }
            i = i + 1;
        }
        assert(all.take(i as int) =~= all);
        out
    }

    /// The nodes that are asked for the whole cluster: the live ones and the
    /// seeds, each once, in a random order.
    pub fn cluster_discovery_candidates(&self) -> (r: Vec<NodeUrl>)
        ensures
            url_views(r@).to_multiset() == united(
                united(Seq::empty(), self@.live),
                self@.seeds,
            ).to_multiset(),
    {
        let mut out: Vec<NodeUrl> = Vec::new();
        assert(url_views(out@) =~= Seq::empty());
        unite(&mut out, node_url::duplicate_urls(&self.live_nodes));
        unite(&mut out, node_url::duplicate_urls(&self.seed_urls));
        shuffle(&mut out);
        out
    }

    /// Starts a refresh: the live nodes are asked in a random order.
    pub fn update_live_nodes(&self) -> (r: Refresh)
        ensures
            r@.scopes == self@.scopes,
            r@.candidates.to_multiset() == self@.live.to_multiset(),
            r@.seeds == self@.seeds,
            !r@.using_seeds,
            r@.asked is None,
    {
        proof {
            use_type_invariant(self);
        }
        let mut nodes = node_url::duplicate_urls(&self.live_nodes);
        shuffle(&mut nodes);
        let seeds = node_url::duplicate_urls(&self.seed_urls);
        Refresh::new(self.routing_scope.duplicate(), nodes, seeds)
    }

    /// Starts asking for the nodes of the whole cluster.
    pub fn discover_cluster_live_nodes(&self) -> (r: ClusterDiscovery)
        ensures
            r@.candidates.to_multiset() == united(
                united(Seq::empty(), self@.live),
                self@.seeds,
            ).to_multiset(),
            r@.next == 0,
            r@.found == Seq::<UrlV>::empty(),
            !r@.got_response,
    {
        ClusterDiscovery::new(self.cluster_discovery_candidates())
    }
}

/// The seeds are the configured hosts, one URL for each and in their order; and
/// where some host has no URL, the first such host is named.
pub proof fn law_seeds_are_the_configured_hosts(
    scheme: Seq<char>,
    hosts: Seq<Seq<char>>,
    ipv6: Seq<bool>,
    port: Option<u16>,
)
    ensures
        match seeds_built(scheme, hosts, ipv6, port) {
            Ok(urls) => {
                &&& urls.len() == hosts.len()
                &&& forall|i: int|
                    0 <= i < hosts.len() ==> seed_url(scheme, #[trigger] hosts[i], ipv6[i], port)
                        == Ok::<UrlV, Seq<char>>(urls[i])
            },
            Err(fault) => exists|i: int|
                0 <= i < hosts.len() && fault == (BuildFault::InvalidSeedHost {
                    seed_host: hosts[i],
                    reason: seed_url(scheme, #[trigger] hosts[i], ipv6[i], port)->Err_0,
                }) && seed_url(scheme, hosts[i], ipv6[i], port) is Err && forall|k: int|
                    0 <= k < i ==> seed_url(scheme, #[trigger] hosts[k], ipv6[k], port) is Ok,
        },
    decreases hosts.len(),
{
    if hosts.len() > 0 {
        let before = hosts.drop_last();
        let n = before.len() as int;
        law_seeds_are_the_configured_hosts(scheme, before, ipv6, port);
        match seeds_built(scheme, before, ipv6, port) {
            Ok(urls) => {
                assert forall|i: int| 0 <= i < n implies seed_url(
                    scheme,
                    #[trigger] hosts[i],
                    ipv6[i],
                    port,
                ) == Ok::<UrlV, Seq<char>>(urls[i]) by {
                    assert(before[i] == hosts[i]);
                }
                if seed_url(scheme, hosts.last(), ipv6[n], port) is Err {
                    assert(hosts[n] == hosts.last());
                }
            },
            Err(fault) => {
                let i = choose|i: int|
                    0 <= i < before.len() && fault == (BuildFault::InvalidSeedHost {
                        seed_host: before[i],
                        reason: seed_url(scheme, #[trigger] before[i], ipv6[i], port)->Err_0,
                    }) && seed_url(scheme, before[i], ipv6[i], port) is Err && forall|k: int|
                        0 <= k < i ==> seed_url(scheme, #[trigger] before[k], ipv6[k], port) is Ok;
                assert(hosts[i] == before[i]);
                assert forall|k: int| 0 <= k < i implies seed_url(
                    scheme,
                    #[trigger] hosts[k],
                    ipv6[k],
                    port,
                ) is Ok by {
                    assert(before[k] == hosts[k]);
                }
            },
        }
    }
}

/// Discovery is set up with the settings: the seeds are live at first, the
/// scope is the configured one or the cluster, the intervals the configured
/// ones or a second and a minute, and nothing has been asked or registered yet.
pub proof fn law_nodes_are_set_up_as_configured(
    s: SettingsV,
    ipv6: Seq<bool>,
    roots: NativeRoots,
    now: Nanos,
)
    ensures
        nodes_built(s, ipv6, roots, now) matches Ok(Some(n)) ==> {
            let scheme = match s.scheme {
                Some(scheme) => scheme,
                None => "http"@,
            };
            &&& s.seed_hosts matches Some(hosts) && hosts.len() > 0 && seeds_built(
                scheme,
                hosts,
                ipv6,
                s.port,
            ) == Ok::<Seq<UrlV>, BuildFault>(n.seeds)
            &&& n.live == n.seeds
            &&& n.scheme == scheme
            &&& n.port == s.port
            &&& s.routing_scope matches Some(scopes) ==> n.scopes == scopes
            &&& s.routing_scope is None ==> n.scopes == seq![ScopeV::Cluster]
            &&& s.active_interval matches Some(d) ==> n.active_interval == d
            &&& s.active_interval is None ==> n.active_interval == 1_000_000_000
            &&& s.idle_interval matches Some(d) ==> n.idle_interval == d
            &&& s.idle_interval is None ==> n.idle_interval == 60_000_000_000
            &&& n.native_roots_usable == roots.usable
            &&& n.counter == 0
            &&& n.last_activity == now
            &&& !n.wake
            &&& n.registration is None
        },
{
}

/// Discovery is refused without a target, with a scheme that is neither HTTP
/// nor HTTPS, and over TLS without certificates to trust; it is left out where
/// an endpoint is given and the list of hosts is empty.
pub proof fn law_faulty_settings_are_refused(
    s: SettingsV,
    ipv6: Seq<bool>,
    roots: NativeRoots,
    now: Nanos,
)
    ensures
        ({
            let built = nodes_built(s, ipv6, roots, now);
            let scheme = match s.scheme {
                Some(scheme) => scheme,
                None => "http"@,
            };
            let known = text::lowered(scheme) == "http"@ || text::lowered(scheme) == "https"@;
            &&& s.seed_hosts is None ==> built == Err::<Option<LiveNodesV>, BuildFault>(
                BuildFault::MissingRoutingTarget,
            )
            &&& s.seed_hosts matches Some(hosts) ==> {
                &&& hosts.len() == 0 && s.endpoint_url is None ==> built == Err::<
                    Option<LiveNodesV>,
                    BuildFault,
                >(BuildFault::MissingRoutingTarget)
                &&& hosts.len() == 0 && s.endpoint_url is Some && s.has_http_client ==> built
                    == Ok::<Option<LiveNodesV>, BuildFault>(None)
                &&& hosts.len() > 0 && !known ==> built == Err::<Option<LiveNodesV>, BuildFault>(
                    BuildFault::InvalidScheme(scheme),
                )
                &&& hosts.len() > 0 && known ==> match seeds_built(scheme, hosts, ipv6, s.port) {
                    Err(fault) => built == Err::<Option<LiveNodesV>, BuildFault>(fault),
                    Ok(seeds) => built is Ok <==> !(text::lowered(seeds[0].scheme) == "https"@
                        && !roots.usable),
                }
            }
        }),
{
}

/// The endpoint that is used without discovery must be a URL with a scheme that
/// is known, unless the caller has an HTTP client for it.
pub proof fn law_endpoint_without_discovery(
    s: SettingsV,
    endpoint: Seq<char>,
    ipv6: Seq<bool>,
    roots: NativeRoots,
    now: Nanos,
)
    requires
        s.seed_hosts == Some(Seq::<Seq<char>>::empty()),
        s.endpoint_url == Some(endpoint),
        !s.has_http_client,
    ensures
        match url_parsed(endpoint) {
            Err(_) => nodes_built(s, ipv6, roots, now) == Err::<Option<LiveNodesV>, BuildFault>(
                BuildFault::MissingRoutingTarget,
            ),
            Ok(u) => if text::lowered(u.scheme) == "http"@ || text::lowered(u.scheme)
                == "https"@ {
                nodes_built(s, ipv6, roots, now) == Ok::<Option<LiveNodesV>, BuildFault>(None)
            } else {
                nodes_built(s, ipv6, roots, now) == Err::<Option<LiveNodesV>, BuildFault>(
                    BuildFault::InvalidScheme(u.scheme),
                )
            },
        },
{
}

/// Every address that makes a URL becomes a node, and no other node comes from
/// an answer.
pub proof fn law_addresses_become_nodes(
    scheme: Seq<char>,
    port: Option<u16>,
    addresses: Seq<AddressV>,
    u: UrlV,
)
    ensures
        address_urls(scheme, port, addresses).contains(u) <==> exists|i: int|
            0 <= i < addresses.len() && node_url(
                scheme,
                (#[trigger] addresses[i]).addr,
                addresses[i].ipv6,
                port,
            ) == Ok::<UrlV, Seq<char>>(u),
    decreases addresses.len(),
{
    if addresses.len() > 0 {
        let before = addresses.drop_last();
        let urls = address_urls(scheme, port, before);
        let all = address_urls(scheme, port, addresses);
        let last = addresses.last();
        law_addresses_become_nodes(scheme, port, before, u);
        let made = node_url(scheme, last.addr, last.ipv6, port);
        if urls.contains(u) {
            assert(all[urls.index_of(u)] == u);
            let i = choose|i: int|
                0 <= i < before.len() && node_url(
                    scheme,
                    (#[trigger] before[i]).addr,
                    before[i].ipv6,
                    port,
                ) == Ok::<UrlV, Seq<char>>(u);
            assert(addresses[i] == before[i]);
        }
        if made == Ok::<UrlV, Seq<char>>(u) {
            assert(all[urls.len() as int] == u);
            assert(addresses[before.len() as int] == last);
        }
        if all.contains(u) && !urls.contains(u) {
            let k = all.index_of(u);
            if k < urls.len() {
                assert(urls[k] == u);
            }
        }
        if exists|i: int|
            0 <= i < addresses.len() && node_url(
                scheme,
                (#[trigger] addresses[i]).addr,
                addresses[i].ipv6,
                port,
            ) == Ok::<UrlV, Seq<char>>(u) {
            let i = choose|i: int|
                0 <= i < addresses.len() && node_url(
                    scheme,
                    (#[trigger] addresses[i]).addr,
                    addresses[i].ipv6,
                    port,
                ) == Ok::<UrlV, Seq<char>>(u);
            if i < before.len() {
                assert(before[i] == addresses[i]);
            }
        }
    }
}

/// Activity is recorded with its time, and wakes the refresh task exactly where
/// there was none for longer than the idle interval; a wake that was due stays
/// due. Nothing else changes.
pub proof fn law_activity_is_recorded(nodes: LiveNodesV, now: Nanos)
    ensures
        marked(nodes, now).last_activity == now,
        marked(nodes, now).wake <==> nodes.wake || now - nodes.last_activity > nodes.idle_interval,
        marked(nodes, now).live == nodes.live,
        marked(nodes, now).seeds == nodes.seeds,
        marked(nodes, now).counter == nodes.counter,
        marked(nodes, now).scopes == nodes.scopes,
        marked(nodes, now).registration == nodes.registration,
        elapsed(nodes.last_activity, now) == (if now >= nodes.last_activity {
            now - nodes.last_activity
        } else {
            0
        }),
{
}

/// A message tells what is wrong: the host and the reason, the scheme, or what
/// came from elsewhere, stand in it.
pub proof fn law_messages_tell_what_is_wrong(
    host: Seq<char>,
    reason: Seq<char>,
    scheme: Seq<char>,
)
    ensures
        ({
            let message = fault_message(BuildFault::InvalidSeedHost { seed_host: host, reason });
            text::has_part(message, text::quoted_of(host)) && text::has_part(message, reason)
        }),
        text::has_part(
            fault_message(BuildFault::InvalidScheme(scheme)),
            text::quoted_of(scheme),
        ),
        text::has_part(fault_message(BuildFault::TlsConfiguration(reason)), reason),
        text::has_part(fault_message(BuildFault::HttpClient(reason)), reason),
{
    let front = "invalid seed host "@;
    let q = text::quoted_of(host);
    let m = fault_message(BuildFault::InvalidSeedHost { seed_host: host, reason });
    text::lemma_has_parts(front, q, ": "@ + reason);
    assert(front + q + (": "@ + reason) =~= m);
    text::lemma_has_parts(front + q + ": "@, reason, reason);
    text::lemma_has_parts(
        "invalid Alternator transport scheme "@,
        text::quoted_of(scheme),
        ": expected http or https"@,
    );
    text::lemma_has_parts("failed to configure discovery TLS: "@, reason, reason);
    text::lemma_has_parts(
        "failed to build the HTTP client for live-node discovery: "@,
        reason,
        reason,
    );
}

/// The value of a fault is the fault, with all that it tells.
pub proof fn law_value_has_the_whole_fault(e: LiveNodesBuildError)
    ensures
        e is MissingRoutingTarget <==> e@ is MissingRoutingTarget,
        e matches LiveNodesBuildError::InvalidSeedHost { seed_host, reason } ==> e@ == (
        BuildFault::InvalidSeedHost { seed_host: seed_host@, reason: reason@ }),
        e matches LiveNodesBuildError::InvalidScheme(s) ==> e@ == BuildFault::InvalidScheme(s@),
        e matches LiveNodesBuildError::TlsConfiguration(s) ==> e@ == BuildFault::TlsConfiguration(
            s@,
        ),
        e matches LiveNodesBuildError::HttpClient(s) ==> e@ == BuildFault::HttpClient(s@),
{
}

/// Without usable certificates all the reasons are given, or that there were no
/// certificates at all.
pub proof fn law_all_reasons_are_given(errors: Seq<Seq<char>>, last: Seq<char>)
    ensures
        roots_message(seq![last]) == last,
        errors.len() > 0 ==> roots_message(errors.push(last)) == roots_message(errors) + "; "@
            + last,
        roots_message(Seq::empty()).len() > 0,
{
    reveal_strlit("no usable native CA certificates were found");
    assert(errors.push(last).drop_last() =~= errors);
}

} // verus!
