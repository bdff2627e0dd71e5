//! Partition key attribute names of tables, known beforehand or discovered
//! through `DescribeTable`.
//!
//! Transient failures are retried with exponential backoff and jitter.
//! Permanent failures are not retried, but the table becomes eligible for
//! another discovery after a cooldown. At most one discovery runs for a table
//! at a time.

use crate::keyrouting::affinity_config::{names_map, PartitionKeyNames};
use crate::node_url::opt_chars;
use crate::text;
use rand::RngExt;
use vstd::prelude::*;

verus! {

/// How often a transient failure is retried.
pub const MAX_RETRIES: u32 = 3;

/// The delay before the first retry, in milliseconds.
pub const INITIAL_RETRY_DELAY_MS: u64 = 100;

/// The longest delay before a retry, in milliseconds.
pub const MAX_RETRY_DELAY_MS: u64 = 2000;

/// How long a permanent failure keeps a table from being discovered, in milliseconds.
pub const PERMANENT_FAILURE_COOLDOWN_MS: u64 = 300_000;

/// Delays are shifted by at most one part in this many.
pub const JITTER_FRACTION: u64 = 5;

/// `dashmap::DashMap`, a hash map.
#[verifier::external_type_specification]
#[verifier::external_body]
#[verifier::reject_recursive_types(K)]
#[verifier::reject_recursive_types(V)]
#[verifier::reject_recursive_types(S)]
pub struct ExDashMap<K, V, S>(dashmap::DashMap<K, V, S>);

/// `dashmap::DashSet`, a hash set.
#[verifier::external_type_specification]
#[verifier::external_body]
#[verifier::reject_recursive_types(K)]
#[verifier::reject_recursive_types(S)]
pub struct ExDashSet<K, S>(dashmap::DashSet<K, S>);

/// What the map of partition key names holds.
pub uninterp spec fn names_in(m: dashmap::DashMap<String, String>) -> Map<Seq<char>, Seq<char>>;

/// What the set of tables holds.
pub uninterp spec fn tables_in(s: dashmap::DashSet<String>) -> Set<Seq<char>>;

/// What the map of failures holds: when each table failed, in milliseconds,
/// and whether it did so permanently.
pub uninterp spec fn failures_in(m: dashmap::DashMap<String, (u64, bool)>) -> Map<
    Seq<char>,
    (u64, bool),
>;

/// `dashmap::DashMap::new` gives a map that holds nothing.
#[verifier::external_body]
fn new_names() -> (r: dashmap::DashMap<String, String>)
    ensures
        names_in(r).is_empty(),
{
    dashmap::DashMap::new()
}

/// `dashmap::DashMap::insert` sets the value of the key.
#[verifier::external_body]
fn insert_name(m: &mut dashmap::DashMap<String, String>, table: String, name: String)
    ensures
        names_in(*final(m)) == names_in(*old(m)).insert(table@, name@),
{
    m.insert(table, name);
}

/// `dashmap::DashMap::get` finds the value of the key.
#[verifier::external_body]
fn get_name(m: &dashmap::DashMap<String, String>, table: &str) -> (r: Option<String>)
    ensures
        opt_chars(r) == (if names_in(*m).contains_key(table@) {
            Some(names_in(*m)[table@])
        } else {
            None
        }),
{
    m.get(table).map(|name| name.value().clone())
}

/// `dashmap::DashSet::new` gives a set that holds nothing.
#[verifier::external_body]
fn new_tables() -> (r: dashmap::DashSet<String>)
    ensures
        tables_in(r).is_empty(),
{
    dashmap::DashSet::new()
}

/// `dashmap::DashSet::insert` adds the key, and tells whether it was not there.
#[verifier::external_body]
fn insert_table(s: &mut dashmap::DashSet<String>, table: String) -> (r: bool)
    ensures
        r == !tables_in(*old(s)).contains(table@),
        tables_in(*final(s)) == tables_in(*old(s)).insert(table@),
{
    s.insert(table)
}

/// `dashmap::DashSet::contains` tells whether the key is there.
#[verifier::external_body]
fn has_table(s: &dashmap::DashSet<String>, table: &str) -> (r: bool)
    ensures
        r == tables_in(*s).contains(table@),
{
    s.contains(table)
}

/// `dashmap::DashSet::remove` takes the key out.
#[verifier::external_body]
fn remove_table(s: &mut dashmap::DashSet<String>, table: &str)
    ensures
        tables_in(*final(s)) == tables_in(*old(s)).remove(table@),
{
    s.remove(table);
}

/// `dashmap::DashMap::new` gives a map that holds nothing.
#[verifier::external_body]
fn new_failures() -> (r: dashmap::DashMap<String, (u64, bool)>)
    ensures
        failures_in(r).is_empty(),
{
    dashmap::DashMap::new()
}

/// `dashmap::DashMap::insert` sets the value of the key.
#[verifier::external_body]
fn insert_failure(m: &mut dashmap::DashMap<String, (u64, bool)>, table: String, failure: (u64, bool))
    ensures
        failures_in(*final(m)) == failures_in(*old(m)).insert(table@, failure),
{
    m.insert(table, failure);
}

/// `dashmap::DashMap::get` finds the value of the key.
#[verifier::external_body]
fn get_failure(m: &dashmap::DashMap<String, (u64, bool)>, table: &str) -> (r: Option<(u64, bool)>)
    ensures
        r == (if failures_in(*m).contains_key(table@) {
            Some(failures_in(*m)[table@])
        } else {
            None
        }),
{
    m.get(table).map(|failure| *failure.value())
}

/// `dashmap::DashMap::remove` takes the key out.
#[verifier::external_body]
fn remove_failure(m: &mut dashmap::DashMap<String, (u64, bool)>, table: &str)
    ensures
        failures_in(*final(m)) == failures_in(*old(m)).remove(table@),
{
    m.remove(table);
}

/// `rand::RngExt::random_range` over `low..=high` gives some number in it.
#[verifier::external_body]
fn draw_jitter(low: i64, high: i64) -> (r: i64)
    requires
        low <= high,
    ensures
        low <= r <= high,
{
    rand::rng().random_range(low..=high)
}

/// When discovering a table failed, and whether it did so permanently.
#[derive(Debug, Clone, Copy, PartialEq, Eq, Structural)]
pub struct FailureRecord {
    /// The time of the failure, in milliseconds.
    pub timestamp_ms: u64,
    pub permanent: bool,
}

/// A table that failed can be discovered again: at once after a transient
/// failure, after the cooldown after a permanent one.
pub open spec fn may_retry(failure: (u64, bool), now_ms: u64) -> bool {
    !failure.1 || now_ms - failure.0 > PERMANENT_FAILURE_COOLDOWN_MS
}

impl FailureRecord {
    /// Whether the table can be discovered again.
    pub fn can_retry(&self, now_ms: u64) -> (r: bool)
        ensures
            r == may_retry((self.timestamp_ms, self.permanent), now_ms),
    {
        if !self.permanent {
            return true;
        }
        now_ms > self.timestamp_ms && now_ms - self.timestamp_ms > PERMANENT_FAILURE_COOLDOWN_MS
    }
}

/// The delay `base` shifted by `jitter`, but at least a millisecond.
pub open spec fn shifted_delay(base: u64, jitter: int) -> int {
    if base + jitter < 1 {
        1
    } else {
        base + jitter
    }
}

/// The delay `base` shifted by `jitter`, but at least a millisecond.
pub fn apply_jitter(base_delay: u64, jitter: i64) -> (r: u64)
    requires
        base_delay <= i64::MAX,
        i64::MIN <= base_delay + jitter <= i64::MAX,
    ensures
        r == shifted_delay(base_delay, jitter as int),
{
    let shifted: i64 = base_delay as i64 + jitter;
    if shifted < 1 {
        1
    } else {
        shifted as u64
    }
}

/// A delay that is off `base_delay` by at most a fifth, at random, and at
/// least a millisecond. A delay too short to be shifted is left as it is. The
/// longest shifted delay must be a signed number.
pub fn calculate_jittered_delay(base_delay: u64) -> (r: u64)
    requires
        base_delay + base_delay / JITTER_FRACTION <= i64::MAX,
    ensures
        base_delay / JITTER_FRACTION == 0 ==> r == base_delay,
        base_delay - base_delay / JITTER_FRACTION <= r <= base_delay + base_delay / JITTER_FRACTION,
{
    let range: i64 = (base_delay / JITTER_FRACTION) as i64;
    if range == 0 {
        return base_delay;
    }
    let jitter: i64 = draw_jitter(-range, range);
    apply_jitter(base_delay, jitter)
}

/// What is known of a `DescribeTable` call that failed.
#[derive(Debug)]
pub struct DescribeFailure {
    /// The service's own error, where it gave one.
    pub service_error: Option<ServiceError>,
    /// The status of the HTTP response, where there was one.
    pub status: Option<u16>,
}

/// An error that the service gave.
#[derive(Debug)]
pub struct ServiceError {
    /// The table does not exist.
    pub is_resource_not_found: bool,
    pub code: Option<String>,
}

/// The failure is permanent: the table does not exist, access is denied or
/// the request is invalid.
pub open spec fn is_permanent(failure: DescribeFailure) -> bool {
    ||| failure.service_error is Some && failure.service_error->0.is_resource_not_found
    ||| failure.service_error is Some && failure.service_error->0.code is Some && {
        let code = failure.service_error->0.code->0@;
        code == "AccessDeniedException"@ || code == "ValidationException"@
    }
    ||| failure.status == Some(403u16)
}

/// Whether the failure is permanent.
pub fn is_permanent_failure(failure: &DescribeFailure) -> (r: bool)
    ensures
        r == is_permanent(*failure),
{
    if let Some(error) = &failure.service_error {
        if error.is_resource_not_found {
            return true;
        }
        if let Some(code) = &error.code {
            if text::same(code.as_str(), "AccessDeniedException") || text::same(
                code.as_str(),
                "ValidationException",
            ) {
                return true;
            }
        }
    }
    match failure.status {
        Some(status) => status == 403,
        None => false,
    }
}

/// One attribute of a table's key.
#[derive(Debug)]
pub struct KeySchemaElement {
    pub attribute_name: String,
    /// The attribute is the partition key.
    pub is_hash: bool,
}

/// How a `DescribeTable` call ended.
#[derive(Debug)]
pub enum DescribeOutcome {
    /// The table was described, with this key where it has one.
    Described(Option<Vec<KeySchemaElement>>),
    /// The call failed.
    Failed(DescribeFailure),
}

/// The first attribute that is the partition key.
pub open spec fn hash_key(schema: Seq<KeySchemaElement>) -> Option<Seq<char>>
    decreases schema.len(),
{
    if schema.len() == 0 {
        None
    } else if schema[0].is_hash {
        Some(schema[0].attribute_name@)
    } else {
        hash_key(schema.drop_first())
    }
}

fn find_hash_key(schema: &Vec<KeySchemaElement>) -> (r: Option<String>)
    ensures
        opt_chars(r) == hash_key(schema@),
{
    let mut i: usize = 0;
    assert(schema@.skip(0) =~= schema@);
    while i < schema.len()
        invariant
            i <= schema.len(),
            hash_key(schema@) == hash_key(schema@.skip(i as int)),
        decreases schema.len() - i,
    {
        assert(schema@.skip(i as int)[0] == schema@[i as int]);
        if schema[i].is_hash {
            return Some(schema[i].attribute_name.clone());
        }
        assert(schema@.skip(i as int).drop_first() =~= schema@.skip(i + 1));
        i = i + 1;
    }
    None
}

/// A discovery under way.
#[derive(Debug)]
pub struct Discovery {
    pub table_name: String,
    /// How many calls failed so far.
    pub attempt: u32,
    /// The delay before the next retry, in milliseconds, before jitter.
    pub delay_ms: u64,
}

/// The delay before the retry after `attempt` failures.
pub open spec fn backoff(attempt: nat) -> nat
    decreases attempt,
{
    if attempt == 0 {
        INITIAL_RETRY_DELAY_MS as nat
    } else if 2 * backoff((attempt - 1) as nat) < MAX_RETRY_DELAY_MS {
        2 * backoff((attempt - 1) as nat)
    } else {
        MAX_RETRY_DELAY_MS as nat
    }
}

impl Discovery {
    /// There are retries left, and the delay is that of the backoff.
    pub open spec fn valid(self) -> bool {
        self.attempt <= MAX_RETRIES && self.delay_ms == backoff(self.attempt as nat)
    }
}

/// What a discovery does next.
#[derive(Debug, Clone, Copy, PartialEq, Eq, Structural)]
pub enum DiscoveryStep {
    /// It calls `DescribeTable` again after this delay, in milliseconds.
    RetryAfter(u64),
    /// It is over.
    Finished,
}

/// The mathematical value of a [`PartitionKeyResolver`].
pub ghost struct ResolverV {
    /// The partition key of each table that it is known of.
    pub cache: Map<Seq<char>, Seq<char>>,
    /// The tables that are being discovered.
    pub in_progress: Set<Seq<char>>,
    /// The tables that could not be discovered.
    pub failed: Map<Seq<char>, (u64, bool)>,
}

/// Resolves partition key attribute names.
pub struct PartitionKeyResolver {
    cache: dashmap::DashMap<String, String>,
    in_progress: dashmap::DashSet<String>,
    failed_tables: dashmap::DashMap<String, (u64, bool)>,
}

/// A discovery of `table` starts: it is neither known nor failed too recently
/// nor being discovered, and there is a runtime to run it.
pub open spec fn starts_discovery(s: ResolverV, table: Seq<char>, now_ms: u64, runtime: bool) -> bool {
    &&& !s.cache.contains_key(table)
    &&& s.failed.contains_key(table) ==> may_retry(s.failed[table], now_ms)
    &&& runtime
    &&& !s.in_progress.contains(table)
}

/// The resolver after a discovery of `table` was asked for.
pub open spec fn triggered(s: ResolverV, table: Seq<char>, now_ms: u64, runtime: bool) -> ResolverV {
    if starts_discovery(s, table, now_ms, runtime) {
        ResolverV {
            in_progress: s.in_progress.insert(table),
            failed: s.failed.remove(table),
            ..s
        }
    } else {
        s
    }
}

/// The resolver after a discovery of `table` ended with a failure.
pub open spec fn with_failure(s: ResolverV, table: Seq<char>, now_ms: u64, permanent: bool) -> ResolverV {
    ResolverV {
        in_progress: s.in_progress.remove(table),
        failed: s.failed.insert(table, (now_ms, permanent)),
        ..s
    }
}

/// The discovery goes on after this outcome.
pub open spec fn goes_on(attempt: u32, outcome: DescribeOutcome) -> bool {
    outcome matches DescribeOutcome::Failed(failure) && !is_permanent(failure) && attempt
        < MAX_RETRIES
}

/// The resolver after the `attempt`-th call for `table` ended.
pub open spec fn after_outcome(
    s: ResolverV,
    table: Seq<char>,
    attempt: u32,
    outcome: DescribeOutcome,
    now_ms: u64,
) -> ResolverV {
    match outcome {
        DescribeOutcome::Described(Some(schema)) => match hash_key(schema@) {
            Some(name) => ResolverV {
                cache: s.cache.insert(table, name),
                in_progress: s.in_progress.remove(table),
                ..s
            },
            None => with_failure(s, table, now_ms, true),
        },
        DescribeOutcome::Described(None) => with_failure(s, table, now_ms, true),
        DescribeOutcome::Failed(failure) => if is_permanent(failure) {
            with_failure(s, table, now_ms, true)
        } else if attempt >= MAX_RETRIES {
            with_failure(s, table, now_ms, false)
        } else {
            s
        },
    }
}

impl PartitionKeyResolver {
    /// The value of this resolver.
    pub closed spec fn view(&self) -> ResolverV {
        ResolverV {
            cache: names_in(self.cache),
            in_progress: tables_in(self.in_progress),
            failed: failures_in(self.failed_tables),
        }
    }

    /// A resolver that knows `pk_info`.
    pub fn new(pk_info: &PartitionKeyNames) -> (r: Self)
        ensures
            r@ == (ResolverV {
                cache: pk_info@,
                in_progress: Set::empty(),
                failed: Map::empty(),
            }),
    {
        let entries = pk_info.to_entries();
        let mut cache = new_names();
        let mut i: usize = 0;
        assert(entries@.take(0) =~= Seq::empty());
        assert(names_in(cache) =~= names_map(entries@.take(0)));
        while i < entries.len()
            invariant
                i <= entries.len(),
                names_in(cache) == names_map(entries@.take(i as int)),
            decreases entries.len() - i,
        {
            assert(entries@.take(i + 1).drop_last() =~= entries@.take(i as int));
            insert_name(&mut cache, entries[i].0.clone(), entries[i].1.clone());
            i = i + 1;
        }
        assert(entries@.take(i as int) =~= entries@);
        let r = PartitionKeyResolver {
            cache,
            in_progress: new_tables(),
            failed_tables: new_failures(),
        };
        assert(r@.in_progress =~= Set::empty());
        assert(r@.failed =~= Map::empty());
        r
    }

    /// The partition key attribute of `table`, where it is known.
    pub fn get_partition_key(&self, table: &str) -> (r: Option<String>)
        ensures
            opt_chars(r) == (if self@.cache.contains_key(table@) {
                Some(self@.cache[table@])
            } else {
                None
            }),
    {
        get_name(&self.cache, table)
    }

    /// Whether `table` is being discovered.
    pub fn is_in_progress(&self, table: &str) -> (r: bool)
        ensures
            r == self@.in_progress.contains(table@),
    {
        has_table(&self.in_progress, table)
    }

    /// How discovering `table` failed, where it did.
    pub fn failure_of(&self, table: &str) -> (r: Option<FailureRecord>)
        ensures
            match r {
                Some(f) => self@.failed.contains_key(table@) && self@.failed[table@] == (
                    f.timestamp_ms,
                    f.permanent,
                ),
                None => !self@.failed.contains_key(table@),
            },
    {
        match get_failure(&self.failed_tables, table) {
            Some((timestamp_ms, permanent)) => Some(FailureRecord { timestamp_ms, permanent }),
            None => None,
        }
    }

    /// Asks for the discovery of the partition key of `table`. Gives the
    /// discovery to run, where one starts; `runtime` tells whether there is a
    /// runtime to run it on.
    pub fn trigger_discovery(&mut self, table_name: &str, now_ms: u64, runtime: bool) -> (r: Option<
        Discovery,
    >)
        ensures
            final(self)@ == triggered(old(self)@, table_name@, now_ms, runtime),
            r is Some <==> starts_discovery(old(self)@, table_name@, now_ms, runtime),
            r matches Some(d) ==> d.table_name@ == table_name@ && d.attempt == 0 && d.valid(),
    {
        if get_name(&self.cache, table_name).is_some() {
            return None;
        }
        if let Some((timestamp_ms, permanent)) = get_failure(&self.failed_tables, table_name) {
            let record = FailureRecord { timestamp_ms, permanent };
            if !record.can_retry(now_ms) {
                return None;
            }
        }
        if !runtime {
            return None;
        }
        let ghost before = self@;
        if !insert_table(&mut self.in_progress, table_name.to_owned()) {
            assert(self@.in_progress =~= before.in_progress);
            return None;
        }
        remove_failure(&mut self.failed_tables, table_name);
        Some(
            Discovery {
                table_name: table_name.to_owned(),
                attempt: 0,
                delay_ms: INITIAL_RETRY_DELAY_MS,
            },
        )
    }

    /// Takes in how a call of a discovery ended, and decides what it does next.
    pub fn discover_with_retry(
        &mut self,
        discovery: &mut Discovery,
        outcome: DescribeOutcome,
        now_ms: u64,
    ) -> (r: DiscoveryStep)
        requires
            old(discovery).valid(),
        ensures
            final(self)@ == after_outcome(
                old(self)@,
                old(discovery).table_name@,
                old(discovery).attempt,
                outcome,
                now_ms,
            ),
            final(discovery).valid(),
            final(discovery).table_name == old(discovery).table_name,
            r is Finished <==> !goes_on(old(discovery).attempt, outcome),
            r is Finished ==> final(discovery).attempt == old(discovery).attempt,
            r matches DiscoveryStep::RetryAfter(delay) ==> {
                let base = old(discovery).delay_ms;
                &&& final(discovery).attempt == old(discovery).attempt + 1
                &&& base - base / JITTER_FRACTION <= delay <= base + base / JITTER_FRACTION
                &&& delay >= 1
            },
    {
        let failure = match outcome {
            DescribeOutcome::Described(schema) => {
                let found = match &schema {
                    Some(schema) => find_hash_key(schema),
                    None => None,
                };
                match found {
                    Some(name) => {
                        insert_name(&mut self.cache, discovery.table_name.clone(), name);
                    },
                    None => {
                        insert_failure(
                            &mut self.failed_tables,
                            discovery.table_name.clone(),
                            (now_ms, true),
                        );
                    },
                }
                remove_table(&mut self.in_progress, discovery.table_name.as_str());
                return DiscoveryStep::Finished;
            },
            DescribeOutcome::Failed(failure) => failure,
        };
        if is_permanent_failure(&failure) {
            insert_failure(&mut self.failed_tables, discovery.table_name.clone(), (now_ms, true));
            remove_table(&mut self.in_progress, discovery.table_name.as_str());
            return DiscoveryStep::Finished;
        }
        if discovery.attempt >= MAX_RETRIES {
            insert_failure(&mut self.failed_tables, discovery.table_name.clone(), (now_ms, false));
            remove_table(&mut self.in_progress, discovery.table_name.as_str());
            return DiscoveryStep::Finished;
        }
        proof {
            lemma_backoff_bound(discovery.attempt as nat);
        }
        let base: u64 = discovery.delay_ms;
        let delay: u64 = calculate_jittered_delay(base);
        let ghost n = discovery.attempt as nat;
        discovery.attempt = discovery.attempt + 1;
        discovery.delay_ms = if base * 2 < MAX_RETRY_DELAY_MS {
            base * 2
        } else {
            MAX_RETRY_DELAY_MS
        };
        assert(backoff(n + 1) == discovery.delay_ms);
        DiscoveryStep::RetryAfter(delay)
    }

    /// Gives up a discovery that was cancelled, so that another can start.
    pub fn abandon(&mut self, table_name: &str)
        ensures
            final(self)@ == (ResolverV {
                in_progress: old(self)@.in_progress.remove(table_name@),
                ..old(self)@
            }),
    {
        remove_table(&mut self.in_progress, table_name);
    }
}

/// Delays stay between the first and the longest.
pub proof fn lemma_backoff_bound(attempt: nat)
    ensures
        INITIAL_RETRY_DELAY_MS <= backoff(attempt) <= MAX_RETRY_DELAY_MS,
    decreases attempt,
{
    if attempt > 0 {
        lemma_backoff_bound((attempt - 1) as nat);
    }
}

/// Delays never shrink.
pub proof fn law_backoff_grows(attempt: nat)
    ensures
        backoff(attempt) <= backoff(attempt + 1),
{
    lemma_backoff_bound(attempt);
}

/// A discovery makes at most one call more than there are retries.
pub proof fn law_retries_are_bounded(attempt: u32, outcome: DescribeOutcome)
    requires
        attempt >= MAX_RETRIES,
    ensures
        !goes_on(attempt, outcome),
{
}

/// A second discovery of a table does not start while the first is under way,
/// however long it takes.
pub proof fn law_one_discovery_at_a_time(
    s: ResolverV,
    table: Seq<char>,
    now_ms: u64,
    later_ms: u64,
    runtime: bool,
)
    requires
        starts_discovery(s, table, now_ms, runtime),
    ensures
        !starts_discovery(triggered(s, table, now_ms, runtime), table, later_ms, runtime),
        triggered(triggered(s, table, now_ms, runtime), table, later_ms, runtime) == triggered(
            s,
            table,
            now_ms,
            runtime,
        ),
{
}

/// A table whose partition key was found is known from then on, and never
/// discovered again.
pub proof fn law_found_key_is_kept(
    s: ResolverV,
    table: Seq<char>,
    attempt: u32,
    schema: Vec<KeySchemaElement>,
    now_ms: u64,
    later_ms: u64,
    runtime: bool,
)
    requires
        hash_key(schema@) is Some,
    ensures
        ({
            let after = after_outcome(
                s,
                table,
                attempt,
                DescribeOutcome::Described(Some(schema)),
                now_ms,
            );
            &&& after.cache.contains_key(table)
            &&& after.cache[table] == hash_key(schema@)->0
            &&& !after.in_progress.contains(table)
            &&& !starts_discovery(after, table, later_ms, runtime)
        }),
{
}

/// A call that ends a discovery frees the table, whatever came of it: known,
/// or failed and eligible again once it may be retried.
pub proof fn law_finished_discovery_frees_table(
    s: ResolverV,
    table: Seq<char>,
    attempt: u32,
    outcome: DescribeOutcome,
    now_ms: u64,
)
    requires
        !goes_on(attempt, outcome),
    ensures
        ({
            let after = after_outcome(s, table, attempt, outcome, now_ms);
            &&& !after.in_progress.contains(table)
            &&& after.cache.contains_key(table) || after.failed.contains_key(table)
        }),
{
}

/// A permanent failure keeps a table from being discovered for the whole
/// cooldown, and no longer.
pub proof fn law_cooldown(s: ResolverV, table: Seq<char>, now_ms: u64, later_ms: u64)
    requires
        !s.cache.contains_key(table),
    ensures
        starts_discovery(with_failure(s, table, now_ms, true), table, later_ms, true) <==> later_ms
            - now_ms > PERMANENT_FAILURE_COOLDOWN_MS,
        starts_discovery(with_failure(s, table, now_ms, false), table, later_ms, true),
{
}

/// The partition key of a described table is its first hash attribute.
pub proof fn law_first_hash_attribute_is_the_key(schema: Seq<KeySchemaElement>, i: int)
    ensures
        0 <= i < schema.len() && schema[i].is_hash && (forall|k: int|
            0 <= k < i ==> !(#[trigger] schema[k]).is_hash) ==> hash_key(schema) == Some(
            schema[i].attribute_name@,
        ),
        (forall|k: int| 0 <= k < schema.len() ==> !(#[trigger] schema[k]).is_hash) ==> hash_key(
            schema,
        ) is None,
    decreases schema.len(),
{
    if schema.len() > 0 {
        let rest = schema.drop_first();
        law_first_hash_attribute_is_the_key(rest, i - 1);
        assert forall|k: int| 0 <= k < rest.len() implies rest[k] == schema[k + 1] by {}
    }
}

/// What a described table leads to: its partition key is known from then on,
/// and where it has none the discovery has failed for good.
pub proof fn law_described_table_is_settled(
    s: ResolverV,
    table: Seq<char>,
    attempt: u32,
    outcome: DescribeOutcome,
    now_ms: u64,
)
    requires
        outcome is Described,
    ensures
        ({
            let after = after_outcome(s, table, attempt, outcome, now_ms);
            let key = match outcome->Described_0 {
                Some(schema) => hash_key(schema@),
                None => None,
            };
            &&& !goes_on(attempt, outcome)
            &&& !after.in_progress.contains(table)
            &&& key matches Some(name) ==> {
                &&& after.cache.contains_key(table) && after.cache[table] == name
                &&& after.failed == s.failed
            }
            &&& key is None ==> {
                &&& after.cache == s.cache
                &&& after.failed.contains_key(table) && after.failed[table] == (now_ms, true)
            }
        }),
{
}

/// What a failed call leads to. A failure that is not permanent is retried three
/// times, with nothing changed meanwhile, and then leaves the table eligible
/// again at once; a permanent one is not retried.
pub proof fn law_failed_calls_are_retried_three_times(
    s: ResolverV,
    table: Seq<char>,
    attempt: u32,
    failure: DescribeFailure,
    now_ms: u64,
)
    ensures
        ({
            let outcome = DescribeOutcome::Failed(failure);
            let after = after_outcome(s, table, attempt, outcome, now_ms);
            &&& goes_on(attempt, outcome) <==> !is_permanent(failure) && attempt < 3
            &&& goes_on(attempt, outcome) ==> after == s
            &&& !goes_on(attempt, outcome) ==> {
                &&& after.cache == s.cache
                &&& !after.in_progress.contains(table)
                &&& after.failed.contains_key(table)
                &&& after.failed[table] == (now_ms, is_permanent(failure))
            }
        }),
{
}

/// A failure is permanent where the table does not exist, where access is
/// denied, where the request is invalid, and where the answer is forbidden; all
/// others pass.
pub proof fn law_permanent_failures(failure: DescribeFailure)
    ensures
        failure.status == Some(403u16) ==> is_permanent(failure),
        failure.service_error matches Some(e) ==> {
            &&& e.is_resource_not_found ==> is_permanent(failure)
            &&& e.code matches Some(code) ==> (code@ == "AccessDeniedException"@ || code@
                == "ValidationException"@) ==> is_permanent(failure)
            &&& !e.is_resource_not_found && failure.status != Some(403u16) && (e.code matches Some(
                code,
            ) ==> code@ != "AccessDeniedException"@ && code@ != "ValidationException"@)
                ==> !is_permanent(failure)
        },
        failure.service_error is None && failure.status != Some(403u16) ==> !is_permanent(failure),
{
}

/// Delays start at a tenth of a second and double up to two seconds.
pub proof fn law_delays_double(attempt: nat)
    ensures
        backoff(0) == 100,
        backoff(attempt + 1) == (if 2 * backoff(attempt) < 2000 {
            2 * backoff(attempt)
        } else {
            2000
        }),
{
}

/// A discovery starts exactly where the key is not known, none is under way,
/// there is a runtime, and a permanent failure is more than five minutes old.
/// It is then under way and the failure forgotten; other tables, and what is
/// known, stay as they are.
pub proof fn law_discovery_starts_where_it_is_due(
    s: ResolverV,
    table: Seq<char>,
    other: Seq<char>,
    now_ms: u64,
    runtime: bool,
)
    ensures
        ({
            let after = triggered(s, table, now_ms, runtime);
            let due = runtime && !s.cache.contains_key(table) && !s.in_progress.contains(table) && (
            s.failed.contains_key(table) && s.failed[table].1 ==> now_ms - s.failed[table].0
                > 300_000);
            &&& starts_discovery(s, table, now_ms, runtime) <==> due
            &&& due ==> after.in_progress.contains(table) && !after.failed.contains_key(table)
            &&& !due ==> after == s
            &&& after.cache == s.cache
            &&& other != table ==> {
                &&& after.in_progress.contains(other) == s.in_progress.contains(other)
                &&& after.failed.contains_key(other) == s.failed.contains_key(other)
                &&& s.failed.contains_key(other) ==> after.failed[other] == s.failed[other]
            }
        }),
{
}

/// An outcome settles its own table and no other.
pub proof fn law_outcomes_leave_other_tables(
    s: ResolverV,
    table: Seq<char>,
    other: Seq<char>,
    attempt: u32,
    outcome: DescribeOutcome,
    now_ms: u64,
)
    requires
        other != table,
    ensures
        ({
            let after = after_outcome(s, table, attempt, outcome, now_ms);
            &&& after.cache.contains_key(other) == s.cache.contains_key(other)
            &&& s.cache.contains_key(other) ==> after.cache[other] == s.cache[other]
            &&& after.in_progress.contains(other) == s.in_progress.contains(other)
            &&& after.failed.contains_key(other) == s.failed.contains_key(other)
            &&& s.failed.contains_key(other) ==> after.failed[other] == s.failed[other]
        }),
{
}

/// Jitter shifts a delay by exactly what was drawn, but never below a
/// millisecond.
pub proof fn law_jitter_shifts_the_delay(base: u64, jitter: int)
    ensures
        shifted_delay(base, jitter) >= 1,
        base + jitter >= 1 ==> shifted_delay(base, jitter) - base == jitter,
        base + jitter < 1 ==> shifted_delay(base, jitter) == 1,
{
}

} // verus!
