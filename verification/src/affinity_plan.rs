//! Query plans that follow partition keys.
//!
//! A request that qualifies is planned by the hash of its partition key, so
//! that requests for one key prefer the same coordinator. The writes of a
//! batch vote for the nodes that their keys prefer. Requests that do not
//! qualify, and those of tables whose partition key is not known yet, go round
//! the nodes.

use crate::config::Nanos;
use crate::keyrouting::affinity_config::{KeyRouteAffinityConfig, KeyRouteAffinityType};
use crate::keyrouting::classifier::{
    applies, attribute, candidate_views, candidates_of, find_attribute, Attributes, CandidateV,
    DeleteItem, DynamoOp, PartitionKeyCandidate, PutItem, UpdateItem,
};
use crate::keyrouting::go_rand::seeded;
use crate::keyrouting::hasher::{hash_attribute_value, value_hash};
use crate::keyrouting::resolver::{
    starts_discovery, triggered, Discovery, PartitionKeyResolver, ResolverV,
};
use crate::live_nodes::LiveNodes;
use crate::node_url::{url_views, NodeUrl, UrlV};
use crate::query_plan::{
    by_url, nodes_asked, preferred_node, seed_of, sorted_nodes, AffinityNodes, PlanV, QueryPlan, MAX_NODES,
};
use crate::sorting;
use crate::sorting::{sorted, Sortable};
use crate::text;
use vstd::prelude::*;

verus! {

/// The hash of a candidate's partition key, where its name is known and its
/// value is there and can be hashed.
pub open spec fn candidate_hash(cache: Map<Seq<char>, Seq<char>>, c: CandidateV) -> Option<u64> {
    if !cache.contains_key(c.table_name) {
        None
    } else {
        match attribute(c.attributes, cache[c.table_name]) {
            Some(value) => value_hash(value),
            None => None,
        }
    }
}

/// The resolver after one candidate was looked up: an unknown partition key
/// is asked for.
pub open spec fn looked_up(s: ResolverV, c: CandidateV, now_ms: u64, runtime: bool) -> ResolverV {
    if s.cache.contains_key(c.table_name) {
        s
    } else {
        triggered(s, c.table_name, now_ms, runtime)
    }
}

/// The resolver after all candidates were looked up.
pub open spec fn all_looked_up(
    s: ResolverV,
    candidates: Seq<CandidateV>,
    now_ms: u64,
    runtime: bool,
) -> ResolverV
    decreases candidates.len(),
{
    if candidates.len() == 0 {
        s
    } else {
        looked_up(
            all_looked_up(s, candidates.drop_last(), now_ms, runtime),
            candidates.last(),
            now_ms,
            runtime,
        )
    }
}

/// The tables whose discovery starts while the candidates are looked up.
pub open spec fn tables_started(
    s: ResolverV,
    candidates: Seq<CandidateV>,
    now_ms: u64,
    runtime: bool,
) -> Seq<Seq<char>>
    decreases candidates.len(),
{
    if candidates.len() == 0 {
        Seq::empty()
    } else {
        let before = tables_started(s, candidates.drop_last(), now_ms, runtime);
        let at = all_looked_up(s, candidates.drop_last(), now_ms, runtime);
        if starts_discovery(at, candidates.last().table_name, now_ms, runtime) {
            before.push(candidates.last().table_name)
        } else {
            before
        }
    }
}

/// The hashes of the candidates that have one.
pub open spec fn candidate_hashes(
    cache: Map<Seq<char>, Seq<char>>,
    candidates: Seq<CandidateV>,
) -> Seq<u64>
    decreases candidates.len(),
{
    if candidates.len() == 0 {
        Seq::empty()
    } else {
        let before = candidate_hashes(cache, candidates.drop_last());
        match candidate_hash(cache, candidates.last()) {
            Some(h) => before.push(h),
            None => before,
        }
    }
}

/// A node, and how many votes it has.
pub type VoteV = (UrlV, nat);

/// The position of the node `href` among the votes, or how many there are.
pub open spec fn vote_at(votes: Seq<VoteV>, href: Seq<char>) -> nat
    decreases votes.len(),
{
    if votes.len() == 0 || votes[0].0.href == href {
        0
    } else {
        1 + vote_at(votes.drop_first(), href)
    }
}

/// The votes with one more for `node`.
pub open spec fn with_vote(votes: Seq<VoteV>, node: UrlV) -> Seq<VoteV> {
    let i = vote_at(votes, node.href) as int;
    if i < votes.len() {
        votes.update(i, (votes[i].0, votes[i].1 + 1))
    } else {
        votes.push((node, 1))
    }
}

/// The votes of the hashes: each for the node that it prefers.
pub open spec fn votes_of(nodes: Seq<UrlV>, hashes: Seq<u64>) -> Seq<VoteV>
    decreases hashes.len(),
{
    if hashes.len() == 0 {
        Seq::empty()
    } else {
        with_vote(
            votes_of(nodes, hashes.drop_last()),
            preferred_node(nodes, hashes.last())->0,
        )
    }
}

/// The URL of a node, and how many votes the node has.
pub type TallyV = (Seq<char>, nat);

/// The node with more votes goes first; of nodes with the same number, the one
/// whose URL comes first.
pub open spec fn outranks(a: TallyV, b: TallyV) -> bool {
    a.1 > b.1 || (a.1 == b.1 && text::comes_before(a.0, b.0))
}

/// What the rank of a vote depends on.
pub open spec fn tally(vote: VoteV) -> TallyV {
    (vote.0.href, vote.1)
}

/// What the ranks of the votes depend on.
pub open spec fn tallies(votes: Seq<VoteV>) -> Seq<TallyV> {
    Seq::new(votes.len(), |i: int| tally(votes[i]))
}

/// The first vote goes before the second.
pub open spec fn ranks_before(a: VoteV, b: VoteV) -> bool {
    outranks(tally(a), tally(b))
}

/// The order of votes by their ranks.
pub open spec fn by_rank() -> spec_fn(VoteV, VoteV) -> bool {
    |a: VoteV, b: VoteV| ranks_before(a, b)
}

impl Sortable for (NodeUrl, usize) {
    type Key = VoteV;

    open spec fn value(&self) -> VoteV {
        (self.0@, self.1 as nat)
    }

    open spec fn order() -> spec_fn(VoteV, VoteV) -> bool {
        by_rank()
    }

    fn goes_before(&self, other: &Self) -> (r: bool) {
        self.1 > other.1 || (self.1 == other.1 && text::is_before(
            self.0.as_str(),
            other.0.as_str(),
        ))
    }

    fn copied(&self) -> (r: Self) {
        (self.0.duplicate(), self.1)
    }
}

/// The votes by rank.
pub open spec fn ranked(votes: Seq<VoteV>) -> Seq<VoteV> {
    sorted(votes, by_rank())
}

/// The nodes of the votes.
pub open spec fn nodes_of(votes: Seq<VoteV>) -> Seq<UrlV> {
    Seq::new(votes.len(), |i: int| votes[i].0)
}

/// The values of votes.
pub open spec fn vote_views(votes: Seq<(NodeUrl, usize)>) -> Seq<VoteV> {
    Seq::new(votes.len(), |i: int| (votes[i].0@, votes[i].1 as nat))
}

/// The nodes that were voted for, by rank; `None` where there were no votes.
pub fn vote_preference_order(votes: &Vec<(NodeUrl, usize)>) -> (r: Option<Vec<NodeUrl>>)
    ensures
        r is None <==> votes@.len() == 0,
        r matches Some(nodes) ==> url_views(nodes@) == nodes_of(ranked(vote_views(votes@))),
{
    if votes.len() == 0 {
        return None;
    }
    let ranking = sorting::sort(votes);
    assert(sorting::values_of(votes@) =~= vote_views(votes@));
    assert(sorting::values_of(ranking@) =~= vote_views(ranking@));
    let mut out: Vec<NodeUrl> = Vec::new();
    let mut i: usize = 0;
    while i < ranking.len()
        invariant
            i <= ranking.len(),
            out.len() == i,
            forall|j: int| 0 <= j < i ==> (#[trigger] out@[j])@ == ranking@[j].0@,
        decreases ranking.len() - i,
    {
        out.push(ranking[i].0.duplicate());
        i = i + 1;
    }
    assert(url_views(out@) =~= nodes_of(vote_views(ranking@)));
    Some(out)
}

proof fn lemma_vote_at(votes: Seq<VoteV>, href: Seq<char>, i: int)
    requires
        0 <= i <= votes.len(),
        forall|k: int| 0 <= k < i ==> (#[trigger] votes[k]).0.href != href,
        i == votes.len() || votes[i].0.href == href,
    ensures
        vote_at(votes, href) == i,
    decreases votes.len(),
{
    if i > 0 {
        assert(votes[0].0.href != href);
        assert forall|k: int| 0 <= k < i - 1 implies (
        #[trigger] votes.drop_first()[k]).0.href != href by {
            assert(votes.drop_first()[k] == votes[k + 1]);
        }
        lemma_vote_at(votes.drop_first(), href, i - 1);
    }
}

/// The sum of all votes.
pub open spec fn total_votes(votes: Seq<VoteV>) -> nat
    decreases votes.len(),
{
    if votes.len() == 0 {
        0
    } else {
        total_votes(votes.drop_last()) + votes.last().1
    }
}

proof fn lemma_total_update(votes: Seq<VoteV>, i: int, v: VoteV)
    requires
        0 <= i < votes.len(),
    ensures
        total_votes(votes.update(i, v)) == total_votes(votes) - votes[i].1 + v.1,
        votes[i].1 <= total_votes(votes),
    decreases votes.len(),
{
    let after = votes.update(i, v);
    if i == votes.len() - 1 {
        assert(after.drop_last() =~= votes.drop_last());
    } else {
        assert(after.drop_last() =~= votes.drop_last().update(i, v));
        lemma_total_update(votes.drop_last(), i, v);
    }
}

fn add_vote(votes: &mut Vec<(NodeUrl, usize)>, node: NodeUrl)
    requires
        total_votes(vote_views(old(votes)@)) < usize::MAX,
    ensures
        vote_views(final(votes)@) == with_vote(vote_views(old(votes)@), node@),
        total_votes(vote_views(final(votes)@)) == total_votes(vote_views(old(votes)@)) + 1,
{
    let ghost all = vote_views(votes@);
    let mut i: usize = 0;
    while i < votes.len()
        invariant
            i <= votes.len(),
            votes@ == old(votes)@,
            all == vote_views(votes@),
            total_votes(all) < usize::MAX,
            forall|k: int| 0 <= k < i ==> (#[trigger] all[k]).0.href != node@.href,
        decreases votes.len() - i,
    {
        assert(all[i as int] == (votes@[i as int].0@, votes@[i as int].1 as nat));
        if text::same(votes[i].0.as_str(), node.as_str()) {
            let count: usize = votes[i].1;
            proof {
                lemma_vote_at(all, node@.href, i as int);
                lemma_total_update(all, i as int, (all[i as int].0, all[i as int].1 + 1));
            }
            let copy = votes[i].0.duplicate();
            votes[i] = (copy, count + 1);
            assert(vote_views(votes@) =~= all.update(
                i as int,
                (all[i as int].0, all[i as int].1 + 1),
            ));
            return;
        }
        i = i + 1;
    }
    proof {
        lemma_vote_at(all, node@.href, i as int);
    }
    let ghost view = node@;
    votes.push((node, 1));
    assert(vote_views(votes@) =~= all.push((view, 1)));
    assert(all.push((view, 1)).drop_last() =~= all);
}

/// Builds query plans that follow partition keys.
#[derive(Debug)]
pub struct AffinityQueryPlanInterceptor {
    pub config: KeyRouteAffinityConfig,
}

/// The plan of a request, where it is planned by partition key.
pub open spec fn affinity_plan(
    mode: KeyRouteAffinityType,
    op: Option<DynamoOp>,
    cache: Map<Seq<char>, Seq<char>>,
    live: Seq<UrlV>,
) -> Option<PlanV> {
    if op is None || !applies(op->0, mode) {
        None
    } else if !(op->0 is BatchWrite) {
        if candidates_of(op->0).len() == 0 {
            None
        } else {
            match candidate_hash(cache, candidates_of(op->0)[0]) {
                Some(h) => Some(PlanV::Affinity { rand: seeded(seed_of(h)), remaining: None }),
                None => None,
            }
        }
    } else {
        let hashes = candidate_hashes(cache, candidates_of(op->0));
        if hashes.len() == 0 {
            None
        } else {
            Some(
                PlanV::Preferred {
                    preferred: nodes_of(ranked(votes_of(sorted_nodes(live), hashes))),
                    remaining: None,
                },
            )
        }
    }
}

/// The value of an optional plan.
pub open spec fn plan_view(plan: Option<QueryPlan>) -> Option<PlanV> {
    match plan {
        Some(p) => Some(p@),
        None => None,
    }
}

/// The candidates that are looked up for a request.
pub open spec fn candidates_looked_up(mode: KeyRouteAffinityType, op: Option<DynamoOp>) -> Seq<
    CandidateV,
> {
    if op is None || !applies(op->0, mode) {
        Seq::empty()
    } else {
        candidates_of(op->0)
    }
}

/// The request is a batch that is planned by votes. Only then are the live
/// nodes read while it is planned.
pub open spec fn is_vote(mode: KeyRouteAffinityType, op: Option<DynamoOp>) -> bool {
    op is Some && applies(op->0, mode) && op->0 is BatchWrite
}

/// The tables of discoveries.
pub open spec fn discovery_tables(started: Seq<Discovery>) -> Seq<Seq<char>> {
    Seq::new(started.len(), |i: int| started[i].table_name@)
}

/// All discoveries have just begun.
pub open spec fn all_fresh(started: Seq<Discovery>) -> bool {
    forall|i: int|
        0 <= i < started.len() ==> (#[trigger] started[i]).valid() && started[i].attempt == 0
}

proof fn lemma_lookups_keep_cache(
    s: ResolverV,
    candidates: Seq<CandidateV>,
    now_ms: u64,
    runtime: bool,
)
    ensures
        all_looked_up(s, candidates, now_ms, runtime).cache == s.cache,
    decreases candidates.len(),
{
    if candidates.len() > 0 {
        lemma_lookups_keep_cache(s, candidates.drop_last(), now_ms, runtime);
    }
}

proof fn lemma_hashes_len(cache: Map<Seq<char>, Seq<char>>, candidates: Seq<CandidateV>)
    ensures
        candidate_hashes(cache, candidates).len() <= candidates.len(),
    decreases candidates.len(),
{
    if candidates.len() > 0 {
        lemma_hashes_len(cache, candidates.drop_last());
    }
}

pub(crate) proof fn lemma_votes_empty(nodes: Seq<UrlV>, hashes: Seq<u64>)
    ensures
        votes_of(nodes, hashes).len() == 0 <==> hashes.len() == 0,
    decreases hashes.len(),
{
    if hashes.len() > 0 {
        lemma_votes_empty(nodes, hashes.drop_last());
    }
}

impl AffinityQueryPlanInterceptor {
    /// The hash of a candidate's partition key. An unknown partition key is
    /// asked for, and the discovery that starts is added to `started`.
    fn candidate_partition_key_hash(
        &self,
        candidate: &PartitionKeyCandidate,
        resolver: &mut PartitionKeyResolver,
        now_ms: u64,
        runtime: bool,
        started: &mut Vec<Discovery>,
    ) -> (r: Option<u64>)
        requires
            all_fresh(old(started)@),
        ensures
            r == candidate_hash(old(resolver)@.cache, candidate@),
            final(resolver)@ == looked_up(old(resolver)@, candidate@, now_ms, runtime),
            all_fresh(final(started)@),
            discovery_tables(final(started)@) == (if starts_discovery(
                old(resolver)@,
                candidate@.table_name,
                now_ms,
                runtime,
            ) {
                discovery_tables(old(started)@).push(candidate@.table_name)
            } else {
                discovery_tables(old(started)@)
            }),
    {
        match resolver.get_partition_key(candidate.table_name) {
            Some(name) => match find_attribute(candidate.attributes, name.as_str()) {
                Some(value) => hash_attribute_value(value),
                None => None,
            },
            None => {
                let ghost before = started@;
                if let Some(discovery) = resolver.trigger_discovery(
                    candidate.table_name,
                    now_ms,
                    runtime,
                ) {
                    started.push(discovery);
                    assert(discovery_tables(started@) =~= discovery_tables(before).push(
                        candidate@.table_name,
                    ));
                }
                None
            },
        }
    }

    /// Plans a request by partition key, where that applies and a partition key
    /// is found. The discoveries that start on the way are added to `started`.
    pub fn try_affinity_plan(
        &self,
        op: &Option<DynamoOp>,
        resolver: &mut PartitionKeyResolver,
        live_nodes: &mut LiveNodes,
        now: Nanos,
        now_ms: u64,
        runtime: bool,
        started: &mut Vec<Discovery>,
    ) -> (r: Option<QueryPlan>)
        requires
            all_fresh(old(started)@),
            old(live_nodes)@.live.len() <= MAX_NODES,
        ensures
            plan_view(r) == affinity_plan(
                self.config.affinity_type,
                *op,
                old(resolver)@.cache,
                old(live_nodes)@.live,
            ),
            final(resolver)@ == all_looked_up(
                old(resolver)@,
                candidates_looked_up(self.config.affinity_type, *op),
                now_ms,
                runtime,
            ),
            final(live_nodes)@ == nodes_asked(
                is_vote(self.config.affinity_type, *op),
                old(live_nodes)@,
                now,
            ),
            all_fresh(final(started)@),
            discovery_tables(final(started)@) == discovery_tables(old(started)@) + tables_started(
                old(resolver)@,
                candidates_looked_up(self.config.affinity_type, *op),
                now_ms,
                runtime,
            ),
    {
        let ghost tables = discovery_tables(started@);
        assert(tables + Seq::<Seq<char>>::empty() =~= tables);
        if !self.config.is_enabled() {
            return None;
        }
        let op = match op {
            Some(op) => op,
            None => {
                return None;
            },
        };
        if !op.should_apply(self.config.affinity_type) {
            return None;
        }
        let candidates = op.partition_key_candidates();
        let ghost all = candidate_views(candidates@);
        assert(all.len() == candidates@.len());
        if !matches!(op, DynamoOp::BatchWrite(_)) {
            return self.plan_item(&candidates, resolver, now_ms, runtime, started);
        }
        let nodes = QueryPlan::sorted_affinity_nodes(live_nodes, now);
        proof {
            sorting::law_sorting_keeps_values(old(live_nodes)@.live, by_url());
        }
        self.plan_batch(&candidates, &nodes, resolver, now_ms, runtime, started)
    }

    /// Plans a request for one item by the hash of its partition key.
    fn plan_item(
        &self,
        candidates: &Vec<PartitionKeyCandidate>,
        resolver: &mut PartitionKeyResolver,
        now_ms: u64,
        runtime: bool,
        started: &mut Vec<Discovery>,
    ) -> (r: Option<QueryPlan>)
        requires
            all_fresh(old(started)@),
            candidates@.len() <= 1,
        ensures
            plan_view(r) == (if candidates@.len() == 0 {
                None
            } else {
                match candidate_hash(old(resolver)@.cache, candidate_views(candidates@)[0]) {
                    Some(h) => Some(PlanV::Affinity { rand: seeded(seed_of(h)), remaining: None }),
                    None => None,
                }
            }),
            final(resolver)@ == all_looked_up(
                old(resolver)@,
                candidate_views(candidates@),
                now_ms,
                runtime,
            ),
            all_fresh(final(started)@),
            discovery_tables(final(started)@) == discovery_tables(old(started)@) + tables_started(
                old(resolver)@,
                candidate_views(candidates@),
                now_ms,
                runtime,
            ),
    {
        let ghost all = candidate_views(candidates@);
        let ghost tables = discovery_tables(started@);
        let ghost s = resolver@;
        if candidates.len() == 0 {
            assert(tables + tables_started(s, all, now_ms, runtime) =~= tables);
            return None;
        }
        let hash = self.candidate_partition_key_hash(
            &candidates[0],
            resolver,
            now_ms,
            runtime,
            started,
        );
        proof {
            assert(all[0] == candidates@[0]@);
            assert(all.drop_last() =~= Seq::empty());
            assert(all_looked_up(s, all.drop_last(), now_ms, runtime) == s);
            assert(tables_started(s, all.drop_last(), now_ms, runtime) == Seq::<
                Seq<char>,
            >::empty());
            assert(discovery_tables(started@) =~= tables + tables_started(s, all, now_ms, runtime));
        }
        match hash {
            Some(h) => Some(QueryPlan::new_with_hash(h)),
            None => None,
        }
    }

    /// Plans a batch: its writes vote for the nodes that their keys prefer.
    fn plan_batch(
        &self,
        candidates: &Vec<PartitionKeyCandidate>,
        nodes: &AffinityNodes,
        resolver: &mut PartitionKeyResolver,
        now_ms: u64,
        runtime: bool,
        started: &mut Vec<Discovery>,
    ) -> (r: Option<QueryPlan>)
        requires
            all_fresh(old(started)@),
            0 < nodes@.len() <= MAX_NODES,
        ensures
            ({
                let hashes = candidate_hashes(
                    old(resolver)@.cache,
                    candidate_views(candidates@),
                );
                plan_view(r) == (if hashes.len() == 0 {
                    None
                } else {
                    Some(
                        PlanV::Preferred {
                            preferred: nodes_of(ranked(votes_of(nodes@, hashes))),
                            remaining: None,
                        },
                    )
                })
            }),
            final(resolver)@ == all_looked_up(
                old(resolver)@,
                candidate_views(candidates@),
                now_ms,
                runtime,
            ),
            all_fresh(final(started)@),
            discovery_tables(final(started)@) == discovery_tables(old(started)@) + tables_started(
                old(resolver)@,
                candidate_views(candidates@),
                now_ms,
                runtime,
            ),
    {
        let ghost all = candidate_views(candidates@);
        let ghost s = resolver@;
        let ghost tables = discovery_tables(started@);
        let mut votes: Vec<(NodeUrl, usize)> = Vec::new();
        let mut i: usize = 0;
        assert(vote_views(votes@) =~= votes_of(nodes@, candidate_hashes(s.cache, all.take(0))));
        assert(tables =~= tables + tables_started(s, all.take(0), now_ms, runtime));
        while i < candidates.len()
            invariant
                i <= candidates.len(),
                all == candidate_views(candidates@),
                s == old(resolver)@,
                tables == discovery_tables(old(started)@),
                0 < nodes@.len() <= MAX_NODES,
                all_fresh(started@),
                resolver@ == all_looked_up(s, all.take(i as int), now_ms, runtime),
                discovery_tables(started@) == tables + tables_started(
                    s,
                    all.take(i as int),
                    now_ms,
                    runtime,
                ),
                vote_views(votes@) == votes_of(
                    nodes@,
                    candidate_hashes(s.cache, all.take(i as int)),
                ),
                total_votes(vote_views(votes@)) == candidate_hashes(
                    s.cache,
                    all.take(i as int),
                ).len(),
            decreases candidates.len() - i,
        {
            proof {
                assert(all.take(i + 1).drop_last() =~= all.take(i as int));
                assert(all.take(i + 1).last() == candidates@[i as int]@);
                lemma_lookups_keep_cache(s, all.take(i as int), now_ms, runtime);
                lemma_hashes_len(s.cache, all.take(i as int));
            }
            let ghost hashes = candidate_hashes(s.cache, all.take(i as int));
            let ghost before = started@;
            let hash = self.candidate_partition_key_hash(
                &candidates[i],
                resolver,
                now_ms,
                runtime,
                started,
            );
            assert(discovery_tables(started@) =~= tables + tables_started(
                s,
                all.take(i + 1),
                now_ms,
                runtime,
            ));
            if let Some(h) = hash {
                if let Some(node) = nodes.preferred_node_for_hash(h) {
                    add_vote(&mut votes, node);
                    proof {
                        assert(hashes.push(h).drop_last() =~= hashes);
                        assert(hashes.push(h).last() == h);
                    }
                }
            }
            i = i + 1;
        }
        assert(all.take(i as int) =~= all);
        proof {
            let hashes = candidate_hashes(s.cache, all);
            lemma_votes_empty(nodes@, hashes);
            assert(vote_views(votes@).len() == votes@.len());
        }
        match vote_preference_order(&votes) {
            Some(preferred) => Some(QueryPlan::new_with_preferred_nodes(preferred)),
            None => None,
        }
    }

    /// The plan of a request: by partition key where that applies, else round
    /// the nodes.
    pub fn get_query_plan(
        &self,
        op: &Option<DynamoOp>,
        resolver: &mut PartitionKeyResolver,
        live_nodes: &mut LiveNodes,
        now: Nanos,
        now_ms: u64,
        runtime: bool,
        started: &mut Vec<Discovery>,
    ) -> (r: QueryPlan)
        requires
            all_fresh(old(started)@),
            old(live_nodes)@.live.len() <= MAX_NODES,
        ensures
            r@ == match affinity_plan(
                self.config.affinity_type,
                *op,
                old(resolver)@.cache,
                old(live_nodes)@.live,
            ) {
                Some(plan) => plan,
                None => PlanV::RoundRobin { used: Set::empty() },
            },
            final(resolver)@ == all_looked_up(
                old(resolver)@,
                candidates_looked_up(self.config.affinity_type, *op),
                now_ms,
                runtime,
            ),
            final(live_nodes)@ == nodes_asked(
                is_vote(self.config.affinity_type, *op),
                old(live_nodes)@,
                now,
            ),
            all_fresh(final(started)@),
            discovery_tables(final(started)@) == discovery_tables(old(started)@) + tables_started(
                old(resolver)@,
                candidates_looked_up(self.config.affinity_type, *op),
                now_ms,
                runtime,
            ),
    {
        match self.try_affinity_plan(op, resolver, live_nodes, now, now_ms, runtime, started) {
            Some(plan) => plan,
            None => QueryPlan::new_basic(),
        }
    }
}

/// How many of the hashes prefer the node `href`.
pub open spec fn votes_for(nodes: Seq<UrlV>, hashes: Seq<u64>, href: Seq<char>) -> nat
    decreases hashes.len(),
{
    if hashes.len() == 0 {
        0
    } else {
        votes_for(nodes, hashes.drop_last(), href) + (if preferred_node(
            nodes,
            hashes.last(),
        )->0.href == href {
            1nat
        } else {
            0nat
        })
    }
}

/// No node has two entries.
pub open spec fn one_entry_per_node(votes: Seq<VoteV>) -> bool {
    forall|i: int, j: int|
        0 <= i < j < votes.len() ==> (#[trigger] votes[i]).0.href != (#[trigger] votes[j]).0.href
}

/// The entries tell the votes.
pub open spec fn tells_votes(votes: Seq<VoteV>, nodes: Seq<UrlV>, hashes: Seq<u64>) -> bool {
    &&& one_entry_per_node(votes)
    &&& forall|i: int|
        0 <= i < votes.len() ==> (#[trigger] votes[i]).1 == votes_for(
            nodes,
            hashes,
            votes[i].0.href,
        ) && votes[i].1 > 0 && nodes.contains(votes[i].0)
    &&& forall|href: Seq<char>| #[trigger]
        votes_for(nodes, hashes, href) > 0 ==> vote_at(votes, href) < votes.len()
}

pub(crate) proof fn lemma_vote_at_found(votes: Seq<VoteV>, href: Seq<char>)
    ensures
        vote_at(votes, href) <= votes.len(),
        vote_at(votes, href) < votes.len() ==> votes[vote_at(votes, href) as int].0.href == href,
        vote_at(votes, href) == votes.len() ==> forall|k: int|
            0 <= k < votes.len() ==> (#[trigger] votes[k]).0.href != href,
    decreases votes.len(),
{
    if votes.len() > 0 && votes[0].0.href != href {
        lemma_vote_at_found(votes.drop_first(), href);
        if vote_at(votes, href) == votes.len() {
            assert forall|k: int| 0 <= k < votes.len() implies (
            #[trigger] votes[k]).0.href != href by {
                if k > 0 {
                    assert(votes.drop_first()[k - 1] == votes[k]);
                }
            }
        }
    }
}

/// The entries tell for each node how many hashes prefer it.
pub proof fn law_votes_are_counted(nodes: Seq<UrlV>, hashes: Seq<u64>)
    requires
        0 < nodes.len() <= MAX_NODES,
    ensures
        tells_votes(votes_of(nodes, hashes), nodes, hashes),
    decreases hashes.len(),
{
    if hashes.len() > 0 {
        let before = votes_of(nodes, hashes.drop_last());
        let node = preferred_node(nodes, hashes.last())->0;
        let after = votes_of(nodes, hashes);
        let at = vote_at(before, node.href) as int;
        law_votes_are_counted(nodes, hashes.drop_last());
        crate::query_plan::law_affinity_draw_takes_one(seeded(seed_of(hashes.last())), nodes);
        lemma_vote_at_found(before, node.href);
        if at < before.len() {
            assert forall|i: int, j: int| 0 <= i < j < after.len() implies (
            #[trigger] after[i]).0.href != (#[trigger] after[j]).0.href by {
                assert(before[i].0.href != before[j].0.href);
            }
            assert forall|i: int| 0 <= i < after.len() implies (#[trigger] after[i]).1
                == votes_for(nodes, hashes, after[i].0.href) && after[i].1 > 0 && nodes.contains(
                after[i].0,
            ) by {
                assert(before[i].1 == votes_for(nodes, hashes.drop_last(), before[i].0.href));
                if i < at {
                    assert(before[i].0.href != before[at].0.href);
                } else if i > at {
                    assert(before[at].0.href != before[i].0.href);
                }
            }
        } else {
            assert(votes_for(nodes, hashes.drop_last(), node.href) == 0);
            assert forall|i: int, j: int| 0 <= i < j < after.len() implies (
            #[trigger] after[i]).0.href != (#[trigger] after[j]).0.href by {
                if j < before.len() {
                    assert(before[i].0.href != before[j].0.href);
                } else {
                    assert(before[i].0.href != node.href);
                }
            }
            assert forall|i: int| 0 <= i < after.len() implies (#[trigger] after[i]).1
                == votes_for(nodes, hashes, after[i].0.href) && after[i].1 > 0 && nodes.contains(
                after[i].0,
            ) by {
                if i < before.len() {
                    assert(before[i].1 == votes_for(nodes, hashes.drop_last(), before[i].0.href));
                    assert(before[i].0.href != node.href);
                }
            }
        }
        assert forall|href: Seq<char>| #[trigger] votes_for(nodes, hashes, href) > 0 implies vote_at(
            after,
            href,
        ) < after.len() by {
            lemma_vote_at_found(after, href);
            if href == node.href {
                if at < before.len() {
                    assert(after[at].0.href == href);
                } else {
                    assert(after[before.len() as int].0.href == href);
                }
            } else {
                assert(votes_for(nodes, hashes.drop_last(), href) > 0);
                lemma_vote_at_found(before, href);
                let k = vote_at(before, href) as int;
                assert(after[k].0.href == href);
            }
        }
    }
}

/// The test whether a hash prefers the node `href`.
spec fn preferring(nodes: Seq<UrlV>, href: Seq<char>) -> spec_fn(u64) -> bool {
    |h: u64| preferred_node(nodes, h)->0.href == href
}

proof fn lemma_votes_by_multiset(nodes: Seq<UrlV>, hashes: Seq<u64>, href: Seq<char>)
    ensures
        votes_for(nodes, hashes, href) == hashes.to_multiset().filter(
            preferring(nodes, href),
        ).len(),
    decreases hashes.len(),
{
    broadcast use vstd::seq_lib::group_to_multiset_ensures;

    let f = preferring(nodes, href);
    if hashes.len() == 0 {
        assert(hashes.to_multiset() =~= vstd::multiset::Multiset::empty());
        assert(hashes.to_multiset().filter(f) =~= vstd::multiset::Multiset::empty());
    } else {
        let before = hashes.drop_last();
        let h = hashes.last();
        lemma_votes_by_multiset(nodes, before, href);
        assert(before.push(h) =~= hashes);
        assert(hashes.to_multiset() == before.to_multiset().insert(h));
        if f(h) {
            assert(hashes.to_multiset().filter(f) =~= before.to_multiset().filter(f).insert(h));
        } else {
            assert(hashes.to_multiset().filter(f) =~= before.to_multiset().filter(f));
        }
    }
}

proof fn lemma_ranks_before(a: VoteV, b: VoteV, c: VoteV)
    ensures
        ranks_before(a, b) ==> !ranks_before(b, a),
        ranks_before(a, b) && ranks_before(b, c) ==> ranks_before(a, c),
        a.0.href != b.0.href ==> ranks_before(a, b) || ranks_before(b, a),
{
    text::lemma_comes_before_total(a.0.href, b.0.href);
    if text::comes_before(a.0.href, b.0.href) && text::comes_before(b.0.href, c.0.href) {
        text::lemma_comes_before_transitive(a.0.href, b.0.href, c.0.href);
    }
    if text::comes_before(a.0.href, b.0.href) && text::comes_before(b.0.href, a.0.href) {
        text::lemma_comes_before_transitive(a.0.href, b.0.href, a.0.href);
        text::lemma_comes_before_irreflexive(a.0.href);
    }
}

/// The votes are in the order of their ranks.
pub open spec fn in_rank_order(votes: Seq<VoteV>) -> bool {
    forall|i: int, j: int|
        0 <= i < j < votes.len() ==> ranks_before(#[trigger] votes[i], #[trigger] votes[j])
}

/// A ranking has the votes that are ranked and no other, and is in the order
/// of their ranks: more votes first, then by URL.
pub proof fn law_ranking_is_in_order(votes: Seq<VoteV>)
    requires
        one_entry_per_node(votes),
    ensures
        in_rank_order(ranked(votes)),
        forall|v: VoteV| #[trigger] ranked(votes).contains(v) <==> votes.contains(v),
{
    let order = by_rank();
    let ranking = ranked(votes);
    assert forall|a: VoteV, b: VoteV| #[trigger] order(a, b) implies !order(b, a) by {
        lemma_ranks_before(a, b, a);
    }
    assert forall|a: VoteV, b: VoteV, c: VoteV|
        !(#[trigger] order(b, a)) && !(#[trigger] order(c, b)) implies !order(c, a) by {
        lemma_same_rank(a, b, c);
    }
    sorting::law_sorting_keeps_values(votes, order);
    sorting::law_sorting_puts_in_order(votes, order);
    assert forall|i: int, j: int| 0 <= i < j < ranking.len() implies ranks_before(
        #[trigger] ranking[i],
        #[trigger] ranking[j],
    ) by {
        assert(!order(ranking[j], ranking[i]));
        lemma_ranked_once(votes, i, j);
        lemma_ranks_before(ranking[i], ranking[j], ranking[i]);
    }
}

/// Of two nodes in a ranking, the first has more votes than the second, or as
/// many and a URL that comes before the other's in a dictionary. A ranking
/// gives the nodes that got votes, in this order.
pub proof fn law_more_votes_go_first(votes: Seq<VoteV>, i: int, j: int)
    requires
        one_entry_per_node(votes),
        0 <= i < j < votes.len(),
    ensures
        ranked(votes).len() == votes.len(),
        nodes_of(ranked(votes)).len() == votes.len(),
        nodes_of(ranked(votes))[i] == ranked(votes)[i].0,
        ranked(votes)[i].1 >= ranked(votes)[j].1,
        ranked(votes)[i].1 == ranked(votes)[j].1 ==> text::comes_before(
            ranked(votes)[i].0.href,
            ranked(votes)[j].0.href,
        ),
{
    law_ranking_is_in_order(votes);
    sorting::law_sorting_keeps_values(votes, by_rank());
    ranked(votes).to_multiset_ensures();
    votes.to_multiset_ensures();
    assert(ranks_before(ranked(votes)[i], ranked(votes)[j]));
}

proof fn lemma_same_rank(a: VoteV, b: VoteV, c: VoteV)
    requires
        !ranks_before(b, a),
        !ranks_before(c, b),
    ensures
        !ranks_before(c, a),
{
    text::lemma_comes_before_total(a.0.href, b.0.href);
    text::lemma_comes_before_total(b.0.href, c.0.href);
    if ranks_before(c, a) {
        assert(a.1 >= b.1 && b.1 >= c.1 && c.1 >= a.1);
        if a.0.href != b.0.href {
            text::lemma_comes_before_transitive(c.0.href, a.0.href, b.0.href);
        }
    }
}

proof fn lemma_ranked_once(votes: Seq<VoteV>, i: int, j: int)
    requires
        one_entry_per_node(votes),
        0 <= i < j < ranked(votes).len(),
    ensures
        ranked(votes)[i].0.href != ranked(votes)[j].0.href,
{
    let ranking = ranked(votes);
    sorting::law_sorting_keeps_values(votes, by_rank());
    assert(ranking.contains(ranking[i]) && ranking.contains(ranking[j]));
    let (x, y) = (votes.index_of(ranking[i]), votes.index_of(ranking[j]));
    if x == y {
        // One vote would stand in two places of the ranking.
        assert(votes.no_duplicates()) by {
            assert forall|k: int, l: int|
                0 <= k < votes.len() && 0 <= l < votes.len() && k != l implies votes[k]
                != votes[l] by {
                if k < l {
                    assert(votes[k].0.href != votes[l].0.href);
                } else {
                    assert(votes[l].0.href != votes[k].0.href);
                }
            }
        }
        votes.lemma_multiset_has_no_duplicates();
        ranking.lemma_multiset_has_no_duplicates_conv();
        assert(ranking[i] != ranking[j]);
    } else if x < y {
        assert(votes[x].0.href != votes[y].0.href);
    } else {
        assert(votes[y].0.href != votes[x].0.href);
    }
}

/// The tallies are in the order of their ranks.
pub open spec fn in_tally_order(list: Seq<TallyV>) -> bool {
    forall|i: int, j: int|
        0 <= i < j < list.len() ==> outranks(#[trigger] list[i], #[trigger] list[j])
}

proof fn lemma_not_both(a: TallyV, b: TallyV)
    ensures
        !(outranks(a, b) && outranks(b, a)),
{
    if text::comes_before(a.0, b.0) && text::comes_before(b.0, a.0) {
        text::lemma_comes_before_transitive(a.0, b.0, a.0);
        text::lemma_comes_before_irreflexive(a.0);
    }
}

proof fn lemma_order_unique(a: Seq<TallyV>, b: Seq<TallyV>)
    requires
        in_tally_order(a),
        in_tally_order(b),
        forall|v: TallyV| #[trigger] a.contains(v) <==> b.contains(v),
    ensures
        a == b,
    decreases a.len(),
{
    if a.len() == 0 {
        if b.len() > 0 {
            assert(b.contains(b[0]));
            assert(a.contains(b[0]));
        }
        assert(a =~= b);
    } else {
        assert(a.contains(a[0]));
        assert(b.contains(a[0]));
        let i = b.index_of(a[0]);
        assert(b.contains(b[0]));
        assert(a.contains(b[0]));
        let j = a.index_of(b[0]);
        if a[0] != b[0] {
            assert(outranks(b[0], b[i]));
            assert(outranks(a[0], a[j]));
            lemma_not_both(a[0], b[0]);
        }
        let ra = a.drop_first();
        let rb = b.drop_first();
        assert forall|x: int, y: int| 0 <= x < y < ra.len() implies outranks(
            #[trigger] ra[x],
            #[trigger] ra[y],
        ) by {
            assert(ra[x] == a[x + 1] && ra[y] == a[y + 1]);
        }
        assert forall|x: int, y: int| 0 <= x < y < rb.len() implies outranks(
            #[trigger] rb[x],
            #[trigger] rb[y],
        ) by {
            assert(rb[x] == b[x + 1] && rb[y] == b[y + 1]);
        }
        assert forall|v: TallyV| #[trigger] ra.contains(v) <==> rb.contains(v) by {
            lemma_rest_contains(a, v);
            lemma_rest_contains(b, v);
            assert(a.contains(v) <==> b.contains(v));
        }
        lemma_order_unique(ra, rb);
        assert(a =~= seq![a[0]] + ra);
        assert(b =~= seq![b[0]] + rb);
    }
}

proof fn lemma_rest_contains(a: Seq<TallyV>, v: TallyV)
    requires
        a.len() > 0,
        in_tally_order(a),
    ensures
        a.drop_first().contains(v) <==> a.contains(v) && v != a[0],
{
    let rest = a.drop_first();
    if rest.contains(v) {
        let i = rest.index_of(v);
        assert(a[i + 1] == v);
        assert(outranks(a[0], a[i + 1]));
        lemma_not_both(a[0], a[i + 1]);
    }
    if a.contains(v) && v != a[0] {
        let i = a.index_of(v);
        assert(rest[i - 1] == v);
    }
}

/// The ranking of nodes does not depend on the order of the hashes: hashes
/// that are the same but for their order rank the same URLs, with the same
/// numbers of votes, in the same order.
pub proof fn law_votes_ignore_order(nodes: Seq<UrlV>, hashes: Seq<u64>, others: Seq<u64>)
    requires
        0 < nodes.len() <= MAX_NODES,
        hashes.to_multiset() == others.to_multiset(),
    ensures
        tallies(ranked(votes_of(nodes, hashes))) == tallies(ranked(votes_of(nodes, others))),
{
    let a = ranked(votes_of(nodes, hashes));
    let b = ranked(votes_of(nodes, others));
    law_votes_are_counted(nodes, hashes);
    law_votes_are_counted(nodes, others);
    law_ranking_is_in_order(votes_of(nodes, hashes));
    law_ranking_is_in_order(votes_of(nodes, others));
    lemma_same_tallies(nodes, hashes, others);
    lemma_same_tallies(nodes, others, hashes);
    assert(in_tally_order(tallies(a))) by {
        assert forall|i: int, j: int| 0 <= i < j < a.len() implies outranks(
            #[trigger] tallies(a)[i],
            #[trigger] tallies(a)[j],
        ) by {
            assert(ranks_before(a[i], a[j]));
        }
    }
    assert(in_tally_order(tallies(b))) by {
        assert forall|i: int, j: int| 0 <= i < j < b.len() implies outranks(
            #[trigger] tallies(b)[i],
            #[trigger] tallies(b)[j],
        ) by {
            assert(ranks_before(b[i], b[j]));
        }
    }
    lemma_order_unique(tallies(a), tallies(b));
}

proof fn lemma_same_tallies(nodes: Seq<UrlV>, hashes: Seq<u64>, others: Seq<u64>)
    requires
        0 < nodes.len() <= MAX_NODES,
        hashes.to_multiset() == others.to_multiset(),
    ensures
        forall|v: TallyV|
            tallies(ranked(votes_of(nodes, hashes))).contains(v) ==> #[trigger] tallies(
                ranked(votes_of(nodes, others)),
            ).contains(v),
{
    let (va, vb) = (votes_of(nodes, hashes), votes_of(nodes, others));
    let (a, b) = (ranked(va), ranked(vb));
    law_votes_are_counted(nodes, hashes);
    law_votes_are_counted(nodes, others);
    law_ranking_is_in_order(va);
    law_ranking_is_in_order(vb);
    assert forall|v: TallyV| tallies(a).contains(v) implies #[trigger] tallies(b).contains(v) by {
        let i = tallies(a).index_of(v);
        assert(tally(a[i]) == v);
        assert(a.contains(a[i]));
        let x = va.index_of(a[i]);
        assert(va[x] == a[i]);
        lemma_votes_by_multiset(nodes, hashes, v.0);
        lemma_votes_by_multiset(nodes, others, v.0);
        assert(votes_for(nodes, others, v.0) > 0);
        lemma_vote_at_found(vb, v.0);
        let k = vote_at(vb, v.0) as int;
        assert(vb[k].0.href == v.0);
        assert(vb.contains(vb[k]));
        assert(b.contains(vb[k]));
        let y = b.index_of(vb[k]);
        assert(tallies(b)[y] == v);
    }
}

/// Attributes other than the partition key have no say in where a write goes.
pub proof fn law_only_the_partition_key_counts(
    cache: Map<Seq<char>, Seq<char>>,
    a: CandidateV,
    b: CandidateV,
)
    requires
        a.table_name == b.table_name,
        cache.contains_key(a.table_name) ==> attribute(a.attributes, cache[a.table_name])
            == attribute(b.attributes, cache[a.table_name]),
    ensures
        candidate_hash(cache, a) == candidate_hash(cache, b),
{
}

/// Without affinity no request is planned by partition key.
pub proof fn law_disabled_affinity_plans_nothing(
    op: Option<DynamoOp>,
    cache: Map<Seq<char>, Seq<char>>,
    live: Seq<UrlV>,
)
    ensures
        affinity_plan(KeyRouteAffinityType::Disabled, op, cache, live) is None,
{
}

/// Looking up partition keys for requests never forgets one, and never finds
/// one by itself.
pub proof fn law_lookups_keep_known_keys(
    s: ResolverV,
    candidates: Seq<CandidateV>,
    now_ms: u64,
    runtime: bool,
)
    ensures
        all_looked_up(s, candidates, now_ms, runtime).cache == s.cache,
{
    lemma_lookups_keep_cache(s, candidates, now_ms, runtime);
}

/// Requests for one partition key have one plan, whether they put, update or
/// delete, and they have one wherever the key is known and there is a value of
/// a key's type for it. The plan is seeded with the hash of that value.
pub proof fn law_single_writes_of_a_key_share_a_plan(
    put: PutItem,
    update: UpdateItem,
    delete: DeleteItem,
    table: String,
    attributes: Attributes,
    cache: Map<Seq<char>, Seq<char>>,
    live: Seq<UrlV>,
)
    requires
        put.table_name == Some(table) && put.item == Some(attributes),
        update.table_name == Some(table) && update.key == Some(attributes),
        delete.table_name == Some(table) && delete.key == Some(attributes),
    ensures
        ({
            let mode = KeyRouteAffinityType::AnyWrite;
            let plan = affinity_plan(mode, Some(DynamoOp::Put(put)), cache, live);
            &&& affinity_plan(mode, Some(DynamoOp::Update(update)), cache, live) == plan
            &&& affinity_plan(mode, Some(DynamoOp::Delete(delete)), cache, live) == plan
            &&& cache.contains_key(table@) ==> match attribute(attributes@, cache[table@]) {
                Some(value) => if value is S || value is N || value is B {
                    plan == Some(
                        PlanV::Affinity {
                            rand: seeded(seed_of(value_hash(value)->0)),
                            remaining: None,
                        },
                    )
                } else {
                    plan is None
                },
                None => plan is None,
            }
            &&& !cache.contains_key(table@) ==> plan is None
        }),
{
}

/// A request that qualifies in the narrower mode has the same plan there as in
/// the wider one, and one that does not qualify has none.
pub proof fn law_mode_only_decides_what_qualifies(
    op: DynamoOp,
    cache: Map<Seq<char>, Seq<char>>,
    live: Seq<UrlV>,
)
    ensures
        affinity_plan(KeyRouteAffinityType::Rmw, Some(op), cache, live) == (if applies(
            op,
            KeyRouteAffinityType::Rmw,
        ) {
            affinity_plan(KeyRouteAffinityType::AnyWrite, Some(op), cache, live)
        } else {
            None
        }),
{
}

/// A table whose partition key is not known is asked for when a request names
/// it, and a known one is not asked for again.
pub proof fn law_unknown_keys_are_asked_for(
    s: ResolverV,
    candidates: Seq<CandidateV>,
    k: int,
    now_ms: u64,
)
    requires
        0 <= k < candidates.len(),
        !s.cache.contains_key(candidates[k].table_name),
        !s.failed.contains_key(candidates[k].table_name),
    ensures
        all_looked_up(s, candidates, now_ms, true).in_progress.contains(candidates[k].table_name),
        !s.in_progress.contains(candidates[k].table_name) ==> tables_started(
            s,
            candidates,
            now_ms,
            true,
        ).contains(candidates[k].table_name),
    decreases candidates.len(),
{
    let table = candidates[k].table_name;
    let before = candidates.drop_last();
    let at = all_looked_up(s, before, now_ms, true);
    let started = tables_started(s, before, now_ms, true);
    let all = tables_started(s, candidates, now_ms, true);
    lemma_lookups_keep_cache(s, before, now_ms, true);
    lemma_lookups_only_forget_failures(s, before, table, now_ms);
    if k < before.len() {
        law_unknown_keys_are_asked_for(s, before, k, now_ms);
        if started.contains(table) {
            assert(all[started.index_of(table)] == table);
        }
    } else {
        if starts_discovery(at, table, now_ms, true) {
            assert(all[started.len() as int] == table);
        } else if !s.in_progress.contains(table) {
            lemma_progress_was_started(s, before, table, now_ms);
            assert(all[started.index_of(table)] == table);
        }
    }
}

proof fn lemma_lookups_only_forget_failures(
    s: ResolverV,
    candidates: Seq<CandidateV>,
    table: Seq<char>,
    now_ms: u64,
)
    requires
        !s.failed.contains_key(table),
    ensures
        !all_looked_up(s, candidates, now_ms, true).failed.contains_key(table),
    decreases candidates.len(),
{
    if candidates.len() > 0 {
        lemma_lookups_only_forget_failures(s, candidates.drop_last(), table, now_ms);
    }
}

proof fn lemma_progress_was_started(
    s: ResolverV,
    candidates: Seq<CandidateV>,
    table: Seq<char>,
    now_ms: u64,
)
    requires
        !s.in_progress.contains(table),
        all_looked_up(s, candidates, now_ms, true).in_progress.contains(table),
    ensures
        tables_started(s, candidates, now_ms, true).contains(table),
    decreases candidates.len(),
{
    if candidates.len() > 0 {
        let before = candidates.drop_last();
        let started = tables_started(s, before, now_ms, true);
        let all = tables_started(s, candidates, now_ms, true);
        if all_looked_up(s, before, now_ms, true).in_progress.contains(table) {
            lemma_progress_was_started(s, before, table, now_ms);
            assert(all[started.index_of(table)] == table);
        } else {
            assert(all[started.len() as int] == table);
        }
    }
}

} // verus!
