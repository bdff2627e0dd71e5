//! The order in which the attempts of one request go to the nodes.

use crate::config::Nanos;
use crate::keyrouting::go_rand::{drawn_below, seeded, GoRand, RandState, MAX_REJECTED};
use crate::live_nodes::{elapsed, has_href, marked, round_robin, used_set, LiveNodes, LiveNodesV};
use crate::node_url;
use crate::node_url::{opt_url, url_views, NodeUrl, UrlV};
use crate::sorting;
use crate::sorting::{sorted, Sortable};
use crate::text;
use vstd::prelude::*;

verus! {

/// How many nodes an affinity plan can choose among.
pub const MAX_NODES: usize = 0x7fff_ffff;

#[derive(Debug)]
enum PlanState {
    RoundRobin { used_nodes: Vec<String> },
    Affinity { go_rand: GoRand, remaining_nodes: Option<Vec<NodeUrl>> },
    Preferred { preferred_nodes: Vec<NodeUrl>, remaining_nodes: Option<Vec<NodeUrl>> },
}

/// The order in which the attempts of one request go to the nodes.
#[derive(Debug)]
pub struct QueryPlan {
    state: PlanState,
}

/// The mathematical value of a [`QueryPlan`].
pub ghost enum PlanV {
    /// The next node of the round that was not used by this request.
    RoundRobin { used: Set<Seq<char>> },
    /// Nodes drawn from those remaining, `None` before the first draw.
    Affinity { rand: RandState, remaining: Option<Seq<UrlV>> },
    /// The preferred nodes, then the other live nodes in order. What remains
    /// is `None` before the first attempt.
    Preferred { preferred: Seq<UrlV>, remaining: Option<Seq<UrlV>> },
}

/// The nodes without the one at `i`, whose place the last one takes.
pub open spec fn picked(nodes: Seq<UrlV>, i: int) -> Seq<UrlV> {
    nodes.update(i, nodes.last()).drop_last()
}

/// The value of the nodes that remain.
pub open spec fn remaining_view(remaining: Option<Vec<NodeUrl>>) -> Option<Seq<UrlV>> {
    match remaining {
        Some(r) => Some(url_views(r@)),
        None => None,
    }
}

/// The nodes that an affinity plan draws from: those remaining, or at first
/// all live nodes.
pub open spec fn to_draw_from(remaining: Option<Seq<UrlV>>, live: Seq<UrlV>) -> Seq<UrlV> {
    match remaining {
        Some(r) => r,
        None => live,
    }
}

/// The node that an affinity plan draws next, and the plan after it.
pub open spec fn affinity_step(
    rand: RandState,
    nodes: Seq<UrlV>,
) -> (Option<UrlV>, RandState, Seq<UrlV>) {
    if nodes.len() == 0 {
        (None, rand, nodes)
    } else {
        let (i, after) = drawn_below(rand, nodes.len() as u64, MAX_REJECTED as nat);
        (Some(nodes[i]), after, picked(nodes, i))
    }
}

/// The order of nodes by their URLs.
pub open spec fn by_url() -> spec_fn(UrlV, UrlV) -> bool {
    |a: UrlV, b: UrlV| text::comes_before(a.href, b.href)
}

impl Sortable for NodeUrl {
    type Key = UrlV;

    open spec fn value(&self) -> UrlV {
        self@
    }

    open spec fn order() -> spec_fn(UrlV, UrlV) -> bool {
        by_url()
    }

    fn goes_before(&self, other: &Self) -> (r: bool) {
        text::is_before(self.as_str(), other.as_str())
    }

    fn copied(&self) -> (r: Self) {
        self.duplicate()
    }
}

/// The live nodes in order.
pub open spec fn sorted_nodes(nodes: Seq<UrlV>) -> Seq<UrlV> {
    sorted(nodes, by_url())
}

/// The nodes that are not among `listed`.
pub open spec fn unlisted(nodes: Seq<UrlV>, listed: Seq<UrlV>) -> Seq<UrlV>
    decreases nodes.len(),
{
    if nodes.len() == 0 {
        nodes
    } else if has_href(listed, nodes.last().href) {
        unlisted(nodes.drop_last(), listed)
    } else {
        unlisted(nodes.drop_last(), listed).push(nodes.last())
    }
}

/// What a preferred plan has left at first: the preferred nodes, then the
/// other live nodes in order.
pub open spec fn preference(preferred: Seq<UrlV>, live: Seq<UrlV>) -> Seq<UrlV> {
    preferred + unlisted(sorted_nodes(live), preferred)
}

/// The live nodes after they were read at `now`, or not.
pub open spec fn nodes_asked(read: bool, nodes: LiveNodesV, now: Nanos) -> LiveNodesV {
    if read {
        marked(nodes, now)
    } else {
        nodes
    }
}

/// The next node of a plan, and the plan and the live nodes after it. Reading
/// the live nodes counts as activity; a plan that has its nodes reads none.
pub open spec fn plan_step(plan: PlanV, nodes: LiveNodesV, now: Nanos) -> (
    Option<UrlV>,
    PlanV,
    LiveNodesV,
) {
    match plan {
        PlanV::RoundRobin { used } => {
            let chosen = round_robin(
                nodes.live,
                nodes.counter as int % nodes.live.len() as int,
                used,
                0,
            );
            (
                chosen,
                match chosen {
                    Some(u) => PlanV::RoundRobin { used: used.insert(u.href) },
                    None => plan,
                },
                LiveNodesV { counter: nodes.counter.wrapping_add(1), ..marked(nodes, now) },
            )
        },
        PlanV::Affinity { rand, remaining } => {
            let (chosen, after, left) = affinity_step(rand, to_draw_from(remaining, nodes.live));
            (
                chosen,
                PlanV::Affinity { rand: after, remaining: Some(left) },
                nodes_asked(remaining is None, nodes, now),
            )
        },
        PlanV::Preferred { preferred, remaining } => {
            let left = match remaining {
                Some(r) => r,
                None => preference(preferred, nodes.live),
            };
            if left.len() == 0 {
                (
                    None,
                    PlanV::Preferred { preferred, remaining: Some(left) },
                    nodes_asked(remaining is None, nodes, now),
                )
            } else {
                (
                    Some(left[0]),
                    PlanV::Preferred { preferred, remaining: Some(left.drop_first()) },
                    nodes_asked(remaining is None, nodes, now),
                )
            }
        },
    }
}

/// The plan has few enough nodes to draw from.
pub open spec fn plan_fits(plan: PlanV, nodes: LiveNodesV) -> bool {
    plan matches PlanV::Affinity { remaining, .. } ==> to_draw_from(remaining, nodes.live).len()
        <= MAX_NODES
}

proof fn lemma_drawn_below(s: RandState, n: u64, rejections: nat)
    requires
        n > 0,
    ensures
        0 <= drawn_below(s, n, rejections).0 < n,
    decreases rejections,
{
    if !(crate::keyrouting::go_rand::int31(s) <= crate::keyrouting::go_rand::last_fair(n)
        || rejections == 0) {
        lemma_drawn_below(crate::keyrouting::go_rand::stepped(s), n, (rejections - 1) as nat);
    }
}

/// A draw takes out the node that is given, and no other.
pub proof fn law_affinity_draw_takes_one(rand: RandState, nodes: Seq<UrlV>)
    requires
        0 < nodes.len() <= MAX_NODES,
    ensures
        ({
            let (chosen, _, left) = affinity_step(rand, nodes);
            &&& chosen is Some
            &&& nodes.contains(chosen->0)
            &&& left.len() == nodes.len() - 1
            &&& left.to_multiset().insert(chosen->0) == nodes.to_multiset()
        }),
{
    broadcast use vstd::seq_lib::group_to_multiset_ensures;

    lemma_drawn_below(rand, nodes.len() as u64, MAX_REJECTED as nat);
    let i = drawn_below(rand, nodes.len() as u64, MAX_REJECTED as nat).0;
    let last = nodes.len() - 1;
    let left = picked(nodes, i);
    if i == last {
        assert(left =~= nodes.drop_last());
        assert(left.push(nodes[i]) =~= nodes);
    } else {
        let swapped = nodes.update(i, nodes.last()).update(last, nodes[i]);
        vstd::seq_lib::lemma_multiset_commutative(left, seq![nodes[i]]);
        assert(left.push(nodes[i]) =~= swapped);
        assert(swapped.to_multiset() =~= nodes.to_multiset()) by {
            lemma_swap_keeps_multiset(nodes, i, last);
        }
    }
}

proof fn lemma_swap_keeps_multiset(nodes: Seq<UrlV>, i: int, j: int)
    requires
        0 <= i < j < nodes.len(),
    ensures
        nodes.update(i, nodes[j]).update(j, nodes[i]).to_multiset() == nodes.to_multiset(),
{
    broadcast use vstd::seq_lib::group_to_multiset_ensures;

    let once = nodes.update(i, nodes[j]);
    let twice = once.update(j, nodes[i]);
    assert(once.to_multiset() == nodes.to_multiset().insert(nodes[j]).remove(nodes[i]));
    assert(twice.to_multiset() == once.to_multiset().insert(nodes[i]).remove(once[j]));
    assert(once[j] == nodes[j]);
    assert(nodes.to_multiset().count(nodes[i]) > 0) by {
        assert(nodes.contains(nodes[i]));
    }
    assert(twice.to_multiset() =~= nodes.to_multiset());
}

/// The nodes that an affinity plan gives in its first `n` attempts.
pub open spec fn affinity_order(rand: RandState, nodes: Seq<UrlV>, n: nat) -> Seq<UrlV>
    decreases n,
{
    let (chosen, after, left) = affinity_step(rand, nodes);
    if n == 0 || chosen is None {
        Seq::empty()
    } else {
        seq![chosen->0] + affinity_order(after, left, (n - 1) as nat)
    }
}

/// An affinity plan gives every live node once, and then no more: what it
/// gives in as many attempts as there are nodes, or more, is all of them. The
/// order depends on the seed and the nodes alone.
pub proof fn law_affinity_plan_gives_every_node_once(rand: RandState, nodes: Seq<UrlV>, n: nat)
    requires
        nodes.len() <= n,
        nodes.len() <= MAX_NODES,
    ensures
        affinity_order(rand, nodes, n).to_multiset() == nodes.to_multiset(),
        affinity_order(rand, nodes, n).len() == nodes.len(),
    decreases n,
{
    broadcast use vstd::seq_lib::group_to_multiset_ensures;

    if nodes.len() == 0 {
        assert(affinity_order(rand, nodes, n) =~= nodes);
    } else {
        law_affinity_draw_takes_one(rand, nodes);
        let (chosen, after, left) = affinity_step(rand, nodes);
        let rest = affinity_order(after, left, (n - 1) as nat);
        law_affinity_plan_gives_every_node_once(after, left, (n - 1) as nat);
        let all = seq![chosen->0] + rest;
        vstd::seq_lib::lemma_multiset_commutative(seq![chosen->0], rest);
        assert(seq![chosen->0].to_multiset() =~= vstd::multiset::Multiset::singleton(chosen->0))
            by {
            assert(seq![chosen->0] =~= Seq::<UrlV>::empty().push(chosen->0));
            assert(Seq::<UrlV>::empty().to_multiset() =~= vstd::multiset::Multiset::empty());
        }
        assert(all.to_multiset() =~= nodes.to_multiset());
    }
}

/// A round robin plan never gives a node twice to one request, and gives one
/// as long as some live node was not used by it.
pub proof fn law_round_robin_plan_never_repeats(
    used: Set<Seq<char>>,
    nodes: LiveNodesV,
    now: Nanos,
)
    requires
        nodes.live.len() > 0,
    ensures
        ({
            let (chosen, after, _) = plan_step(PlanV::RoundRobin { used }, nodes, now);
            match chosen {
                Some(u) => nodes.live.contains(u) && !used.contains(u.href) && after
                    == (PlanV::RoundRobin { used: used.insert(u.href) }),
                None => forall|k: int|
                    0 <= k < nodes.live.len() ==> used.contains((#[trigger] nodes.live[k]).href),
            }
        }),
{
    crate::live_nodes::law_round_robin_gives_an_unused_node(
        nodes.live,
        nodes.counter as int % nodes.live.len() as int,
        used,
    );
}

/// Whenever a plan reads the live nodes, that counts as activity: always where
/// it goes round them, else when it is asked for its first node.
pub proof fn law_reading_nodes_counts_as_activity(plan: PlanV, nodes: LiveNodesV, now: Nanos)
    requires
        match plan {
            PlanV::RoundRobin { .. } => true,
            PlanV::Affinity { remaining, .. } => remaining is None,
            PlanV::Preferred { remaining, .. } => remaining is None,
        },
    ensures
        ({
            let after = plan_step(plan, nodes, now).2;
            &&& after.last_activity == now
            &&& after.wake == (nodes.wake || elapsed(nodes.last_activity, now)
                > nodes.idle_interval)
        }),
{
}

/// The nodes that a plan gives in its first `n` attempts, all at `now`.
pub open spec fn plan_order(plan: PlanV, nodes: LiveNodesV, now: Nanos, n: nat) -> Seq<UrlV>
    decreases n,
{
    let (chosen, after, later) = plan_step(plan, nodes, now);
    if n == 0 || chosen is None {
        Seq::empty()
    } else {
        seq![chosen->0] + plan_order(after, later, now, (n - 1) as nat)
    }
}

proof fn lemma_remaining_order(
    preferred: Seq<UrlV>,
    left: Seq<UrlV>,
    nodes: LiveNodesV,
    now: Nanos,
    n: nat,
)
    requires
        left.len() <= n,
    ensures
        plan_order(PlanV::Preferred { preferred, remaining: Some(left) }, nodes, now, n) == left,
    decreases n,
{
    if left.len() > 0 {
        lemma_remaining_order(preferred, left.drop_first(), nodes, now, (n - 1) as nat);
        assert(seq![left[0]] + left.drop_first() =~= left);
    } else {
        assert(left =~= Seq::empty());
    }
}

/// A plan with preferred nodes gives them, and then the other live nodes in
/// order, each in an attempt of its own, and then no more.
pub proof fn law_preferred_plan_gives_its_order(
    preferred: Seq<UrlV>,
    nodes: LiveNodesV,
    now: Nanos,
    n: nat,
)
    requires
        preference(preferred, nodes.live).len() <= n,
    ensures
        plan_order(PlanV::Preferred { preferred, remaining: None }, nodes, now, n) == preference(
            preferred,
            nodes.live,
        ),
{
    let left = preference(preferred, nodes.live);
    if left.len() > 0 {
        lemma_remaining_order(
            preferred,
            left.drop_first(),
            marked(nodes, now),
            now,
            (n - 1) as nat,
        );
        assert(seq![left[0]] + left.drop_first() =~= left);
    } else {
        assert(left =~= Seq::empty());
    }
}

/// The URLs of nodes.
pub open spec fn hrefs_of(nodes: Seq<UrlV>) -> Seq<Seq<char>> {
    Seq::new(nodes.len(), |i: int| nodes[i].href)
}

/// What a plan with preferred nodes gives depends on the preferred nodes by
/// their URLs alone.
pub(crate) proof fn lemma_preference_by_url(a: Seq<UrlV>, b: Seq<UrlV>, live: Seq<UrlV>)
    requires
        hrefs_of(a) == hrefs_of(b),
    ensures
        hrefs_of(preference(a, live)) == hrefs_of(preference(b, live)),
{
    lemma_unlisted_by_url(sorted_nodes(live), a, b);
    let rest = unlisted(sorted_nodes(live), a);
    assert(a.len() == hrefs_of(a).len() && b.len() == hrefs_of(b).len());
    assert forall|i: int| 0 <= i < a.len() implies a[i].href == b[i].href by {
        assert(hrefs_of(a)[i] == hrefs_of(b)[i]);
    }
    assert(hrefs_of(a + rest) =~= hrefs_of(b + rest));
}

proof fn lemma_unlisted_by_url(nodes: Seq<UrlV>, a: Seq<UrlV>, b: Seq<UrlV>)
    requires
        hrefs_of(a) == hrefs_of(b),
    ensures
        unlisted(nodes, a) == unlisted(nodes, b),
    decreases nodes.len(),
{
    if nodes.len() > 0 {
        let href = nodes.last().href;
        lemma_unlisted_by_url(nodes.drop_last(), a, b);
        lemma_listed_by_url(a, b, href);
        lemma_listed_by_url(b, a, href);
    }
}

proof fn lemma_listed_by_url(a: Seq<UrlV>, b: Seq<UrlV>, href: Seq<char>)
    requires
        hrefs_of(a) == hrefs_of(b),
    ensures
        has_href(a, href) ==> has_href(b, href),
{
    if has_href(a, href) {
        let i = choose|i: int| 0 <= i < a.len() && (#[trigger] a[i]).href == href;
        assert(a.len() == hrefs_of(a).len() && b.len() == hrefs_of(b).len());
        assert(hrefs_of(a)[i] == hrefs_of(b)[i]);
        assert(b[i].href == href);
    }
}

/// The seed of a hash: the same bits, read as a signed number.
pub open spec fn seed_of(hash: u64) -> i64 {
    if hash < 0x8000_0000_0000_0000 {
        hash as i64
    } else {
        (hash - 0x1_0000_0000_0000_0000) as i64
    }
}

fn to_seed(hash: u64) -> (r: i64)
    ensures
        r == seed_of(hash),
{
    if hash < 0x8000_0000_0000_0000 {
        hash as i64
    } else {
        (hash - 0x8000_0000_0000_0000) as i64 - 0x7fff_ffff_ffff_ffff - 1
    }
}

fn sort_nodes(nodes: &Vec<NodeUrl>) -> (r: Vec<NodeUrl>)
    ensures
        url_views(r@) == sorted_nodes(url_views(nodes@)),
{
    let out = sorting::sort(nodes);
    assert(sorting::values_of(nodes@) =~= url_views(nodes@));
    assert(sorting::values_of(out@) =~= url_views(out@));
    out
}

/// Whether some URL of the list is `href`.
pub(crate) fn lists_href(nodes: &Vec<NodeUrl>, href: &str) -> (r: bool)
    ensures
        r == has_href(url_views(nodes@), href@),
{
    let mut i: usize = 0;
    while i < nodes.len()
        invariant
            i <= nodes.len(),
            forall|k: int| 0 <= k < i ==> (#[trigger] url_views(nodes@)[k]).href != href@,
        decreases nodes.len() - i,
    {
        assert(url_views(nodes@)[i as int] == nodes@[i as int]@);
        if text::same(nodes[i].as_str(), href) {
            return true;
        }
        i = i + 1;
    }
    false
}

fn preference_order(preferred: &Vec<NodeUrl>, live: &Vec<NodeUrl>) -> (r: Vec<NodeUrl>)
    ensures
        url_views(r@) == preference(url_views(preferred@), url_views(live@)),
{
    let sorted = sort_nodes(live);
    let ghost first = url_views(preferred@);
    let ghost all = url_views(sorted@);
    let mut out = node_url::duplicate_urls(preferred);
    let mut i: usize = 0;
    assert(url_views(out@) =~= first + unlisted(all.take(0), first));
    while i < sorted.len()
        invariant
            i <= sorted.len(),
            first == url_views(preferred@),
            all == url_views(sorted@),
            url_views(out@) == first + unlisted(all.take(i as int), first),
        decreases sorted.len() - i,
    {
        assert(all.take(i + 1).drop_last() =~= all.take(i as int));
        assert(all[i as int] == sorted@[i as int]@);
        if !lists_href(preferred, sorted[i].as_str()) {
            let ghost before = out@;
            out.push(sorted[i].duplicate());
            assert(url_views(out@) =~= url_views(before).push(all[i as int]));
            assert(url_views(out@) =~= first + unlisted(all.take(i + 1), first));
        }
        i = i + 1;
    }
    assert(all.take(i as int) =~= all);
    out
}

/// The live nodes in order, from which the node that a hash prefers is drawn.
#[derive(Debug)]
pub struct AffinityNodes {
    nodes: Vec<NodeUrl>,
}

/// The node that a hash prefers: the first that an affinity plan with that
/// hash draws from the nodes.
pub open spec fn preferred_node(nodes: Seq<UrlV>, hash: u64) -> Option<UrlV> {
    affinity_step(seeded(seed_of(hash)), nodes).0
}

impl AffinityNodes {
    /// The nodes in order.
    pub closed spec fn view(&self) -> Seq<UrlV> {
        url_views(self.nodes@)
    }

    /// The node that `hash` prefers.
    pub fn preferred_node_for_hash(&self, hash: u64) -> (r: Option<NodeUrl>)
        requires
            self@.len() <= MAX_NODES,
        ensures
            opt_url(r) == preferred_node(self@, hash),
    {
        if self.nodes.len() == 0 {
            return None;
        }
        assert(self@.len() == self.nodes@.len());
        let mut rand = GoRand::new(to_seed(hash));
        let i: i32 = rand.intn(self.nodes.len() as i32);
        let at: usize = i as usize;
        assert(self@[at as int] == self.nodes@[at as int]@);
        Some(self.nodes[at].duplicate())
    }
}

impl QueryPlan {
    /// The value of this plan.
    pub closed spec fn view(&self) -> PlanV {
        match self.state {
            PlanState::RoundRobin { used_nodes } => PlanV::RoundRobin {
                used: used_set(used_nodes@),
            },
            PlanState::Affinity { go_rand, remaining_nodes } => PlanV::Affinity {
                rand: go_rand@,
                remaining: remaining_view(remaining_nodes),
            },
            PlanState::Preferred { preferred_nodes, remaining_nodes } => PlanV::Preferred {
                preferred: url_views(preferred_nodes@),
                remaining: remaining_view(remaining_nodes),
            },
        }
    }

    /// A plan that goes round the live nodes.
    pub fn new_basic() -> (r: Self)
        ensures
            r@ == (PlanV::RoundRobin { used: Set::empty() }),
    {
        let used: Vec<String> = Vec::new();
        assert(used_set(used@) =~= Set::empty());
        QueryPlan { state: PlanState::RoundRobin { used_nodes: used } }
    }

    /// A plan that draws nodes by `seed`.
    pub fn new_with_hash(seed: u64) -> (r: Self)
        ensures
            r@ == (PlanV::Affinity { rand: seeded(seed_of(seed)), remaining: None }),
    {
        QueryPlan {
            state: PlanState::Affinity {
                go_rand: GoRand::new(to_seed(seed)),
                remaining_nodes: None,
            },
        }
    }

    /// A plan that gives the preferred nodes, then the other live nodes in order.
    pub fn new_with_preferred_nodes(preferred_nodes: Vec<NodeUrl>) -> (r: Self)
        ensures
            r@ == (PlanV::Preferred { preferred: url_views(preferred_nodes@), remaining: None }),
    {
        QueryPlan { state: PlanState::Preferred { preferred_nodes, remaining_nodes: None } }
    }

    /// The live nodes in order. Reading them counts as activity.
    pub fn sorted_affinity_nodes(live_nodes: &mut LiveNodes, now: Nanos) -> (r: AffinityNodes)
        ensures
            r@ == sorted_nodes(old(live_nodes)@.live),
            old(live_nodes)@.live.len() > 0,
            final(live_nodes)@ == marked(old(live_nodes)@, now),
    {
        AffinityNodes { nodes: sort_nodes(&live_nodes.get_live_nodes(now)) }
    }

    /// The node for the next attempt, or `None` where the plan is exhausted.
    pub fn next_node(&mut self, live_nodes: &mut LiveNodes, now: Nanos) -> (r: Option<NodeUrl>)
        requires
            plan_fits(old(self)@, old(live_nodes)@),
        ensures
            (opt_url(r), final(self)@, final(live_nodes)@) == plan_step(
                old(self)@,
                old(live_nodes)@,
                now,
            ),
    {
        match &mut self.state {
            PlanState::RoundRobin { used_nodes } => {
                match live_nodes.get_next_node_round_robin(used_nodes, now) {
                    Some(node) => {
                        let ghost before = used_nodes@;
                        used_nodes.push(node.href.clone());
                        proof {
                            lemma_used_push(before, used_nodes@.last());
                            assert(used_nodes@ =~= before.push(used_nodes@.last()));
                        }
                        Some(node)
                    },
                    None => None,
                }
            },
            PlanState::Affinity { go_rand, remaining_nodes } => {
                let mut remaining = match remaining_nodes {
                    Some(nodes) => node_url::duplicate_urls(nodes),
                    None => live_nodes.get_live_nodes(now),
                };
                let n: usize = remaining.len();
                let ghost before = url_views(remaining@);
                assert(before.len() == n);
                if n == 0 {
                    assert(before =~= Seq::empty());
                    *remaining_nodes = Some(remaining);
                    return None;
                }
                let i: i32 = go_rand.intn(n as i32);
                let at: usize = i as usize;
                let chosen = remaining[at].duplicate();
                let last = remaining[n - 1].duplicate();
                remaining[at] = last;
                let _ = remaining.pop();
                assert(url_views(remaining@) =~= picked(before, at as int));
                *remaining_nodes = Some(remaining);
                Some(chosen)
            },
            PlanState::Preferred { preferred_nodes, remaining_nodes } => {
                let mut remaining = match remaining_nodes {
                    Some(nodes) => node_url::duplicate_urls(nodes),
                    None => {
                        let live = live_nodes.get_live_nodes(now);
                        preference_order(preferred_nodes, &live)
                    },
                };
                let ghost before = url_views(remaining@);
                assert(before.len() == remaining@.len());
                if remaining.len() == 0 {
                    *remaining_nodes = Some(remaining);
                    return None;
                }
                let chosen = remaining.remove(0);
                assert(url_views(remaining@) =~= before.drop_first());
                assert(before[0] == chosen@);
                *remaining_nodes = Some(remaining);
                Some(chosen)
            },
        }
    }
}

proof fn lemma_used_push(used: Seq<String>, href: String)
    ensures
        used_set(used.push(href)) == used_set(used).insert(href@),
{
    let all = used.push(href);
    assert forall|h: Seq<char>| used_set(all).contains(h) <==> used_set(used).insert(
        href@,
    ).contains(h) by {
        if used_set(all).contains(h) {
            let i = choose|i: int| 0 <= i < all.len() && (#[trigger] all[i])@ == h;
            if i < used.len() {
                assert(used[i]@ == h);
            }
        }
        if used_set(used).contains(h) {
            let i = choose|i: int| 0 <= i < used.len() && (#[trigger] used[i])@ == h;
            assert(all[i]@ == h);
        }
        if h == href@ {
            assert(all[used.len() as int]@ == h);
        }
    }
    assert(used_set(all) =~= used_set(used).insert(href@));
}

/// The seed of a plan has all the bits of the hash.
pub proof fn law_seed_has_the_bits_of_the_hash(hash: u64)
    ensures
        seed_of(hash) as int % 0x1_0000_0000_0000_0000 == hash,
{
}

/// An affinity plan draws its nodes at random, with the generator that the hash
/// seeds, from those that are left; the place of the one that is drawn is taken
/// by the last one. It starts from the live nodes as they are listed.
pub proof fn law_affinity_plan_draws_from_what_is_left(
    rand: RandState,
    remaining: Option<Seq<UrlV>>,
    nodes: LiveNodesV,
    now: Nanos,
)
    requires
        plan_fits(PlanV::Affinity { rand, remaining }, nodes),
    ensures
        ({
            let from = match remaining {
                Some(r) => r,
                None => nodes.live,
            };
            let (chosen, after, _) = plan_step(PlanV::Affinity { rand, remaining }, nodes, now);
            &&& from.len() == 0 ==> chosen is None
            &&& from.len() > 0 ==> {
                let (i, drawn) = drawn_below(rand, from.len() as u64, 0xffff_ffff_ffff_ffff);
                &&& chosen == Some(from[i])
                &&& after matches PlanV::Affinity { rand: next, remaining: left } && {
                    &&& next == drawn
                    &&& left == Some(
                        Seq::new(
                            (from.len() - 1) as nat,
                            |k: int|
                                if k == i {
                                    from[from.len() - 1]
                                } else {
                                    from[k]
                                },
                        ),
                    )
                }
            }
        }),
{
    let from = to_draw_from(remaining, nodes.live);
    if from.len() > 0 {
        let (i, _) = drawn_below(rand, from.len() as u64, MAX_REJECTED as nat);
        lemma_drawn_below(rand, from.len() as u64, MAX_REJECTED as nat);
        assert(picked(from, i) =~= Seq::new(
            (from.len() - 1) as nat,
            |k: int|
                if k == i {
                    from[from.len() - 1]
                } else {
                    from[k]
                },
        ));
    }
}

/// A round robin plan takes the nodes from the counter on, and moves the counter
/// on by one with each attempt.
pub proof fn law_round_robin_plan_moves_on(nodes: LiveNodesV, now: Nanos)
    requires
        nodes.live.len() > 0,
        nodes.counter < usize::MAX,
    ensures
        ({
            let (chosen, _, after) = plan_step(
                PlanV::RoundRobin { used: Set::empty() },
                nodes,
                now,
            );
            &&& chosen == Some(nodes.live[nodes.counter as int % nodes.live.len() as int])
            &&& after.counter == nodes.counter + 1
            &&& after.live == nodes.live
        }),
{
    crate::live_nodes::law_round_robin_rotates(nodes.live, nodes.counter as nat);
}

/// The live nodes that are not preferred follow the preferred ones in the order
/// of their URLs, and none of them twice: what is preferred is not listed again,
/// and everything else is.
pub proof fn law_other_nodes_follow_the_preferred(
    preferred: Seq<UrlV>,
    live: Seq<UrlV>,
    u: UrlV,
)
    ensures
        preference(preferred, live).take(preferred.len() as int) == preferred,
        live.contains(u) && !has_href(preferred, u.href) <==> preference(preferred, live).skip(
            preferred.len() as int,
        ).contains(u),
{
    let rest = unlisted(sorted_nodes(live), preferred);
    let all = preference(preferred, live);
    assert(all.take(preferred.len() as int) =~= preferred);
    assert(all.skip(preferred.len() as int) =~= rest);
    sorting::law_sorting_keeps_values(live, by_url());
    lemma_unlisted_contains(sorted_nodes(live), preferred, u);
}

proof fn lemma_unlisted_contains(nodes: Seq<UrlV>, listed: Seq<UrlV>, u: UrlV)
    ensures
        unlisted(nodes, listed).contains(u) <==> nodes.contains(u) && !has_href(listed, u.href),
    decreases nodes.len(),
{
    if nodes.len() > 0 {
        let before = nodes.drop_last();
        let last = nodes.last();
        let rest = unlisted(before, listed);
        let all = unlisted(nodes, listed);
        lemma_unlisted_contains(before, listed, u);
        if nodes.contains(u) {
            let i = nodes.index_of(u);
            if i < before.len() {
                assert(before[i] == u);
            }
        }
        if before.contains(u) {
            assert(nodes[before.index_of(u)] == u);
        }
        if rest.contains(u) {
            assert(all[rest.index_of(u)] == u);
        }
        if all.contains(u) && !rest.contains(u) {
            let i = all.index_of(u);
            if i < rest.len() {
                assert(rest[i] == u);
            }
            assert(nodes[nodes.len() - 1] == last);
        }
        if u == last && !has_href(listed, last.href) {
            assert(all[rest.len() as int] == u);
        }
    }
}

/// The live nodes are sorted by their URLs, in the order of a dictionary.
pub proof fn law_live_nodes_are_sorted_by_url(live: Seq<UrlV>, i: int, j: int)
    requires
        0 <= i < j < sorted_nodes(live).len(),
    ensures
        sorted_nodes(live).to_multiset() == live.to_multiset(),
        !text::comes_before(sorted_nodes(live)[j].href, sorted_nodes(live)[i].href),
{
    let order = by_url();
    assert forall|a: UrlV, b: UrlV| #[trigger] order(a, b) implies !order(b, a) by {
        if order(b, a) {
            text::lemma_comes_before_transitive(a.href, b.href, a.href);
            text::lemma_comes_before_irreflexive(a.href);
        }
    }
    assert forall|a: UrlV, b: UrlV, c: UrlV|
        !(#[trigger] order(b, a)) && !(#[trigger] order(c, b)) implies !order(c, a) by {
        text::lemma_comes_before_total(a.href, b.href);
        if order(c, a) && a.href != b.href {
            text::lemma_comes_before_transitive(c.href, a.href, b.href);
        }
    }
    sorting::law_sorting_keeps_values(live, order);
    sorting::law_sorting_puts_in_order(live, order);
    let sorted_live = sorted_nodes(live);
    assert(!order(sorted_live[j], sorted_live[i]));
}

} // verus!
