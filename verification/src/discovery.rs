//! The course of one refresh of the live nodes.
//!
//! A refresh alternates between asking nodes and deciding what to ask next.
//! The decisions are made here; whoever runs the refresh asks the nodes and
//! reports what they answered.

use crate::live_nodes;
use crate::live_nodes::{ascending, has_href, united};
use crate::node_url;
use crate::node_url::{lists_node, opt_url, url_views, NodeUrl, UrlV};
use crate::routing_scope::{RoutingScope, ScopeV};
use std::collections::VecDeque;
use vstd::prelude::*;

verus! {

/// The course of asking for the nodes of the whole cluster.
#[derive(Debug)]
pub struct ClusterDiscovery {
    candidates: Vec<NodeUrl>,
    next: usize,
    found: Vec<NodeUrl>,
    got_response: bool,
}

/// The mathematical value of a [`ClusterDiscovery`].
pub ghost struct ClusterV {
    pub candidates: Seq<UrlV>,
    /// How many candidates were looked at.
    pub next: nat,
    /// The nodes found so far.
    pub found: Seq<UrlV>,
    /// Some node answered.
    pub got_response: bool,
}

/// The first candidate, from the `next`-th on, that is not among the nodes
/// found, or how many candidates there are.
pub open spec fn next_unlisted(s: ClusterV) -> nat
    decreases s.candidates.len() - s.next,
{
    if s.next >= s.candidates.len() {
        s.candidates.len()
    } else if lists_node(s.found, s.candidates[s.next as int]) {
        next_unlisted(ClusterV { next: s.next + 1, ..s })
    } else {
        s.next
    }
}

/// The candidate that is asked next, and the state after it was chosen.
pub open spec fn cluster_step(s: ClusterV) -> (Option<UrlV>, ClusterV) {
    let at = next_unlisted(s);
    if at < s.candidates.len() {
        (Some(s.candidates[at as int]), ClusterV { next: at + 1, ..s })
    } else {
        (None, ClusterV { next: s.candidates.len(), ..s })
    }
}

/// The state after a candidate answered, or could not be asked.
pub open spec fn cluster_answered(s: ClusterV, answer: Option<Seq<UrlV>>) -> ClusterV {
    match answer {
        Some(nodes) => ClusterV { found: united(s.found, nodes), got_response: true, ..s },
        None => s,
    }
}

/// The value of an optional list of nodes.
pub open spec fn opt_nodes(nodes: Option<Vec<NodeUrl>>) -> Option<Seq<UrlV>> {
    match nodes {
        Some(n) => Some(url_views(n@)),
        None => None,
    }
}

impl ClusterDiscovery {
    /// The value of this course.
    pub closed spec fn view(&self) -> ClusterV {
        ClusterV {
            candidates: url_views(self.candidates@),
            next: self.next as nat,
            found: url_views(self.found@),
            got_response: self.got_response,
        }
    }

    /// The nodes found are in order, none twice.
    #[verifier::type_invariant]
    spec fn inv(&self) -> bool {
        self.next <= self.candidates@.len() && ascending(url_views(self.found@))
    }

    /// Asks the candidates in order.
    pub fn new(candidates: Vec<NodeUrl>) -> (r: Self)
        ensures
            r@ == (ClusterV {
                candidates: url_views(candidates@),
                next: 0,
                found: Seq::empty(),
                got_response: false,
            }),
    {
        let found: Vec<NodeUrl> = Vec::new();
        assert(url_views(found@) =~= Seq::empty());
        ClusterDiscovery { candidates, next: 0, found, got_response: false }
    }

    /// The node to ask next. Nodes that others reported already are passed over.
    pub fn next_candidate(&mut self) -> (r: Option<NodeUrl>)
        ensures
            (opt_url(r), final(self)@) == cluster_step(old(self)@),
    {
        proof {
            use_type_invariant(&*self);
        }
        let n: usize = self.candidates.len();
        let mut at: usize = self.next;
        let ghost start = self@;
        while at < n && node_url::node_is_in_list(&self.candidates[at], &self.found)
            invariant
                at <= n == self.candidates@.len(),
                *self == *old(self),
                start == self@,
                next_unlisted(start) == next_unlisted(ClusterV { next: at as nat, ..start }),
            decreases n - at,
        {
            assert(start.candidates[at as int] == self.candidates@[at as int]@);
            at = at + 1;
        }
        if at < n {
            assert(start.candidates[at as int] == self.candidates@[at as int]@);
            let node = self.candidates[at].duplicate();
            self.next = at + 1;
            Some(node)
        } else {
            self.next = n;
            None
        }
    }

    /// Takes in what a candidate answered; `None` where it could not be asked.
    pub fn on_answer(&mut self, answer: Option<Vec<NodeUrl>>)
        ensures
            final(self)@ == cluster_answered(old(self)@, opt_nodes(answer)),
    {
        proof {
            use_type_invariant(&*self);
        }
        if let Some(nodes) = answer {
            let mut found = node_url::duplicate_urls(&self.found);
            live_nodes::unite(&mut found, nodes);
            self.found = found;
            self.got_response = true;
        }
    }

    /// The nodes that were found, in order and none twice; `None` where no node
    /// answered.
    pub fn into_nodes(self) -> (r: Option<Vec<NodeUrl>>)
        ensures
            match r {
                Some(nodes) => self@.got_response && url_views(nodes@) == self@.found && ascending(
                    self@.found,
                ),
                None => !self@.got_response,
            },
    {
        proof {
            use_type_invariant(&self);
        }
        if self.got_response {
            Some(self.found)
        } else {
            None
        }
    }
}

/// A candidate that is passed over was reported by another node, and every
/// answer keeps the nodes found before.
pub proof fn law_skipped_candidates_are_known(s: ClusterV, k: int)
    requires
        s.next <= k < next_unlisted(s),
    ensures
        lists_node(s.found, s.candidates[k]),
    decreases s.candidates.len() - s.next,
{
    if s.next < s.candidates.len() && lists_node(s.found, s.candidates[s.next as int]) {
        if k > s.next {
            law_skipped_candidates_are_known(ClusterV { next: s.next + 1, ..s }, k);
        }
    }
}

/// The course of one refresh.
#[derive(Debug)]
pub struct Refresh {
    scope: RoutingScope,
    candidates: VecDeque<NodeUrl>,
    seeds: Vec<NodeUrl>,
    using_seeds: bool,
    asked: Option<NodeUrl>,
}

/// The mathematical value of a [`Refresh`].
pub ghost struct RefreshV {
    /// The scope that nodes are asked for, and all it falls back to.
    pub scopes: Seq<ScopeV>,
    /// The nodes that can be asked.
    pub candidates: Seq<UrlV>,
    pub seeds: Seq<UrlV>,
    /// The seeds were put among the candidates.
    pub using_seeds: bool,
    /// The node that is being asked.
    pub asked: Option<UrlV>,
}

/// What a refresh does next.
#[derive(Debug)]
pub enum RefreshAction {
    /// Asks this node for the nodes of the current scope.
    AskNode(NodeUrl),
    /// Asks for the nodes of the whole cluster.
    AskCluster,
    /// Ends, and changes nothing.
    End,
}

/// What an answer leads to.
#[derive(Debug)]
pub enum RefreshOutcome {
    /// The refresh goes on.
    Continue,
    /// The refresh ends and changes nothing.
    Unchanged,
    /// The refresh ends, and these are the live nodes.
    Replace(Vec<NodeUrl>),
}

/// The mathematical value of a [`RefreshOutcome`].
pub ghost enum OutcomeV {
    Continue,
    Unchanged,
    Replace(Seq<UrlV>),
}

impl View for RefreshOutcome {
    type V = OutcomeV;

    open spec fn view(&self) -> OutcomeV {
        match self {
            RefreshOutcome::Continue => OutcomeV::Continue,
            RefreshOutcome::Unchanged => OutcomeV::Unchanged,
            RefreshOutcome::Replace(nodes) => OutcomeV::Replace(url_views(nodes@)),
        }
    }
}

/// The state after the next node was chosen.
pub open spec fn refresh_step(s: RefreshV) -> RefreshV {
    if s.candidates.len() == 0 {
        s
    } else {
        RefreshV {
            candidates: s.candidates.drop_first(),
            asked: Some(s.candidates[0]),
            ..s
        }
    }
}

/// What an answer leads to, and the state after it. `None` stands for a node
/// that could not be asked, or a cluster of which no node could.
pub open spec fn refresh_answered(s: RefreshV, answer: Option<Seq<UrlV>>) -> (OutcomeV, RefreshV) {
    match answer {
        None => if s.scopes[0] == ScopeV::Cluster {
            (OutcomeV::Unchanged, RefreshV { asked: None, ..s })
        } else if s.candidates.len() == 0 && !s.using_seeds {
            (
                OutcomeV::Continue,
                RefreshV { candidates: s.seeds, using_seeds: true, asked: None, ..s },
            )
        } else {
            (OutcomeV::Continue, RefreshV { asked: None, ..s })
        },
        Some(nodes) => if nodes.len() > 0 {
            (OutcomeV::Replace(nodes), RefreshV { asked: None, ..s })
        } else if s.scopes.len() > 1 {
            (
                OutcomeV::Continue,
                RefreshV {
                    scopes: s.scopes.drop_first(),
                    candidates: s.candidates.push(s.asked->0),
                    asked: None,
                    ..s
                },
            )
        } else {
            (OutcomeV::Unchanged, RefreshV { asked: None, ..s })
        },
    }
}

/// How many answers a refresh can still get.
pub open spec fn answers_left(s: RefreshV) -> nat {
    s.scopes.len() + s.candidates.len() + (if s.asked is Some {
        1nat
    } else {
        0nat
    }) + (if s.using_seeds {
        0
    } else {
        s.seeds.len()
    })
}

/// Every answer that does not end a refresh leaves one fewer to come, so a
/// refresh ends after at most as many as there are scopes, live nodes and seeds.
pub proof fn law_refresh_ends(s: RefreshV, answer: Option<Seq<UrlV>>)
    ensures
        s.asked is None ==> answers_left(refresh_step(s)) == answers_left(s),
        s.asked is Some && refresh_answered(s, answer).0 is Continue ==> answers_left(
            refresh_answered(s, answer).1,
        ) + 1 == answers_left(s),
{
}

/// The live nodes are only ever replaced by what a node answered, and never by
/// nothing.
pub proof fn law_refresh_never_stores_nothing(s: RefreshV, answer: Option<Seq<UrlV>>)
    ensures
        refresh_answered(s, answer).0 matches OutcomeV::Replace(nodes) ==> answer == Some(nodes)
            && nodes.len() > 0,
        answer is Some && answer->0.len() > 0 ==> refresh_answered(s, answer).0
            == OutcomeV::Replace(answer->0),
{
}

/// A refresh falls back to the next scope only after an empty answer for the
/// current one, and never goes back.
pub proof fn law_fallback_only_after_empty_answer(s: RefreshV, answer: Option<Seq<UrlV>>)
    ensures
        refresh_step(s).scopes == s.scopes,
        refresh_answered(s, answer).1.scopes != s.scopes ==> answer == Some(Seq::<UrlV>::empty())
            && refresh_answered(s, answer).1.scopes == s.scopes.drop_first(),
{
    if answer is Some && answer->0.len() == 0 {
        assert(answer->0 =~= Seq::empty());
    }
}

/// The seeds are put among the candidates at most once, when the last
/// candidate could not be asked.
pub proof fn law_seeds_are_used_once(s: RefreshV, answer: Option<Seq<UrlV>>)
    ensures
        s.using_seeds ==> refresh_answered(s, answer).1.using_seeds,
        refresh_answered(s, answer).1.using_seeds && !s.using_seeds ==> answer is None
            && s.candidates.len() == 0 && refresh_answered(s, answer).1.candidates == s.seeds,
{
}

impl Refresh {
    /// The value of this course.
    pub closed spec fn view(&self) -> RefreshV {
        RefreshV {
            scopes: self.scope.chain(),
            candidates: url_views(self.candidates@),
            seeds: url_views(self.seeds@),
            using_seeds: self.using_seeds,
            asked: opt_url(self.asked),
        }
    }

    #[verifier::type_invariant]
    spec fn inv(&self) -> bool {
        self.scope.valid()
    }

    /// Asks the candidates in order, for the nodes of `scope` first.
    pub fn new(scope: RoutingScope, candidates: Vec<NodeUrl>, seeds: Vec<NodeUrl>) -> (r: Self)
        requires
            scope.valid(),
        ensures
            r@ == (RefreshV {
                scopes: scope.chain(),
                candidates: url_views(candidates@),
                seeds: url_views(seeds@),
                using_seeds: false,
                asked: None,
            }),
    {
        Refresh {
            scope,
            candidates: queue_of(&candidates),
            seeds,
            using_seeds: false,
            asked: None,
        }
    }

    /// The scope that nodes are asked for.
    pub fn scope(&self) -> (r: &RoutingScope)
        ensures
            r.chain() == self@.scopes,
            r.valid(),
    {
        proof {
            use_type_invariant(self);
        }
        &self.scope
    }

    /// Decides what to do next.
    pub fn next_action(&mut self) -> (r: RefreshAction)
        ensures
            final(self)@ == refresh_step(old(self)@),
            r is End <==> old(self)@.candidates.len() == 0,
            r is AskCluster <==> old(self)@.candidates.len() > 0 && old(self)@.scopes[0]
                == ScopeV::Cluster,
            r matches RefreshAction::AskNode(node) ==> node@ == old(self)@.candidates[0],
    {
        proof {
            use_type_invariant(&*self);
        }
        let ghost before = self@;
        let mut candidates = copy_queue(&self.candidates);
        match candidates.pop_front() {
            None => RefreshAction::End,
            Some(node) => {
                let ghost first = node@;
                assert(before.candidates[0] == first);
                assert(url_views(candidates@) =~= before.candidates.drop_first());
                let copy = node.duplicate();
                self.candidates = candidates;
                self.asked = Some(node);
                if self.scope.is_cluster() {
                    RefreshAction::AskCluster
                } else {
                    RefreshAction::AskNode(copy)
                }
            },
        }
    }

    /// Takes in an answer; `None` where the node, or every node of the cluster,
    /// could not be asked.
    pub fn on_answer(&mut self, answer: Option<Vec<NodeUrl>>) -> (r: RefreshOutcome)
        requires
            old(self)@.asked is Some,
        ensures
            (r@, final(self)@) == refresh_answered(old(self)@, opt_nodes(answer)),
    {
        proof {
            use_type_invariant(&*self);
        }
        let ghost before = self@;
        let asked = match &self.asked {
            Some(node) => Some(node.duplicate()),
            None => None,
        };
        self.asked = None;
        match answer {
            None => {
                if self.scope.is_cluster() {
                    return RefreshOutcome::Unchanged;
                }
                if self.candidates.len() == 0 && !self.using_seeds {
                    self.using_seeds = true;
                    let seeds = queue_of(&self.seeds);
                    self.candidates = seeds;
                }
                RefreshOutcome::Continue
            },
            Some(nodes) => {
                if nodes.len() > 0 {
                    return RefreshOutcome::Replace(nodes);
                }
                let next = match self.scope.fallback() {
                    Some(next) => next.duplicate(),
                    None => {
                        proof {
                            self.scope.lemma_chain();
                        }
                        return RefreshOutcome::Unchanged;
                    },
                };
                self.scope = next;
                if let Some(node) = asked {
                    let mut candidates = copy_queue(&self.candidates);
                    candidates.push_back(node);
                    assert(url_views(candidates@) =~= before.candidates.push(node@));
                    self.candidates = candidates;
                }
                RefreshOutcome::Continue
            },
        }
    }
}

fn queue_of(nodes: &Vec<NodeUrl>) -> (r: VecDeque<NodeUrl>)
    ensures
        url_views(r@) == url_views(nodes@),
{
    let mut out: VecDeque<NodeUrl> = VecDeque::new();
    let mut i: usize = 0;
    while i < nodes.len()
        invariant
            i <= nodes.len(),
            out@.len() == i,
            forall|k: int| 0 <= k < i ==> (#[trigger] out@[k])@ == nodes@[k]@,
        decreases nodes.len() - i,
    {
        out.push_back(nodes[i].duplicate());
        i = i + 1;
    }
    assert(url_views(out@) =~= url_views(nodes@));
    out
}

fn copy_queue(nodes: &VecDeque<NodeUrl>) -> (r: VecDeque<NodeUrl>)
    ensures
        url_views(r@) == url_views(nodes@),
        r@.len() == nodes@.len(),
{
    let mut out: VecDeque<NodeUrl> = VecDeque::new();
    let mut i: usize = 0;
    while i < nodes.len()
        invariant
            i <= nodes@.len(),
            out@.len() == i,
            forall|k: int| 0 <= k < i ==> (#[trigger] out@[k])@ == nodes@[k]@,
        decreases nodes@.len() - i,
    {
        out.push_back(nodes[i].duplicate());
        i = i + 1;
    }
    assert(url_views(out@) =~= url_views(nodes@));
    out
}

/// A refresh asks its candidates one after the other, the first one first, and
/// for the scope that it is at.
pub proof fn law_refresh_asks_in_turn(s: RefreshV)
    requires
        s.candidates.len() > 0,
    ensures
        refresh_step(s).asked == Some(s.candidates[0]),
        refresh_step(s).candidates == s.candidates.skip(1),
        refresh_step(s).scopes == s.scopes,
        refresh_step(s).seeds == s.seeds,
        refresh_step(s).using_seeds == s.using_seeds,
{
    assert(s.candidates.skip(1) =~= s.candidates.drop_first());
}

/// A node that cannot be asked is passed over: the others are asked for the
/// same scope, and once all have been tried, the seeds are. Only a cluster of
/// which no node can be asked ends the refresh.
pub proof fn law_failing_node_is_passed_over(s: RefreshV)
    requires
        s.scopes.len() > 0,
    ensures
        ({
            let (outcome, after) = refresh_answered(s, None);
            &&& s.scopes[0] == ScopeV::Cluster ==> outcome == OutcomeV::Unchanged
            &&& s.scopes[0] != ScopeV::Cluster ==> {
                &&& outcome == OutcomeV::Continue
                &&& after.scopes == s.scopes
                &&& s.candidates.len() > 0 || s.using_seeds ==> after.candidates == s.candidates
                    && after.using_seeds == s.using_seeds
                &&& s.candidates.len() == 0 && !s.using_seeds ==> after.candidates == s.seeds
                    && after.using_seeds
            }
        }),
{
}

/// An empty answer moves a refresh on to the next scope, where there is one,
/// and the node that gave it is asked again, after the others. Without another
/// scope the refresh ends and changes nothing.
pub proof fn law_empty_answer_moves_to_the_next_scope(s: RefreshV, node: UrlV)
    requires
        s.scopes.len() > 0,
        s.asked == Some(node),
    ensures
        ({
            let (outcome, after) = refresh_answered(s, Some(Seq::empty()));
            &&& s.scopes.len() == 1 ==> outcome == OutcomeV::Unchanged
            &&& s.scopes.len() > 1 ==> {
                &&& outcome == OutcomeV::Continue
                &&& after.scopes == s.scopes.skip(1)
                &&& after.candidates == s.candidates + seq![node]
                &&& after.using_seeds == s.using_seeds
            }
        }),
{
    assert(s.scopes.skip(1) =~= s.scopes.drop_first());
    assert(s.candidates.push(node) =~= s.candidates + seq![node]);
}

/// A refresh that every node of the first scope answers with nodes ends at the
/// first answer, with those nodes.
pub proof fn law_first_answer_ends_the_refresh(s: RefreshV, nodes: Seq<UrlV>)
    requires
        nodes.len() > 0,
    ensures
        refresh_answered(s, Some(nodes)).0 == OutcomeV::Replace(nodes),
{
}

/// Over a whole cluster every candidate is asked, but for those that others
/// have reported: the next one asked is the first that none has, and there is
/// none only where all the rest were reported.
pub proof fn law_every_unreported_candidate_is_asked(s: ClusterV)
    requires
        s.next <= s.candidates.len(),
    ensures
        ({
            let (chosen, after) = cluster_step(s);
            &&& match chosen {
                Some(u) => {
                    &&& s.next < after.next <= s.candidates.len()
                    &&& u == s.candidates[after.next - 1]
                    &&& !lists_node(s.found, u)
                    &&& forall|k: int|
                        s.next <= k < after.next - 1 ==> lists_node(
                            s.found,
                            #[trigger] s.candidates[k],
                        )
                },
                None => forall|k: int|
                    s.next <= k < s.candidates.len() ==> lists_node(
                        s.found,
                        #[trigger] s.candidates[k],
                    ),
            }
            &&& after.found == s.found
            &&& after.candidates == s.candidates
            &&& after.got_response == s.got_response
        }),
    decreases s.candidates.len() - s.next,
{
    if s.next < s.candidates.len() && lists_node(s.found, s.candidates[s.next as int]) {
        law_every_unreported_candidate_is_asked(ClusterV { next: s.next + 1, ..s });
    }
}

/// An answer of a candidate counts, also an empty one, and adds its nodes; a
/// candidate that cannot be asked changes nothing.
pub proof fn law_answers_of_the_cluster_are_united(s: ClusterV, nodes: Seq<UrlV>, href: Seq<char>)
    requires
        ascending(s.found),
    ensures
        ascending(cluster_answered(s, Some(nodes)).found),
        cluster_answered(s, None) == s,
        cluster_answered(s, Some(nodes)).got_response,
        has_href(cluster_answered(s, Some(nodes)).found, href) <==> has_href(s.found, href)
            || has_href(nodes, href),
{
    live_nodes::law_union_of_answers(s.found, nodes);
}

} // verus!
