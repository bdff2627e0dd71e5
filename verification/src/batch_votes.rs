//! What the plan of a batch depends on: the partition keys of its writes, and
//! neither their order nor anything else in them.

use crate::affinity_plan::{
    affinity_plan, candidate_hash, candidate_hashes, law_ranking_is_in_order,
    law_votes_are_counted, law_votes_ignore_order, lemma_vote_at_found, lemma_votes_empty, nodes_of,
    ranked, ranks_before, tallies, tally, vote_at, votes_for, votes_of,
};
use crate::config::Nanos;
use crate::keyrouting::affinity_config::KeyRouteAffinityType;
use crate::keyrouting::classifier::{
    attribute, batch_candidates, table_candidates, write_attributes, BatchWriteItem, CandidateV,
    DynamoOp, WriteRequest,
};
use crate::live_nodes::LiveNodesV;
use crate::node_url::UrlV;
use crate::query_plan::{
    by_url, hrefs_of, law_preferred_plan_gives_its_order, lemma_preference_by_url, plan_order,
    plan_step, preference, sorted_nodes, PlanV, MAX_NODES,
};
use crate::sorting::law_sorting_keeps_values;
use crate::text;
use vstd::prelude::*;

verus! {

/// A write of a batch, after the name of its table.
pub type BatchWriteV = (Seq<char>, WriteRequest);

/// The writes of one table.
pub open spec fn table_writes(table_name: Seq<char>, writes: Seq<WriteRequest>) -> Seq<
    BatchWriteV,
> {
    Seq::new(writes.len(), |i: int| (table_name, writes[i]))
}

/// The writes of all tables.
pub open spec fn all_writes(items: Seq<(String, Vec<WriteRequest>)>) -> Seq<BatchWriteV>
    decreases items.len(),
{
    if items.len() == 0 {
        Seq::empty()
    } else {
        all_writes(items.drop_last()) + table_writes(items.last().0@, items.last().1@)
    }
}

/// The writes of a batch.
pub open spec fn writes_of(batch: BatchWriteItem) -> Seq<BatchWriteV> {
    match batch.request_items {
        Some(items) => all_writes(items@),
        None => Seq::empty(),
    }
}

/// The hash of the partition key of a write, where the write is usable: the key
/// of its table is known, and the write has a value for it that can be hashed.
pub open spec fn write_hash(cache: Map<Seq<char>, Seq<char>>, write: BatchWriteV) -> Option<u64> {
    match write_attributes(write.1) {
        Some(attributes) => candidate_hash(
            cache,
            CandidateV { table_name: write.0, attributes },
        ),
        None => None,
    }
}

/// The usable writes, in order.
pub open spec fn usable_writes(
    cache: Map<Seq<char>, Seq<char>>,
    writes: Seq<BatchWriteV>,
) -> Seq<BatchWriteV>
    decreases writes.len(),
{
    if writes.len() == 0 {
        writes
    } else {
        let before = usable_writes(cache, writes.drop_last());
        if write_hash(cache, writes.last()) is Some {
            before.push(writes.last())
        } else {
            before
        }
    }
}

/// The hashes of the usable writes, in order.
pub open spec fn write_hashes(cache: Map<Seq<char>, Seq<char>>, writes: Seq<BatchWriteV>) -> Seq<
    u64,
>
    decreases writes.len(),
{
    if writes.len() == 0 {
        Seq::empty()
    } else {
        let before = write_hashes(cache, writes.drop_last());
        match write_hash(cache, writes.last()) {
            Some(h) => before.push(h),
            None => before,
        }
    }
}

/// How many usable writes of a batch prefer the node `href`.
pub open spec fn ballots_for(
    cache: Map<Seq<char>, Seq<char>>,
    live: Seq<UrlV>,
    batch: BatchWriteItem,
    href: Seq<char>,
) -> nat {
    votes_for(sorted_nodes(live), write_hashes(cache, writes_of(batch)), href)
}

/// The URLs of the nodes that a batch is sent to, in the order of its attempts,
/// where it is planned by votes.
pub open spec fn batch_order(
    mode: KeyRouteAffinityType,
    batch: BatchWriteItem,
    cache: Map<Seq<char>, Seq<char>>,
    live: Seq<UrlV>,
) -> Option<Seq<Seq<char>>> {
    match affinity_plan(mode, Some(DynamoOp::BatchWrite(batch)), cache, live) {
        Some(PlanV::Preferred { preferred, .. }) => Some(hrefs_of(preference(preferred, live))),
        _ => None,
    }
}

/// The order of a batch is that of the attempts of its plan, and there is one
/// exactly where there is a plan.
pub proof fn law_batch_order_is_that_of_its_plan(
    mode: KeyRouteAffinityType,
    batch: BatchWriteItem,
    cache: Map<Seq<char>, Seq<char>>,
    nodes: LiveNodesV,
    now: Nanos,
)
    ensures
        match affinity_plan(mode, Some(DynamoOp::BatchWrite(batch)), cache, nodes.live) {
            Some(plan) => batch_order(mode, batch, cache, nodes.live) matches Some(order)
                && hrefs_of(plan_order(plan, nodes, now, order.len())) == order,
            None => batch_order(mode, batch, cache, nodes.live) is None,
        },
{
    let planned = affinity_plan(mode, Some(DynamoOp::BatchWrite(batch)), cache, nodes.live);
    if planned is Some {
        let preferred = planned->0->Preferred_preferred;
        law_preferred_plan_gives_its_order(
            preferred,
            nodes,
            now,
            preference(preferred, nodes.live).len(),
        );
    }
}

proof fn lemma_candidate_hashes_of_both(
    cache: Map<Seq<char>, Seq<char>>,
    a: Seq<CandidateV>,
    b: Seq<CandidateV>,
)
    ensures
        candidate_hashes(cache, a + b) == candidate_hashes(cache, a) + candidate_hashes(cache, b),
    decreases b.len(),
{
    if b.len() == 0 {
        assert(a + b =~= a);
        assert(candidate_hashes(cache, b) =~= Seq::empty());
    } else {
        lemma_candidate_hashes_of_both(cache, a, b.drop_last());
        assert((a + b).drop_last() =~= a + b.drop_last());
        assert((a + b).last() == b.last());
    }
    assert(candidate_hashes(cache, a + b) =~= candidate_hashes(cache, a) + candidate_hashes(
        cache,
        b,
    ));
}

proof fn lemma_write_hashes_of_both(
    cache: Map<Seq<char>, Seq<char>>,
    a: Seq<BatchWriteV>,
    b: Seq<BatchWriteV>,
)
    ensures
        write_hashes(cache, a + b) == write_hashes(cache, a) + write_hashes(cache, b),
    decreases b.len(),
{
    if b.len() == 0 {
        assert(a + b =~= a);
        assert(write_hashes(cache, b) =~= Seq::empty());
    } else {
        lemma_write_hashes_of_both(cache, a, b.drop_last());
        assert((a + b).drop_last() =~= a + b.drop_last());
        assert((a + b).last() == b.last());
    }
    assert(write_hashes(cache, a + b) =~= write_hashes(cache, a) + write_hashes(cache, b));
}

proof fn lemma_table_hashes(
    cache: Map<Seq<char>, Seq<char>>,
    table_name: Seq<char>,
    writes: Seq<WriteRequest>,
)
    ensures
        candidate_hashes(cache, table_candidates(table_name, writes)) == write_hashes(
            cache,
            table_writes(table_name, writes),
        ),
    decreases writes.len(),
{
    if writes.len() > 0 {
        let before = writes.drop_last();
        lemma_table_hashes(cache, table_name, before);
        assert(table_writes(table_name, writes).drop_last() =~= table_writes(table_name, before));
        if write_attributes(writes.last()) is Some {
            let all = table_candidates(table_name, writes);
            assert(all.drop_last() =~= table_candidates(table_name, before));
        }
    }
}

proof fn lemma_batch_hashes(
    cache: Map<Seq<char>, Seq<char>>,
    items: Seq<(String, Vec<WriteRequest>)>,
)
    ensures
        candidate_hashes(cache, batch_candidates(items)) == write_hashes(cache, all_writes(items)),
    decreases items.len(),
{
    if items.len() > 0 {
        let before = items.drop_last();
        let (table, writes) = (items.last().0@, items.last().1@);
        lemma_batch_hashes(cache, before);
        lemma_table_hashes(cache, table, writes);
        lemma_candidate_hashes_of_both(
            cache,
            batch_candidates(before),
            table_candidates(table, writes),
        );
        lemma_write_hashes_of_both(cache, all_writes(before), table_writes(table, writes));
    }
}

proof fn lemma_hashes_without(
    cache: Map<Seq<char>, Seq<char>>,
    writes: Seq<BatchWriteV>,
    i: int,
)
    requires
        0 <= i < writes.len(),
    ensures
        write_hashes(cache, writes).to_multiset() == write_hashes(
            cache,
            writes.remove(i),
        ).to_multiset().add(write_hashes(cache, seq![writes[i]]).to_multiset()),
{
    let (a, b) = (writes.take(i), writes.skip(i + 1));
    let one = seq![writes[i]];
    let (ha, hb, h) = (
        write_hashes(cache, a),
        write_hashes(cache, b),
        write_hashes(cache, one),
    );
    assert(writes =~= a + one + b);
    assert(writes.remove(i) =~= a + b);
    lemma_write_hashes_of_both(cache, a + one, b);
    lemma_write_hashes_of_both(cache, a, one);
    lemma_write_hashes_of_both(cache, a, b);
    vstd::seq_lib::lemma_multiset_commutative(ha + h, hb);
    vstd::seq_lib::lemma_multiset_commutative(ha, h);
    vstd::seq_lib::lemma_multiset_commutative(ha, hb);
    assert(write_hashes(cache, writes).to_multiset() =~= write_hashes(
        cache,
        writes.remove(i),
    ).to_multiset().add(h.to_multiset()));
}

proof fn lemma_hashes_of_reordered(
    cache: Map<Seq<char>, Seq<char>>,
    a: Seq<BatchWriteV>,
    b: Seq<BatchWriteV>,
)
    requires
        a.to_multiset() == b.to_multiset(),
    ensures
        write_hashes(cache, a).to_multiset() == write_hashes(cache, b).to_multiset(),
    decreases b.len(),
{
    broadcast use vstd::seq_lib::group_to_multiset_ensures;

    assert(a.len() == a.to_multiset().len() && b.len() == b.to_multiset().len());
    if b.len() == 0 {
        assert(a =~= b);
    } else {
        let last = b.len() - 1;
        assert(b.contains(b[last]));
        assert(a.to_multiset().count(b[last]) > 0);
        assert(a.contains(b[last]));
        let i = a.index_of(b[last]);
        assert(a.remove(i).to_multiset() =~= a.to_multiset().remove(a[i]));
        assert(b.remove(last).to_multiset() =~= b.to_multiset().remove(b[last]));
        lemma_hashes_of_reordered(cache, a.remove(i), b.remove(last));
        lemma_hashes_without(cache, a, i);
        lemma_hashes_without(cache, b, last);
    }
}

proof fn lemma_hashes_of_usable(cache: Map<Seq<char>, Seq<char>>, writes: Seq<BatchWriteV>)
    ensures
        write_hashes(cache, usable_writes(cache, writes)) == write_hashes(cache, writes),
    decreases writes.len(),
{
    if writes.len() > 0 {
        let before = usable_writes(cache, writes.drop_last());
        lemma_hashes_of_usable(cache, writes.drop_last());
        if write_hash(cache, writes.last()) is Some {
            assert(before.push(writes.last()).drop_last() =~= before);
        }
    }
}

proof fn lemma_plan_by_hashes(
    mode: KeyRouteAffinityType,
    a: BatchWriteItem,
    b: BatchWriteItem,
    cache: Map<Seq<char>, Seq<char>>,
    live: Seq<UrlV>,
)
    requires
        0 < live.len() <= MAX_NODES,
        write_hashes(cache, writes_of(a)).to_multiset() == write_hashes(
            cache,
            writes_of(b),
        ).to_multiset(),
    ensures
        batch_order(mode, a, cache, live) == batch_order(mode, b, cache, live),
{
    broadcast use vstd::seq_lib::group_to_multiset_ensures;

    let (ha, hb) = (write_hashes(cache, writes_of(a)), write_hashes(cache, writes_of(b)));
    lemma_hashes_of_batch(cache, a);
    lemma_hashes_of_batch(cache, b);
    assert(ha.len() == ha.to_multiset().len() && hb.len() == hb.to_multiset().len());
    let nodes = sorted_nodes(live);
    law_sorting_keeps_values(live, by_url());
    law_votes_ignore_order(nodes, ha, hb);
    let (ra, rb) = (ranked(votes_of(nodes, ha)), ranked(votes_of(nodes, hb)));
    assert(tallies(ra).len() == ra.len() && tallies(rb).len() == rb.len());
    assert(hrefs_of(nodes_of(ra)) =~= hrefs_of(nodes_of(rb))) by {
        assert forall|i: int| 0 <= i < ra.len() implies ra[i].0.href == rb[i].0.href by {
            assert(tally(ra[i]) == tallies(ra)[i] && tally(rb[i]) == tallies(rb)[i]);
        }
    }
    lemma_preference_by_url(nodes_of(ra), nodes_of(rb), live);
}

proof fn lemma_hashes_of_batch(cache: Map<Seq<char>, Seq<char>>, batch: BatchWriteItem)
    ensures
        candidate_hashes(
            cache,
            crate::keyrouting::classifier::candidates_of(DynamoOp::BatchWrite(batch)),
        ) == write_hashes(cache, writes_of(batch)),
{
    if batch.request_items is Some {
        lemma_batch_hashes(cache, batch.request_items->0@);
    }
}

/// The plan of a batch does not depend on the order of its writes, nor on that
/// of its tables.
pub proof fn law_batch_plan_ignores_order(
    mode: KeyRouteAffinityType,
    a: BatchWriteItem,
    b: BatchWriteItem,
    cache: Map<Seq<char>, Seq<char>>,
    live: Seq<UrlV>,
)
    requires
        0 < live.len() <= MAX_NODES,
        writes_of(a).to_multiset() == writes_of(b).to_multiset(),
    ensures
        batch_order(mode, a, cache, live) == batch_order(mode, b, cache, live),
{
    lemma_hashes_of_reordered(cache, writes_of(a), writes_of(b));
    lemma_plan_by_hashes(mode, a, b, cache, live);
}

/// Writes that are not usable have no say in the plan of a batch: batches with
/// the same usable writes, in whatever order, have the same plan, whatever
/// other writes they have.
pub proof fn law_batch_plan_ignores_unusable_writes(
    mode: KeyRouteAffinityType,
    a: BatchWriteItem,
    b: BatchWriteItem,
    cache: Map<Seq<char>, Seq<char>>,
    live: Seq<UrlV>,
)
    requires
        0 < live.len() <= MAX_NODES,
        usable_writes(cache, writes_of(a)).to_multiset() == usable_writes(
            cache,
            writes_of(b),
        ).to_multiset(),
    ensures
        batch_order(mode, a, cache, live) == batch_order(mode, b, cache, live),
{
    lemma_hashes_of_usable(cache, writes_of(a));
    lemma_hashes_of_usable(cache, writes_of(b));
    lemma_hashes_of_reordered(
        cache,
        usable_writes(cache, writes_of(a)),
        usable_writes(cache, writes_of(b)),
    );
    lemma_plan_by_hashes(mode, a, b, cache, live);
}

/// The two writes are of one table and have the same partition key, as far as
/// the table's is known.
pub open spec fn same_key(
    cache: Map<Seq<char>, Seq<char>>,
    a: BatchWriteV,
    b: BatchWriteV,
) -> bool {
    a.0 == b.0 && (cache.contains_key(a.0) ==> key_value(cache, a) == key_value(cache, b))
}

/// The value that a write has for the partition key of its table.
pub open spec fn key_value(
    cache: Map<Seq<char>, Seq<char>>,
    write: BatchWriteV,
) -> Option<crate::attribute_value::AttributeValue> {
    match write_attributes(write.1) {
        Some(attributes) => attribute(attributes, cache[write.0]),
        None => None,
    }
}

proof fn lemma_hashes_by_key(
    cache: Map<Seq<char>, Seq<char>>,
    a: Seq<BatchWriteV>,
    b: Seq<BatchWriteV>,
)
    requires
        a.len() == b.len(),
        forall|i: int| 0 <= i < a.len() ==> same_key(cache, #[trigger] a[i], b[i]),
    ensures
        write_hashes(cache, a) == write_hashes(cache, b),
    decreases a.len(),
{
    if a.len() > 0 {
        assert forall|i: int| 0 <= i < a.len() - 1 implies same_key(
            cache,
            #[trigger] a.drop_last()[i],
            b.drop_last()[i],
        ) by {
            assert(a.drop_last()[i] == a[i]);
        }
        lemma_hashes_by_key(cache, a.drop_last(), b.drop_last());
        assert(same_key(cache, a[a.len() - 1], b[a.len() - 1]));
    }
}

/// Attributes other than the partition key have no say in the plan of a batch,
/// and neither has whether an item is put or deleted.
pub proof fn law_batch_plan_ignores_other_attributes(
    mode: KeyRouteAffinityType,
    a: BatchWriteItem,
    b: BatchWriteItem,
    cache: Map<Seq<char>, Seq<char>>,
    live: Seq<UrlV>,
)
    requires
        0 < live.len() <= MAX_NODES,
        writes_of(a).len() == writes_of(b).len(),
        forall|i: int|
            0 <= i < writes_of(a).len() ==> same_key(
                cache,
                #[trigger] writes_of(a)[i],
                writes_of(b)[i],
            ),
    ensures
        batch_order(mode, a, cache, live) == batch_order(mode, b, cache, live),
{
    lemma_hashes_by_key(cache, writes_of(a), writes_of(b));
    lemma_plan_by_hashes(mode, a, b, cache, live);
}

/// A batch with a usable write is sent first to the live node that most of its
/// usable writes prefer, and of several such nodes to the one whose URL comes
/// first.
pub proof fn law_batch_goes_to_the_majority(
    batch: BatchWriteItem,
    cache: Map<Seq<char>, Seq<char>>,
    nodes: LiveNodesV,
    now: Nanos,
)
    requires
        0 < nodes.live.len() <= MAX_NODES,
        usable_writes(cache, writes_of(batch)).len() > 0,
    ensures
        ({
            let plan = affinity_plan(
                KeyRouteAffinityType::AnyWrite,
                Some(DynamoOp::BatchWrite(batch)),
                cache,
                nodes.live,
            );
            &&& plan is Some
            &&& plan_step(plan->0, nodes, now).0 matches Some(first) && {
                &&& nodes.live.contains(first)
                &&& forall|u: UrlV|
                    #![trigger nodes.live.contains(u)]
                    nodes.live.contains(u) && u.href != first.href ==> {
                        let most = ballots_for(cache, nodes.live, batch, first.href);
                        let others = ballots_for(cache, nodes.live, batch, u.href);
                        most > others || (most == others && text::comes_before(
                            first.href,
                            u.href,
                        ))
                    }
            }
        }),
{
    let writes = writes_of(batch);
    let hashes = write_hashes(cache, writes);
    let sorted = sorted_nodes(nodes.live);
    let votes = votes_of(sorted, hashes);
    let ranking = ranked(votes);
    lemma_hashes_of_batch(cache, batch);
    lemma_hashes_of_usable(cache, writes);
    lemma_usable_have_hashes(cache, writes);
    law_sorting_keeps_values(nodes.live, by_url());
    lemma_votes_empty(sorted, hashes);
    law_votes_are_counted(sorted, hashes);
    law_ranking_is_in_order(votes);
    assert(votes.contains(votes[0]));
    assert(ranking.contains(votes[0]));
    let first = ranking[0];
    assert(ranking.contains(first));
    let at = votes.index_of(first);
    assert(votes[at] == first);
    assert(nodes_of(ranking)[0] == first.0);
    assert(sorted.contains(first.0));
    assert forall|u: UrlV|
        #![trigger nodes.live.contains(u)]
        nodes.live.contains(u) && u.href != first.0.href implies {
        let most = ballots_for(cache, nodes.live, batch, first.0.href);
        let others = ballots_for(cache, nodes.live, batch, u.href);
        most > others || (most == others && text::comes_before(first.0.href, u.href))
    } by {
        if votes_for(sorted, hashes, u.href) > 0 {
            lemma_vote_at_found(votes, u.href);
            let k = vote_at(votes, u.href) as int;
            assert(votes.contains(votes[k]));
            assert(ranking.contains(votes[k]));
            let m = ranking.index_of(votes[k]);
            assert(ranks_before(ranking[0], ranking[m]));
        }
    }
}

proof fn lemma_usable_have_hashes(cache: Map<Seq<char>, Seq<char>>, writes: Seq<BatchWriteV>)
    ensures
        write_hashes(cache, writes).len() == usable_writes(cache, writes).len(),
    decreases writes.len(),
{
    if writes.len() > 0 {
        lemma_usable_have_hashes(cache, writes.drop_last());
    }
}

/// A write counts in a batch by the hash that it has when it is sent alone.
pub proof fn law_writes_count_as_they_do_alone(
    cache: Map<Seq<char>, Seq<char>>,
    table: String,
    write: WriteRequest,
    attributes: crate::keyrouting::classifier::Attributes,
    put: crate::keyrouting::classifier::PutItem,
    live: Seq<UrlV>,
)
    requires
        put.table_name == Some(table) && put.item == Some(attributes),
        write.delete == Some(attributes) || (write.delete is None && write.put == Some(
            attributes,
        )),
    ensures
        affinity_plan(KeyRouteAffinityType::AnyWrite, Some(DynamoOp::Put(put)), cache, live) == (
        match write_hash(cache, (table@, write)) {
            Some(h) => Some(
                PlanV::Affinity {
                    rand: crate::keyrouting::go_rand::seeded(crate::query_plan::seed_of(h)),
                    remaining: None,
                },
            ),
            None => None,
        }),
{
}

} // verus!
