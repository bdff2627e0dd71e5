//! Which requests qualify for partition key routing, and where their
//! partition keys can be found.

use crate::attribute_value::AttributeValue;
use crate::keyrouting::affinity_config::KeyRouteAffinityType;
use crate::text;
use vstd::prelude::*;

verus! {

/// The attributes of an item or a key, by name.
pub type Attributes = Vec<(String, AttributeValue)>;

/// Which values a write reports.
#[derive(Debug, Clone, Copy, PartialEq, Eq, Structural)]
pub enum ReturnValue {
    Nothing,
    AllOld,
    UpdatedOld,
    AllNew,
    UpdatedNew,
    /// A value that is not known here.
    Other,
}

/// What a legacy attribute update does.
#[derive(Debug, Clone, Copy, PartialEq, Eq, Structural)]
pub enum AttributeAction {
    Add,
    Put,
    Delete,
    /// An action that is not known here.
    Other,
}

/// A legacy attribute update.
#[derive(Debug, Clone, Copy, PartialEq, Eq, Structural)]
pub struct AttributeUpdate {
    pub action: Option<AttributeAction>,
    pub has_value: bool,
}

/// What the routing of a `PutItem` request depends on.
#[derive(Debug)]
pub struct PutItem {
    pub table_name: Option<String>,
    pub item: Option<Attributes>,
    pub condition_expression: Option<String>,
    /// How many legacy conditions there are.
    pub expected: Option<usize>,
    pub return_values: Option<ReturnValue>,
}

/// What the routing of a `DeleteItem` request depends on.
#[derive(Debug)]
pub struct DeleteItem {
    pub table_name: Option<String>,
    pub key: Option<Attributes>,
    pub condition_expression: Option<String>,
    /// How many legacy conditions there are.
    pub expected: Option<usize>,
    pub return_values: Option<ReturnValue>,
}

/// What the routing of an `UpdateItem` request depends on.
#[derive(Debug)]
pub struct UpdateItem {
    pub table_name: Option<String>,
    pub key: Option<Attributes>,
    pub update_expression: Option<String>,
    pub condition_expression: Option<String>,
    /// How many legacy conditions there are.
    pub expected: Option<usize>,
    pub return_values: Option<ReturnValue>,
    pub attribute_updates: Option<Vec<AttributeUpdate>>,
}

/// One write of a batch: the item that is put, the key that is deleted.
#[derive(Debug)]
pub struct WriteRequest {
    pub put: Option<Attributes>,
    pub delete: Option<Attributes>,
}

/// What the routing of a `BatchWriteItem` request depends on.
#[derive(Debug)]
pub struct BatchWriteItem {
    /// The writes of each table.
    pub request_items: Option<Vec<(String, Vec<WriteRequest>)>>,
}

/// A request that key route affinity looks at.
#[derive(Debug)]
pub enum DynamoOp {
    Put(PutItem),
    Update(UpdateItem),
    Delete(DeleteItem),
    BatchWrite(BatchWriteItem),
}

/// A table, and attributes among which its partition key can be.
#[derive(Debug)]
pub struct PartitionKeyCandidate<'a> {
    pub table_name: &'a str,
    pub attributes: &'a Attributes,
}

/// The mathematical value of a [`PartitionKeyCandidate`].
pub ghost struct CandidateV {
    pub table_name: Seq<char>,
    pub attributes: Seq<(String, AttributeValue)>,
}

impl<'a> PartitionKeyCandidate<'a> {
    /// The value of this candidate.
    pub open spec fn view(&self) -> CandidateV {
        CandidateV { table_name: self.table_name@, attributes: self.attributes@ }
    }
}

/// The values of candidates.
pub open spec fn candidate_views(candidates: Seq<PartitionKeyCandidate>) -> Seq<CandidateV> {
    Seq::new(candidates.len(), |i: int| candidates[i]@)
}

/// The attribute `name`.
pub open spec fn attribute(attributes: Seq<(String, AttributeValue)>, name: Seq<char>) -> Option<
    AttributeValue,
>
    decreases attributes.len(),
{
    if attributes.len() == 0 {
        None
    } else if attributes[0].0@ == name {
        Some(attributes[0].1)
    } else {
        attribute(attributes.drop_first(), name)
    }
}

/// Finds the attribute `name`.
pub fn find_attribute<'a>(attributes: &'a Attributes, name: &str) -> (r: Option<&'a AttributeValue>)
    ensures
        match r {
            Some(v) => attribute(attributes@, name@) == Some(*v),
            None => attribute(attributes@, name@) is None,
        },
{
    let mut i: usize = 0;
    assert(attributes@.skip(0) =~= attributes@);
    while i < attributes.len()
        invariant
            i <= attributes.len(),
            attribute(attributes@, name@) == attribute(attributes@.skip(i as int), name@),
        decreases attributes.len() - i,
    {
        assert(attributes@.skip(i as int)[0] == attributes@[i as int]);
        if text::same(attributes[i].0.as_str(), name) {
            return Some(&attributes[i].1);
        }
        assert(attributes@.skip(i as int).drop_first() =~= attributes@.skip(i + 1));
        i = i + 1;
    }
    None
}

/// The expression is there and not empty.
pub open spec fn is_given(expression: Option<String>) -> bool {
    expression is Some && expression->0@.len() > 0
}

/// There is at least one legacy condition.
pub open spec fn expects(expected: Option<usize>) -> bool {
    expected is Some && expected->0 > 0
}

/// Something is reported.
pub open spec fn reports(return_values: Option<ReturnValue>) -> bool {
    return_values is Some && return_values->0 != ReturnValue::Nothing
}

/// What is reported can only be known by reading the item: its state before
/// the update, or the whole item after it. The updated values alone follow
/// from the request.
pub open spec fn reports_read(return_values: Option<ReturnValue>) -> bool {
    return_values is Some && (return_values->0 == ReturnValue::AllOld || return_values->0
        == ReturnValue::UpdatedOld || return_values->0 == ReturnValue::AllNew)
}

/// The legacy update depends on the old value: adding always does, deleting
/// does where a value is given.
pub open spec fn reads_old_value(u: AttributeUpdate) -> bool {
    u.action == Some(AttributeAction::Add) || (u.action == Some(AttributeAction::Delete)
        && u.has_value)
}

/// Some legacy update depends on the old value.
pub open spec fn some_reads_old_value(updates: Option<Vec<AttributeUpdate>>) -> bool {
    updates is Some && exists|i: int|
        0 <= i < updates->0@.len() && reads_old_value(#[trigger] updates->0@[i])
}

/// The request reads before it writes.
pub open spec fn reads_before_write(op: DynamoOp) -> bool {
    match op {
        DynamoOp::Put(r) => is_given(r.condition_expression) || expects(r.expected) || reports(
            r.return_values,
        ),
        DynamoOp::Delete(r) => is_given(r.condition_expression) || expects(r.expected) || reports(
            r.return_values,
        ),
        DynamoOp::Update(r) => is_given(r.update_expression) || is_given(r.condition_expression)
            || expects(r.expected) || reports_read(r.return_values) || some_reads_old_value(
            r.attribute_updates,
        ),
        DynamoOp::BatchWrite(_) => false,
    }
}

/// The request qualifies for partition key routing.
pub open spec fn applies(op: DynamoOp, mode: KeyRouteAffinityType) -> bool {
    match mode {
        KeyRouteAffinityType::Disabled => false,
        KeyRouteAffinityType::Rmw => reads_before_write(op),
        KeyRouteAffinityType::AnyWrite => true,
    }
}

/// Whatever qualifies among the writes that read first qualifies among all
/// writes, and nothing qualifies where affinity is disabled.
pub proof fn law_modes_are_nested(op: DynamoOp)
    ensures
        applies(op, KeyRouteAffinityType::Rmw) ==> applies(op, KeyRouteAffinityType::AnyWrite),
        !applies(op, KeyRouteAffinityType::Disabled),
{
}

/// The attributes that a write of a batch names: the key of a deletion, else
/// the item that is put.
pub open spec fn write_attributes(write: WriteRequest) -> Option<Seq<(String, AttributeValue)>> {
    match write.delete {
        Some(key) => Some(key@),
        None => match write.put {
            Some(item) => Some(item@),
            None => None,
        },
    }
}

/// The candidates among the writes of one table.
pub open spec fn table_candidates(table_name: Seq<char>, writes: Seq<WriteRequest>) -> Seq<
    CandidateV,
>
    decreases writes.len(),
{
    if writes.len() == 0 {
        Seq::empty()
    } else {
        let before = table_candidates(table_name, writes.drop_last());
        match write_attributes(writes.last()) {
            Some(attributes) => before.push(CandidateV { table_name, attributes }),
            None => before,
        }
    }
}

/// The candidates of a batch.
pub open spec fn batch_candidates(items: Seq<(String, Vec<WriteRequest>)>) -> Seq<CandidateV>
    decreases items.len(),
{
    if items.len() == 0 {
        Seq::empty()
    } else {
        batch_candidates(items.drop_last()) + table_candidates(
            items.last().0@,
            items.last().1@,
        )
    }
}

/// The candidate of a request for one item: its table and its attributes,
/// where it names both.
pub open spec fn item_candidates(table_name: Option<String>, attributes: Option<Attributes>) -> Seq<
    CandidateV,
> {
    match (table_name, attributes) {
        (Some(t), Some(a)) => seq![CandidateV { table_name: t@, attributes: a@ }],
        _ => Seq::empty(),
    }
}

/// Where the partition keys of a request can be found.
pub open spec fn candidates_of(op: DynamoOp) -> Seq<CandidateV> {
    match op {
        DynamoOp::Put(r) => item_candidates(r.table_name, r.item),
        DynamoOp::Update(r) => item_candidates(r.table_name, r.key),
        DynamoOp::Delete(r) => item_candidates(r.table_name, r.key),
        DynamoOp::BatchWrite(r) => match r.request_items {
            Some(items) => batch_candidates(items@),
            None => Seq::empty(),
        },
    }
}

fn given(expression: &Option<String>) -> (r: bool)
    ensures
        r == is_given(*expression),
{
    match expression {
        Some(s) => !s.as_str().is_empty(),
        None => false,
    }
}

fn some_expected(expected: Option<usize>) -> (r: bool)
    ensures
        r == expects(expected),
{
    match expected {
        Some(n) => n > 0,
        None => false,
    }
}

fn some_reported(return_values: Option<ReturnValue>) -> (r: bool)
    ensures
        r == reports(return_values),
{
    match return_values {
        Some(v) => v != ReturnValue::Nothing,
        None => false,
    }
}

fn should_apply_put(mode: KeyRouteAffinityType, r: &PutItem) -> (b: bool)
    requires
        mode != KeyRouteAffinityType::Disabled,
    ensures
        b == applies(DynamoOp::Put(*r), mode),
{
    if mode == KeyRouteAffinityType::AnyWrite {
        return true;
    }
    given(&r.condition_expression) || some_expected(r.expected) || some_reported(r.return_values)
}

fn should_apply_delete(mode: KeyRouteAffinityType, r: &DeleteItem) -> (b: bool)
    requires
        mode != KeyRouteAffinityType::Disabled,
    ensures
        b == applies(DynamoOp::Delete(*r), mode),
{
    if mode == KeyRouteAffinityType::AnyWrite {
        return true;
    }
    given(&r.condition_expression) || some_expected(r.expected) || some_reported(r.return_values)
}

fn should_apply_update(mode: KeyRouteAffinityType, r: &UpdateItem) -> (b: bool)
    requires
        mode != KeyRouteAffinityType::Disabled,
    ensures
        b == applies(DynamoOp::Update(*r), mode),
{
    if mode == KeyRouteAffinityType::AnyWrite {
        return true;
    }
    if given(&r.update_expression) || given(&r.condition_expression) || some_expected(r.expected) {
        return true;
    }
    if let Some(v) = r.return_values {
        if v == ReturnValue::AllOld || v == ReturnValue::UpdatedOld || v == ReturnValue::AllNew {
            return true;
        }
    }
    if let Some(updates) = &r.attribute_updates {
        let mut i: usize = 0;
        while i < updates.len()
            invariant
                i <= updates.len(),
                r.attribute_updates == Some(*updates),
                mode == KeyRouteAffinityType::Rmw,
                forall|k: int| 0 <= k < i ==> !reads_old_value(#[trigger] updates@[k]),
            decreases updates.len() - i,
        {
            let u = updates[i];
            match u.action {
                Some(AttributeAction::Add) => {
                    assert(reads_old_value(r.attribute_updates->0@[i as int]));
                    return true;
                },
                Some(AttributeAction::Delete) => {
                    if u.has_value {
                        assert(reads_old_value(r.attribute_updates->0@[i as int]));
                        return true;
                    }
                },
                _ => {},
            }
            i = i + 1;
        }
    }
    false
}

fn batch_write_request_attributes(write: &WriteRequest) -> (r: Option<&Attributes>)
    ensures
        match r {
            Some(a) => write_attributes(*write) == Some(a@),
            None => write_attributes(*write) is None,
        },
{
    match &write.delete {
        Some(key) => Some(key),
        None => match &write.put {
            Some(item) => Some(item),
            None => None,
        },
    }
}

fn item_candidate<'a>(table_name: &'a Option<String>, attributes: &'a Option<Attributes>) -> (r: Vec<
    PartitionKeyCandidate<'a>,
>)
    ensures
        candidate_views(r@) == item_candidates(*table_name, *attributes),
{
    let mut out: Vec<PartitionKeyCandidate<'a>> = Vec::new();
    if let Some(t) = table_name {
        if let Some(a) = attributes {
            out.push(PartitionKeyCandidate { table_name: t.as_str(), attributes: a });
        }
    }
    assert(candidate_views(out@) =~= item_candidates(*table_name, *attributes));
    out
}

impl DynamoOp {
    /// Whether this request qualifies for partition key routing.
    pub fn should_apply(&self, mode: KeyRouteAffinityType) -> (r: bool)
        ensures
            r == applies(*self, mode),
    {
        if mode == KeyRouteAffinityType::Disabled {
            return false;
        }
        match self {
            DynamoOp::Put(r) => should_apply_put(mode, r),
            DynamoOp::Delete(r) => should_apply_delete(mode, r),
            DynamoOp::Update(r) => should_apply_update(mode, r),
            DynamoOp::BatchWrite(_) => mode == KeyRouteAffinityType::AnyWrite,
        }
    }

    /// Where the partition keys of this request can be found: at most one
    /// place for a request for one item, one for each write of a batch.
    pub fn partition_key_candidates<'a>(&'a self) -> (r: Vec<PartitionKeyCandidate<'a>>)
        ensures
            candidate_views(r@) == candidates_of(*self),
    {
        match self {
            DynamoOp::Put(r) => item_candidate(&r.table_name, &r.item),
            DynamoOp::Update(r) => item_candidate(&r.table_name, &r.key),
            DynamoOp::Delete(r) => item_candidate(&r.table_name, &r.key),
            DynamoOp::BatchWrite(r) => {
                let mut out: Vec<PartitionKeyCandidate<'a>> = Vec::new();
                match &r.request_items {
                    Some(items) => {
                        let mut i: usize = 0;
                        assert(candidate_views(out@) =~= batch_candidates(items@.take(0)));
                        while i < items.len()
                            invariant
                                i <= items.len(),
                                candidate_views(out@) == batch_candidates(items@.take(i as int)),
                            decreases items.len() - i,
                        {
                            let name: &'a str = items[i].0.as_str();
                            let writes: &'a Vec<WriteRequest> = &items[i].1;
                            let ghost before = candidate_views(out@);
                            let mut k: usize = 0;
                            assert(candidate_views(out@) =~= before + table_candidates(
                                name@,
                                writes@.take(0),
                            ));
                            while k < writes.len()
                                invariant
                                    k <= writes.len(),
                                    candidate_views(out@) == before + table_candidates(
                                        name@,
                                        writes@.take(k as int),
                                    ),
                                decreases writes.len() - k,
                            {
                                assert(writes@.take(k + 1).drop_last() =~= writes@.take(k as int));
                                let ghost listed = out@;
                                if let Some(attributes) = batch_write_request_attributes(&writes[k]) {
                                    out.push(
                                        PartitionKeyCandidate { table_name: name, attributes },
                                    );
                                    assert(candidate_views(out@) =~= candidate_views(listed).push(
                                        CandidateV { table_name: name@, attributes: attributes@ },
                                    ));
                                }
                                k = k + 1;
                                assert(candidate_views(out@) =~= before + table_candidates(
                                    name@,
                                    writes@.take(k as int),
                                ));
                            }
                            assert(writes@.take(k as int) =~= writes@);
                            assert(items@.take(i + 1).drop_last() =~= items@.take(i as int));
                            i = i + 1;
                        }
                        assert(items@.take(i as int) =~= items@);
                    },
                    None => {
                        assert(candidate_views(out@) =~= Seq::empty());
                    },
                }
                out
            },
        }
    }
}

/// A write with a condition reads first, whichever of the three it is: with a
/// condition expression, with legacy conditions, or, for puts and deletions,
/// with anything to be reported.
pub proof fn law_conditional_writes_read_first(put: PutItem, update: UpdateItem, delete: DeleteItem)
    ensures
        ({
            let rmw = KeyRouteAffinityType::Rmw;
            &&& (put.condition_expression matches Some(c) && c@.len() > 0) ==> applies(
                DynamoOp::Put(put),
                rmw,
            )
            &&& (update.condition_expression matches Some(c) && c@.len() > 0) ==> applies(
                DynamoOp::Update(update),
                rmw,
            )
            &&& (delete.condition_expression matches Some(c) && c@.len() > 0) ==> applies(
                DynamoOp::Delete(delete),
                rmw,
            )
            &&& (put.expected matches Some(n) && n > 0) ==> applies(DynamoOp::Put(put), rmw)
            &&& (update.expected matches Some(n) && n > 0) ==> applies(DynamoOp::Update(update), rmw)
            &&& (delete.expected matches Some(n) && n > 0) ==> applies(DynamoOp::Delete(delete), rmw)
            &&& (put.return_values matches Some(v) && !(v is Nothing)) ==> applies(
                DynamoOp::Put(put),
                rmw,
            )
            &&& (delete.return_values matches Some(v) && !(v is Nothing)) ==> applies(
                DynamoOp::Delete(delete),
                rmw,
            )
        }),
{
}

/// A put and a deletion with the same conditions qualify alike, and what they
/// write and where has no say in it.
pub proof fn law_puts_and_deletions_qualify_alike(
    put: PutItem,
    delete: DeleteItem,
    mode: KeyRouteAffinityType,
)
    requires
        put.condition_expression == delete.condition_expression,
        put.expected == delete.expected,
        put.return_values == delete.return_values,
    ensures
        applies(DynamoOp::Put(put), mode) == applies(DynamoOp::Delete(delete), mode),
{
}

/// An update reads first also where it has an update expression, where what it
/// reports can only be read, and where a legacy update depends on the old
/// value: one that adds, or one that deletes given elements.
pub proof fn law_updates_that_read_first(update: UpdateItem, k: int)
    ensures
        ({
            let qualifies = applies(DynamoOp::Update(update), KeyRouteAffinityType::Rmw);
            &&& (update.update_expression matches Some(e) && e@.len() > 0) ==> qualifies
            &&& update.return_values == Some(ReturnValue::AllOld) ==> qualifies
            &&& update.return_values == Some(ReturnValue::UpdatedOld) ==> qualifies
            &&& update.return_values == Some(ReturnValue::AllNew) ==> qualifies
            &&& (update.attribute_updates matches Some(updates) && 0 <= k < updates@.len() && (
            updates@[k].action == Some(AttributeAction::Add) || (updates@[k].action == Some(
                AttributeAction::Delete,
            ) && updates@[k].has_value))) ==> qualifies
        }),
{
    if update.attribute_updates is Some {
        let updates = update.attribute_updates->0@;
        if 0 <= k < updates.len() {
            assert(reads_old_value(updates[k]) ==> some_reads_old_value(update.attribute_updates));
        }
    }
}

/// A write without any of these does not read first, and no batch does. With
/// affinity for any write, all of them qualify.
pub proof fn law_plain_writes_do_not_read_first(
    put: PutItem,
    update: UpdateItem,
    delete: DeleteItem,
    batch: BatchWriteItem,
)
    requires
        put.condition_expression matches Some(c) ==> c@.len() == 0,
        put.expected matches Some(n) ==> n == 0,
        put.return_values matches Some(v) ==> v is Nothing,
        delete.condition_expression matches Some(c) ==> c@.len() == 0,
        delete.expected matches Some(n) ==> n == 0,
        delete.return_values matches Some(v) ==> v is Nothing,
        update.update_expression matches Some(e) ==> e@.len() == 0,
        update.condition_expression matches Some(c) ==> c@.len() == 0,
        update.expected matches Some(n) ==> n == 0,
        update.return_values matches Some(v) ==> v is Nothing || v is UpdatedNew || v is Other,
        update.attribute_updates matches Some(updates) ==> forall|i: int|
            0 <= i < updates@.len() ==> (#[trigger] updates@[i]).action != Some(
                AttributeAction::Add,
            ) && !(updates@[i].action == Some(AttributeAction::Delete) && updates@[i].has_value),
    ensures
        !applies(DynamoOp::Put(put), KeyRouteAffinityType::Rmw),
        !applies(DynamoOp::Update(update), KeyRouteAffinityType::Rmw),
        !applies(DynamoOp::Delete(delete), KeyRouteAffinityType::Rmw),
        !applies(DynamoOp::BatchWrite(batch), KeyRouteAffinityType::Rmw),
        applies(DynamoOp::Put(put), KeyRouteAffinityType::AnyWrite),
        applies(DynamoOp::Update(update), KeyRouteAffinityType::AnyWrite),
        applies(DynamoOp::Delete(delete), KeyRouteAffinityType::AnyWrite),
        applies(DynamoOp::BatchWrite(batch), KeyRouteAffinityType::AnyWrite),
{
}

/// A request for one item names its partition key where it names its table and
/// its attributes, whichever of the three it is; a put names it in the item.
pub proof fn law_single_writes_name_their_key(
    put: PutItem,
    update: UpdateItem,
    delete: DeleteItem,
    table: String,
    attributes: Attributes,
)
    requires
        put.table_name == Some(table) && put.item == Some(attributes),
        update.table_name == Some(table) && update.key == Some(attributes),
        delete.table_name == Some(table) && delete.key == Some(attributes),
    ensures
        ({
            let candidate = CandidateV { table_name: table@, attributes: attributes@ };
            &&& candidates_of(DynamoOp::Put(put)) == seq![candidate]
            &&& candidates_of(DynamoOp::Update(update)) == seq![candidate]
            &&& candidates_of(DynamoOp::Delete(delete)) == seq![candidate]
        }),
{
}

/// A write of a batch names the key that it deletes, or else the item that it puts.
pub proof fn law_batch_write_names_its_key(write: WriteRequest)
    ensures
        write.delete matches Some(key) ==> write_attributes(write) == Some(key@),
        write.delete is None && write.put is Some ==> write_attributes(write) == Some(
            write.put->0@,
        ),
        write.delete is None && write.put is None ==> write_attributes(write) is None,
{
}

/// Every write of a batch that names its key is a candidate of its own table,
/// and there are no others.
pub proof fn law_every_write_of_a_batch_is_a_candidate(
    items: Seq<(String, Vec<WriteRequest>)>,
    i: int,
    j: int,
)
    requires
        0 <= i < items.len(),
        0 <= j < items[i].1@.len(),
        write_attributes(items[i].1@[j]) is Some,
    ensures
        batch_candidates(items).contains(
            CandidateV {
                table_name: items[i].0@,
                attributes: write_attributes(items[i].1@[j])->0,
            },
        ),
    decreases items.len(),
{
    let wanted = CandidateV {
        table_name: items[i].0@,
        attributes: write_attributes(items[i].1@[j])->0,
    };
    let before = batch_candidates(items.drop_last());
    let last = table_candidates(items.last().0@, items.last().1@);
    if i == items.len() - 1 {
        lemma_table_candidate(items[i].0@, items[i].1@, j);
        let k = last.index_of(wanted);
        assert((before + last)[before.len() + k] == wanted);
    } else {
        law_every_write_of_a_batch_is_a_candidate(items.drop_last(), i, j);
        let k = before.index_of(wanted);
        assert((before + last)[k] == wanted);
    }
}

proof fn lemma_table_candidate(table_name: Seq<char>, writes: Seq<WriteRequest>, j: int)
    requires
        0 <= j < writes.len(),
        write_attributes(writes[j]) is Some,
    ensures
        table_candidates(table_name, writes).contains(
            CandidateV { table_name, attributes: write_attributes(writes[j])->0 },
        ),
    decreases writes.len(),
{
    let wanted = CandidateV { table_name, attributes: write_attributes(writes[j])->0 };
    let before = table_candidates(table_name, writes.drop_last());
    let all = table_candidates(table_name, writes);
    if j == writes.len() - 1 {
        assert(all[before.len() as int] == wanted);
    } else {
        lemma_table_candidate(table_name, writes.drop_last(), j);
        let k = before.index_of(wanted);
        assert(all[k] == wanted);
    }
}

/// An attribute is found by its name, wherever it stands, and only where it is
/// there.
pub proof fn law_attribute_is_found_by_name(
    attributes: Seq<(String, AttributeValue)>,
    name: Seq<char>,
    i: int,
)
    ensures
        0 <= i < attributes.len() && attributes[i].0@ == name && (forall|k: int|
            0 <= k < i ==> (#[trigger] attributes[k]).0@ != name) ==> attribute(attributes, name)
            == Some(attributes[i].1),
        (forall|k: int| 0 <= k < attributes.len() ==> (#[trigger] attributes[k]).0@ != name)
            ==> attribute(attributes, name) is None,
    decreases attributes.len(),
{
    if attributes.len() > 0 {
        let rest = attributes.drop_first();
        law_attribute_is_found_by_name(rest, name, i - 1);
        assert forall|k: int| 0 <= k < rest.len() implies rest[k] == attributes[k + 1] by {}
    }
}

} // verus!
