//! Which operations are routed by partition key.

use crate::text;
use vstd::prelude::*;
use vstd::std_specs::convert::FromSpecImpl;

verus! {

/// Which operations are routed by partition key.
#[derive(Debug, Clone, Copy, PartialEq, Eq, Structural)]
pub enum KeyRouteAffinityType {
    /// None: every request is balanced over all live nodes.
    Disabled,
    /// The writes that read before they write: conditional `PutItem`,
    /// `UpdateItem` and `DeleteItem`, and `UpdateItem` with an update
    /// expression or attribute updates that need the old value.
    Rmw,
    /// Every write.
    AnyWrite,
}

impl Default for KeyRouteAffinityType {
    fn default() -> (r: Self)
        ensures
            r == KeyRouteAffinityType::Disabled,
    {
        KeyRouteAffinityType::Disabled
    }
}

/// The partition key attribute of each table that one is known of.
#[derive(Debug)]
pub struct PartitionKeyNames {
    entries: Vec<(String, String)>,
}

/// The entries as a map.
pub open spec fn names_map(entries: Seq<(String, String)>) -> Map<Seq<char>, Seq<char>>
    decreases entries.len(),
{
    if entries.len() == 0 {
        Map::empty()
    } else {
        names_map(entries.drop_last()).insert(entries.last().0@, entries.last().1@)
    }
}

/// No table occurs twice.
pub open spec fn distinct_tables(entries: Seq<(String, String)>) -> bool {
    forall|i: int, j: int|
        0 <= i < j < entries.len() ==> (#[trigger] entries[i]).0@ != (#[trigger] entries[j]).0@
}

proof fn lemma_names_map(entries: Seq<(String, String)>)
    requires
        distinct_tables(entries),
    ensures
        names_map(entries).dom().finite(),
        names_map(entries).len() == entries.len(),
        forall|t: Seq<char>| #[trigger]
            names_map(entries).contains_key(t) <==> exists|i: int|
                0 <= i < entries.len() && (#[trigger] entries[i]).0@ == t,
        forall|i: int|
            0 <= i < entries.len() ==> names_map(entries).contains_key((#[trigger] entries[i]).0@)
                && names_map(entries)[entries[i].0@] == entries[i].1@,
    decreases entries.len(),
{
    if entries.len() > 0 {
        let before = entries.drop_last();
        assert forall|i: int, j: int| 0 <= i < j < before.len() implies (
        #[trigger] before[i]).0@ != (#[trigger] before[j]).0@ by {
            assert(before[i] == entries[i] && before[j] == entries[j]);
        }
        lemma_names_map(before);
        let last = entries.last();
        assert(!names_map(before).contains_key(last.0@)) by {
            if names_map(before).contains_key(last.0@) {
                let i = choose|i: int| 0 <= i < before.len() && (#[trigger] before[i]).0@ == last.0@;
                assert(entries[i].0@ == entries[entries.len() - 1].0@);
            }
        }
        assert forall|t: Seq<char>| #[trigger]
            names_map(entries).contains_key(t) <==> exists|i: int|
                0 <= i < entries.len() && (#[trigger] entries[i]).0@ == t by {
            if names_map(entries).contains_key(t) {
                if t == last.0@ {
                    assert(entries[entries.len() - 1].0@ == t);
                } else {
                    let i = choose|i: int| 0 <= i < before.len() && (#[trigger] before[i]).0@ == t;
                    assert(entries[i].0@ == t);
                }
            }
            if exists|i: int| 0 <= i < entries.len() && (#[trigger] entries[i]).0@ == t {
                let i = choose|i: int| 0 <= i < entries.len() && (#[trigger] entries[i]).0@ == t;
                if i < before.len() {
                    assert(before[i].0@ == t);
                    assert(names_map(before).contains_key(t));
                }
            }
        }
        assert forall|i: int| 0 <= i < entries.len() implies names_map(entries).contains_key(
            (#[trigger] entries[i]).0@,
        ) && names_map(entries)[entries[i].0@] == entries[i].1@ by {
            if i < before.len() {
                assert(before[i] == entries[i]);
                assert(entries[i].0@ != entries[entries.len() - 1].0@);
            }
        }
    }
}

proof fn lemma_names_update(entries: Seq<(String, String)>, i: int, entry: (String, String))
    requires
        distinct_tables(entries),
        0 <= i < entries.len(),
        entries[i].0@ == entry.0@,
    ensures
        distinct_tables(entries.update(i, entry)),
        names_map(entries.update(i, entry)) == names_map(entries).insert(entry.0@, entry.1@),
{
    let after = entries.update(i, entry);
    assert forall|a: int, b: int| 0 <= a < b < after.len() implies (#[trigger] after[a]).0@ != (
    #[trigger] after[b]).0@ by {
        assert(entries[a].0@ != entries[b].0@);
    }
    lemma_names_map(entries);
    lemma_names_map(after);
    assert forall|t: Seq<char>| names_map(after).contains_key(t) <==> names_map(
        entries,
    ).contains_key(t) by {
        if names_map(after).contains_key(t) {
            let k = choose|k: int| 0 <= k < after.len() && (#[trigger] after[k]).0@ == t;
            assert(entries[k].0@ == t);
        }
        if names_map(entries).contains_key(t) {
            let k = choose|k: int| 0 <= k < entries.len() && (#[trigger] entries[k]).0@ == t;
            assert(after[k].0@ == t);
        }
    }
    let wanted = names_map(entries).insert(entry.0@, entry.1@);
    assert(names_map(entries).contains_key(entries[i].0@));
    assert forall|t: Seq<char>| names_map(after).contains_key(t) implies names_map(after)[t]
        == wanted[t] by {
        let k = choose|k: int| 0 <= k < after.len() && (#[trigger] after[k]).0@ == t;
        assert(names_map(after)[after[k].0@] == after[k].1@);
        if k != i {
            assert(names_map(entries)[entries[k].0@] == entries[k].1@);
            if k < i {
                assert(after[k].0@ != after[i].0@);
            } else {
                assert(after[i].0@ != after[k].0@);
            }
        } else {
            assert(after[i] == entry);
        }
    }
    assert(names_map(after) =~= wanted);
}

impl Clone for PartitionKeyNames {
    fn clone(&self) -> (r: Self)
        ensures
            r@ == self@,
    {
        self.duplicate()
    }
}

impl PartitionKeyNames {
    /// The partition key attribute of each table.
    pub closed spec fn view(&self) -> Map<Seq<char>, Seq<char>> {
        names_map(self.entries@)
    }

    /// No table occurs twice.
    #[verifier::type_invariant]
    spec fn inv(&self) -> bool {
        distinct_tables(self.entries@)
    }

    /// No tables.
    pub fn new() -> (r: Self)
        ensures
            r@ == Map::<Seq<char>, Seq<char>>::empty(),
    {
        PartitionKeyNames { entries: Vec::new() }
    }

    /// How many tables there are.
    pub fn len(&self) -> (r: usize)
        ensures
            r == self@.len(),
            self@.dom().finite(),
    {
        proof {
            use_type_invariant(self);
            lemma_names_map(self.entries@);
        }
        self.entries.len()
    }

    /// Whether there are no tables.
    pub fn is_empty(&self) -> (r: bool)
        ensures
            r == (self@.len() == 0),
    {
        self.len() == 0
    }

    /// The tables and their partition key attributes.
    pub fn to_entries(&self) -> (r: Vec<(String, String)>)
        ensures
            names_map(r@) == self@,
            distinct_tables(r@),
    {
        proof {
            use_type_invariant(self);
        }
        let mut out: Vec<(String, String)> = Vec::new();
        let mut i: usize = 0;
        while i < self.entries.len()
            invariant
                i <= self.entries.len(),
                out@ == self.entries@.take(i as int),
            decreases self.entries.len() - i,
        {
            out.push((self.entries[i].0.clone(), self.entries[i].1.clone()));
            i = i + 1;
            assert(out@ =~= self.entries@.take(i as int));
        }
        assert(out@ =~= self.entries@);
        out
    }

    /// The partition key attribute of `table`.
    pub fn get(&self, table: &str) -> (r: Option<&String>)
        ensures
            match r {
                Some(name) => self@.contains_key(table@) && self@[table@] == name@,
                None => !self@.contains_key(table@),
            },
    {
        proof {
            use_type_invariant(self);
            lemma_names_map(self.entries@);
        }
        let mut i: usize = 0;
        while i < self.entries.len()
            invariant
                i <= self.entries.len(),
                forall|k: int| 0 <= k < i ==> (#[trigger] self.entries@[k]).0@ != table@,
            decreases self.entries.len() - i,
        {
            if text::same(self.entries[i].0.as_str(), table) {
                proof {
                    use_type_invariant(self);
                    lemma_names_map(self.entries@);
                }
                return Some(&self.entries[i].1);
            }
            i = i + 1;
        }
        None
    }

    /// Sets the partition key attribute of `table`.
    pub fn insert(&mut self, table: String, name: String)
        ensures
            final(self)@ == old(self)@.insert(table@, name@),
    {
        proof {
            use_type_invariant(&*self);
        }
        let mut entries = self.to_entries();
        let ghost all = entries@;
        let entry = (table, name);
        let mut i: usize = 0;
        while i < entries.len()
            invariant
                i <= entries.len(),
                entries@ == all,
                distinct_tables(all),
                names_map(all) == old(self)@,
                entry.0@ == table@,
                entry.1@ == name@,
                forall|k: int| 0 <= k < i ==> (#[trigger] all[k]).0@ != entry.0@,
            decreases entries.len() - i,
        {
            if text::same(entries[i].0.as_str(), entry.0.as_str()) {
                proof {
                    lemma_names_update(all, i as int, entry);
                }
                entries[i] = entry;
                *self = PartitionKeyNames { entries };
                return;
            }
            i = i + 1;
        }
        proof {
            let after = all.push(entry);
            assert(after.drop_last() =~= all);
            assert(after.last() == entry);
        }
        entries.push(entry);
        *self = PartitionKeyNames { entries };
    }

    /// A copy of these names.
    pub fn duplicate(&self) -> (r: Self)
        ensures
            r@ == self@,
    {
        PartitionKeyNames { entries: self.to_entries() }
    }
}

/// Which operations are routed by partition key, and the partition keys that
/// are known beforehand. Those of other tables are discovered when they are
/// first needed.
#[derive(Debug, Clone)]
pub struct KeyRouteAffinityConfig {
    pub affinity_type: KeyRouteAffinityType,
    pub pk_info_per_table: PartitionKeyNames,
}

impl From<KeyRouteAffinityType> for KeyRouteAffinityConfig {
    /// A configuration for `affinity_type` without known partition keys.
    fn from(affinity_type: KeyRouteAffinityType) -> (r: Self)
        ensures
            r.affinity_type == affinity_type,
            r.pk_info_per_table@ == Map::<Seq<char>, Seq<char>>::empty(),
    {
        KeyRouteAffinityConfig::of_type(affinity_type)
    }
}

impl FromSpecImpl<KeyRouteAffinityType> for KeyRouteAffinityConfig {
    open spec fn obeys_from_spec() -> bool {
        false
    }

    open spec fn from_spec(affinity_type: KeyRouteAffinityType) -> Self {
        arbitrary()
    }
}

impl KeyRouteAffinityConfig {
    /// A configuration for `affinity_type` without known partition keys.
    pub fn of_type(affinity_type: KeyRouteAffinityType) -> (r: Self)
        ensures
            r.affinity_type == affinity_type,
            r.pk_info_per_table@ == Map::<Seq<char>, Seq<char>>::empty(),
    {
        KeyRouteAffinityConfig { affinity_type, pk_info_per_table: PartitionKeyNames::new() }
    }

    /// A builder.
    pub fn builder() -> (r: KeyRouteAffinityConfigBuilder)
        ensures
            r@ == (KeyRouteAffinityType::Disabled, Map::<Seq<char>, Seq<char>>::empty()),
    {
        KeyRouteAffinityConfigBuilder::new()
    }

    /// Whether any request is routed by partition key.
    pub fn is_enabled(&self) -> (r: bool)
        ensures
            r == (self.affinity_type != KeyRouteAffinityType::Disabled),
    {
        self.affinity_type != KeyRouteAffinityType::Disabled
    }

    /// A copy of this configuration.
    pub fn duplicate(&self) -> (r: Self)
        ensures
            r.affinity_type == self.affinity_type,
            r.pk_info_per_table@ == self.pk_info_per_table@,
    {
        KeyRouteAffinityConfig {
            affinity_type: self.affinity_type,
            pk_info_per_table: self.pk_info_per_table.duplicate(),
        }
    }
}

/// Builds a [`KeyRouteAffinityConfig`].
#[derive(Debug, Clone)]
pub struct KeyRouteAffinityConfigBuilder {
    affinity_type: KeyRouteAffinityType,
    pk_info_per_table: PartitionKeyNames,
}

impl KeyRouteAffinityConfigBuilder {
    /// The type and the names set so far.
    pub closed spec fn view(&self) -> (KeyRouteAffinityType, Map<Seq<char>, Seq<char>>) {
        (self.affinity_type, self.pk_info_per_table@)
    }

    /// No affinity and no known partition keys.
    pub fn new() -> (r: Self)
        ensures
            r@ == (KeyRouteAffinityType::Disabled, Map::<Seq<char>, Seq<char>>::empty()),
    {
        KeyRouteAffinityConfigBuilder {
            affinity_type: KeyRouteAffinityType::Disabled,
            pk_info_per_table: PartitionKeyNames::new(),
        }
    }

    /// Sets which operations are routed by partition key.
    pub fn with_type(self, affinity_type: KeyRouteAffinityType) -> (r: Self)
        ensures
            r@ == (affinity_type, self@.1),
    {
        KeyRouteAffinityConfigBuilder { affinity_type, pk_info_per_table: self.pk_info_per_table }
    }

    /// Sets the partition key attribute of `table`, in place of any set before.
    pub fn with_pk_info(self, table: &str, pk_info: &str) -> (r: Self)
        ensures
            r@ == (self@.0, self@.1.insert(table@, pk_info@)),
    {
        let mut names = self.pk_info_per_table;
        names.insert(table.to_owned(), pk_info.to_owned());
        KeyRouteAffinityConfigBuilder { affinity_type: self.affinity_type, pk_info_per_table: names }
    }

    /// The configuration.
    pub fn build(self) -> (r: KeyRouteAffinityConfig)
        ensures
            (r.affinity_type, r.pk_info_per_table@) == self@,
    {
        KeyRouteAffinityConfig {
            affinity_type: self.affinity_type,
            pk_info_per_table: self.pk_info_per_table,
        }
    }
}

} // verus!
