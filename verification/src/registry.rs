//! The registry of named query sequences: a mapping from name to sequence and
//! running match count, together with the order in which the queries were
//! supplied.

use crate::fraction::{MismatchFraction, Ratio};
use crate::matcher::{has_match, matches_within};
use crate::text::{chars_of, to_upper, uppercased};
use vstd::prelude::*;

verus! {

/// What the registry holds under one name.
pub struct QueryView {
    /// The query pattern in canonical case.
    pub sequence: Seq<char>,
    /// Reads of the current file matched so far.
    pub count: nat,
}

/// One row of a snapshot, as plain values.
pub struct InfoView {
    pub name: Seq<char>,
    pub sequence: Seq<char>,
    pub count: nat,
}

/// The mathematical content of a [`QueryRegistry`].
pub struct RegistryView {
    /// The names in the order in which the queries were supplied; a name
    /// supplied twice stands twice.
    pub order: Seq<Seq<char>>,
    /// The entry of each name.
    pub entries: Map<Seq<char>, QueryView>,
}

/// One if `sequence` matches `read` under the budget that `fraction` grants
/// to it, zero otherwise.
pub open spec fn hit(read: Seq<char>, sequence: Seq<char>, fraction: Ratio) -> nat {
    if has_match(read, sequence, fraction.budget(sequence.len())) {
        1
    } else {
        0
    }
}

impl RegistryView {
    /// The registry without any query.
    pub open spec fn empty() -> RegistryView {
        RegistryView { order: Seq::empty(), entries: Map::empty() }
    }

    /// The names in the order list are exactly the names that have an entry.
    pub open spec fn consistent(self) -> bool {
        forall|name: Seq<char>| self.entries.contains_key(name) <==> self.order.contains(name)
    }

    /// Every count is zero.
    pub open spec fn is_reset(self) -> bool {
        forall|name: Seq<char>|
            self.entries.contains_key(name) ==> (#[trigger] self.entries[name]).count == 0
    }

    /// Every count is below `limit`.
    pub open spec fn counts_below(self, limit: nat) -> bool {
        forall|name: Seq<char>|
            self.entries.contains_key(name) ==> (#[trigger] self.entries[name]).count < limit
    }

    /// The registry after one more query was supplied: the name joins the end
    /// of the order list, and its entry is set (replacing an earlier entry of
    /// the same name) with a count of zero.
    pub open spec fn with_query(self, name: Seq<char>, sequence: Seq<char>) -> RegistryView {
        RegistryView {
            order: self.order.push(name),
            entries: self.entries.insert(name, QueryView { sequence, count: 0 }),
        }
    }

    /// The registry with the count of `name` raised by one.
    pub open spec fn incremented(self, name: Seq<char>) -> RegistryView {
        RegistryView {
            order: self.order,
            entries: self.entries.insert(
                name,
                QueryView {
                    sequence: self.entries[name].sequence,
                    count: self.entries[name].count + 1,
                },
            ),
        }
    }

    /// The registry with every count set to zero.
    pub open spec fn reset(self) -> RegistryView {
        RegistryView {
            order: self.order,
            entries: self.entries.map_values(
                |q: QueryView| QueryView { sequence: q.sequence, count: 0 },
            ),
        }
    }

    /// The registry after one read was held against every entry: the count of
    /// each entry whose sequence matches the read is raised by one.
    pub open spec fn tallied(self, read: Seq<char>, fraction: Ratio) -> RegistryView {
        RegistryView {
            order: self.order,
            entries: self.entries.map_values(
                |q: QueryView|
                    QueryView {
                        sequence: q.sequence,
                        count: q.count + hit(read, q.sequence, fraction),
                    },
            ),
        }
    }

    /// Name, sequence and count of every supplied query, in supply order.
    pub open spec fn snapshot(self) -> Seq<InfoView> {
        Seq::new(
            self.order.len(),
            |k: int|
                InfoView {
                    name: self.order[k],
                    sequence: self.entries[self.order[k]].sequence,
                    count: self.entries[self.order[k]].count,
                },
        )
    }
}

/// The supplied `(name, sequence)` pairs as plain values.
pub open spec fn supplied(queries: Seq<(String, String)>) -> Seq<(Seq<char>, Seq<char>)> {
    Seq::new(queries.len(), |i: int| (queries[i].0@, queries[i].1@))
}

/// The registry that holds the pairs in `queries`, taken from first to last:
/// every count is zero, and of two pairs with one name the later decides the
/// entry.
pub open spec fn registry_of(queries: Seq<(Seq<char>, Seq<char>)>) -> RegistryView
    decreases queries.len(),
{
    if queries.len() == 0 {
        RegistryView::empty()
    } else {
        registry_of(queries.drop_last()).with_query(queries.last().0, queries.last().1)
    }
}

/// The pairs in `queries` with every sequence brought to upper case.
pub open spec fn canonical(queries: Seq<(Seq<char>, Seq<char>)>) -> Seq<(Seq<char>, Seq<char>)> {
    Seq::new(queries.len(), |i: int| (queries[i].0, uppercased(queries[i].1)))
}

/// Why a registry operation was refused.
#[derive(Clone, Copy, Debug, PartialEq, Eq)]
pub enum RegistryError {
    /// No query of the given name is registered.
    UnknownName,
}

/// A query as a snapshot presents it: its name, its sequence in canonical
/// case, and the number of reads of the current file it has matched.
#[derive(Clone, Debug, PartialEq, Eq)]
pub struct SequenceInfo {
    pub name: String,
    pub sequence: String,
    pub count: usize,
}

impl View for SequenceInfo {
    type V = InfoView;

    open spec fn view(&self) -> InfoView {
        InfoView { name: self.name@, sequence: self.sequence@, count: self.count as nat }
    }
}

struct Slot {
    name: String,
    sequence: String,
    pattern: Vec<char>,
    count: usize,
}

/// Named query sequences with their running match counts, and the order in
/// which they were supplied.
pub struct QueryRegistry {
    slots: Vec<Slot>,
    order: Vec<usize>,
}

impl View for QueryRegistry {
    type V = RegistryView;

    closed spec fn view(&self) -> RegistryView {
        RegistryView {
            order: Seq::new(
                self.order@.len(),
                |k: int| self.slots@[self.order@[k] as int].name@,
            ),
            entries: Map::new(
                |name: Seq<char>| self.holds(name),
                |name: Seq<char>| self.entry(self.slot_of(name)),
            ),
        }
    }
}

impl QueryRegistry {
    spec fn holds(&self, name: Seq<char>) -> bool {
        exists|i: int| 0 <= i < self.slots@.len() && (#[trigger] self.slots@[i]).name@ == name
    }

    spec fn slot_of(&self, name: Seq<char>) -> int {
        choose|i: int| 0 <= i < self.slots@.len() && (#[trigger] self.slots@[i]).name@ == name
    }

    spec fn entry(&self, i: int) -> QueryView {
        QueryView { sequence: self.slots@[i].sequence@, count: self.slots@[i].count as nat }
    }

    spec fn listed(&self, i: int) -> bool {
        exists|k: int| 0 <= k < self.order@.len() && #[trigger] self.order@[k] == i
    }

    /// The registry's internal invariant: no two slots share a name, each
    /// slot's pattern spells its sequence, and the order list refers to
    /// every slot and to nothing else. `build` establishes it and every
    /// operation preserves it.
    pub closed spec fn wf(&self) -> bool {
        &&& forall|i: int, j: int|
            0 <= i < j < self.slots@.len() ==> (#[trigger] self.slots@[i]).name@
                != (#[trigger] self.slots@[j]).name@
        &&& forall|i: int|
            0 <= i < self.slots@.len() ==> (#[trigger] self.slots@[i]).pattern@
                == self.slots@[i].sequence@
        &&& forall|k: int| 0 <= k < self.order@.len() ==> #[trigger] self.order@[k] < self.slots@.len()
        &&& forall|i: int| 0 <= i < self.slots@.len() ==> #[trigger] self.listed(i)
    }

    /// In a well-formed registry a slot is found again by its name.
    proof fn lemma_slot_of_name(&self, i: int)
        requires
            self.wf(),
            0 <= i < self.slots@.len(),
        ensures
            self.holds(self.slots@[i].name@),
            self.slot_of(self.slots@[i].name@) == i,
            self@.entries.contains_key(self.slots@[i].name@),
            self@.entries[self.slots@[i].name@] == self.entry(i),
    {
        let name = self.slots@[i].name@;
        assert(self.holds(name));
        let j = self.slot_of(name);
        if j < i {
            assert(self.slots@[j].name@ != self.slots@[i].name@);
        } else if i < j {
            assert(self.slots@[i].name@ != self.slots@[j].name@);
        }
    }

    /// Every entry of the view is the entry of one slot.
    proof fn lemma_entries_by_slot(&self)
        requires
            self.wf(),
        ensures
            forall|i: int|
                0 <= i < self.slots@.len() ==> self@.entries.contains_key(
                    (#[trigger] self.slots@[i]).name@,
                ) && self@.entries[self.slots@[i].name@] == self.entry(i),
            forall|name: Seq<char>| #[trigger]
                self@.entries.contains_key(name) ==> 0 <= self.slot_of(name) < self.slots@.len()
                    && self.slots@[self.slot_of(name)].name@ == name,
    {
        assert forall|i: int| 0 <= i < self.slots@.len() implies self@.entries.contains_key(
            (#[trigger] self.slots@[i]).name@,
        ) && self@.entries[self.slots@[i].name@] == self.entry(i) by {
            self.lemma_slot_of_name(i);
        }
    }

    /// A registry that differs from a well-formed one in its counts alone is
    /// well-formed, keeps the order, and holds the same names.
    proof fn lemma_counts_changed(&self, after: &QueryRegistry)
        requires
            self.wf(),
            after.order@ == self.order@,
            after.slots@.len() == self.slots@.len(),
            forall|j: int|
                0 <= j < self.slots@.len() ==> (#[trigger] after.slots@[j]).name
                    == self.slots@[j].name && after.slots@[j].sequence == self.slots@[j].sequence
                    && after.slots@[j].pattern == self.slots@[j].pattern,
        ensures
            after.wf(),
            after@.order == self@.order,
            forall|name: Seq<char>|
                after@.entries.contains_key(name) <==> self@.entries.contains_key(name),
    {
        assert forall|j: int| 0 <= j < after.slots@.len() implies #[trigger] after.listed(
            j,
        ) by {
            assert(self.listed(j));
            let k = choose|k: int| 0 <= k < self.order@.len() && #[trigger] self.order@[k] == j;
            assert(after.order@[k] == j);
        }
        assert(after@.order =~= self@.order);
        assert forall|name: Seq<char>| after.holds(name) <==> self.holds(name) by {
            if after.holds(name) {
                assert(self.slots@[after.slot_of(name)].name@ == name);
            }
            if self.holds(name) {
                assert(after.slots@[self.slot_of(name)].name@ == name);
            }
        }
    }

    /// What registering a query under slot `i` does to the view, whether the
    /// slot is new (`i` is the old number of slots) or carried the name
    /// already.
    proof fn lemma_registered(&self, after: &QueryRegistry, i: int, name: Seq<char>)
        requires
            self.wf(),
            after.order@ == self.order@.push(i as usize),
            0 <= i <= self.slots@.len(),
            i <= usize::MAX,
            i < self.slots@.len() ==> self.slots@[i].name@ == name && after.slots@.len()
                == self.slots@.len(),
            i == self.slots@.len() ==> !self.holds(name) && after.slots@.len() == self.slots@.len()
                + 1,
            after.slots@[i].name@ == name,
            after.slots@[i].pattern@ == after.slots@[i].sequence@,
            after.slots@[i].count == 0,
            forall|j: int|
                0 <= j < self.slots@.len() && j != i ==> #[trigger] after.slots@[j]
                    == self.slots@[j],
        ensures
            after.wf(),
            after@ == self@.with_query(name, after.slots@[i].sequence@),
    {
        let expected = self@.with_query(name, after.slots@[i].sequence@);
        assert(after.order@[after.order@.len() - 1] == i);
        assert forall|j: int| 0 <= j < after.slots@.len() implies #[trigger] after.listed(
            j,
        ) by {
            if j < self.slots@.len() {
                assert(self.listed(j));
                let k = choose|k: int| 0 <= k < self.order@.len() && #[trigger] self.order@[k] == j;
                assert(after.order@[k] == j);
            }
        }
        assert forall|a: int, b: int| 0 <= a < b < after.slots@.len() implies (
        #[trigger] after.slots@[a]).name@ != (#[trigger] after.slots@[b]).name@ by {
            if a != i && b != i {
                assert(self.slots@[a].name@ != self.slots@[b].name@);
            } else if i < self.slots@.len() {
                assert(self.slots@[a].name@ != self.slots@[b].name@);
            } else {
                assert(self.slots@[a].name@ != name);
            }
        }
        assert(after.wf());
        assert(after@.order =~= expected.order);
        assert forall|n: Seq<char>| after.holds(n) <==> (self.holds(n) || n == name) by {
            if after.holds(n) {
                let j = after.slot_of(n);
                if j != i {
                    assert(self.slots@[j].name@ == n);
                }
            }
            if self.holds(n) {
                let j = self.slot_of(n);
                assert(after.slots@[j].name@ == n);
            }
            if n == name {
                assert(after.slots@[i].name@ == n);
            }
        }
        assert forall|n: Seq<char>| after.holds(n) implies #[trigger] after@.entries[n]
            == expected.entries[n] by {
            let j = after.slot_of(n);
            after.lemma_slot_of_name(j);
            if j != i {
                assert(self.slots@[j].name@ == n);
                self.lemma_slot_of_name(j);
            }
        }
        assert(after@.entries =~= expected.entries);
    }

    /// The order list names exactly the entries of the mapping.
    pub proof fn lemma_wf_consistent(&self)
        requires
            self.wf(),
        ensures
            self@.consistent(),
    {
        let view = self@;
        assert forall|name: Seq<char>| view.entries.contains_key(name) <==> view.order.contains(
            name,
        ) by {
            if view.entries.contains_key(name) {
                let i = self.slot_of(name);
                assert(self.listed(i));
                let k = choose|k: int| 0 <= k < self.order@.len() && #[trigger] self.order@[k] == i;
                assert(view.order[k] == name);
            }
            if view.order.contains(name) {
                let k = choose|k: int| 0 <= k < view.order.len() && view.order[k] == name;
                let i = self.order@[k] as int;
                assert(self.slots@[i].name@ == name);
            }
        }
    }

    fn new() -> (registry: QueryRegistry)
        ensures
            registry.wf(),
            registry@ == RegistryView::empty(),
    {
        let registry = QueryRegistry { slots: Vec::new(), order: Vec::new() };
        assert(registry@.order =~= Seq::<Seq<char>>::empty());
        assert(registry@.entries =~= Map::<Seq<char>, QueryView>::empty());
        registry
    }

    fn position(&self, name: &str) -> (found: Option<usize>)
        requires
            self.wf(),
        ensures
            match found {
                Some(i) => i < self.slots@.len() && self.slots@[i as int].name@ == name@,
                None => !self.holds(name@),
            },
    {
        let key = name.to_owned();
        let mut i: usize = 0;
        while i < self.slots.len()
            invariant
                i <= self.slots@.len(),
                key@ == name@,
                forall|j: int| 0 <= j < i ==> (#[trigger] self.slots@[j]).name@ != name@,
            decreases self.slots@.len() - i,
        {
            if self.slots[i].name == key {
                return Some(i);
            }
            i = i + 1;
        }
        None
    }

    fn register(&mut self, name: &str, sequence: &str)
        requires
            old(self).wf(),
        ensures
            final(self).wf(),
            final(self)@ == old(self)@.with_query(name@, sequence@),
    {
        let pattern = chars_of(sequence);
        let slot = match self.position(name) {
            Some(i) => {
                self.slots[i].sequence = sequence.to_owned();
                self.slots[i].pattern = pattern;
                self.slots[i].count = 0;
                i
            },
            None => {
                self.slots.push(
                    Slot {
                        name: name.to_owned(),
                        sequence: sequence.to_owned(),
                        pattern,
                        count: 0,
                    },
                );
                self.slots.len() - 1
            },
        };
        self.order.push(slot);
        proof {
            old(self).lemma_registered(self, slot as int, name@);
        }
    }

    /// Builds the registry from queries whose sequences are in canonical
    /// case already, in the order supplied; every count is zero. Where a name
    /// occurs more than once, the last sequence supplied under it replaces
    /// the earlier ones, while the order list keeps every occurrence.
    pub fn from_canonical(queries: &[(String, String)]) -> (registry: QueryRegistry)
        ensures
            registry.wf(),
            registry@ == registry_of(supplied(queries@)),
            registry@.is_reset(),
    {
        let mut registry = QueryRegistry::new();
        let mut i: usize = 0;
        while i < queries.len()
            invariant
                i <= queries@.len(),
                registry.wf(),
                registry@ == registry_of(supplied(queries@).take(i as int)),
            decreases queries@.len() - i,
        {
            registry.register(queries[i].0.as_str(), queries[i].1.as_str());
            proof {
                let all = supplied(queries@);
                assert(all.take(i + 1).drop_last() =~= all.take(i as int));
                assert(all.take(i + 1).last() == all[i as int]);
            }
            i = i + 1;
        }
        proof {
            assert(supplied(queries@).take(i as int) =~= supplied(queries@));
            lemma_built_registry_is_reset(supplied(queries@));
        }
        registry
    }

    /// Builds the registry from the queries in the order supplied. Each
    /// sequence is stored in upper case, names are kept as given, and every
    /// count is zero. Where a name occurs more than once, the last sequence
    /// supplied under it replaces the earlier ones, while the order list
    /// keeps every occurrence.
    pub fn build(queries: &[(String, String)]) -> (registry: QueryRegistry)
        ensures
            registry.wf(),
            registry@ == registry_of(canonical(supplied(queries@))),
            registry@.is_reset(),
    {
        let mut prepared: Vec<(String, String)> = Vec::new();
        let mut i: usize = 0;
        while i < queries.len()
            invariant
                i <= queries@.len(),
                prepared@.len() == i,
                forall|j: int|
                    0 <= j < i ==> (#[trigger] prepared@[j]).0@ == queries@[j].0@ && prepared@[j].1@
                        == uppercased(queries@[j].1@),
            decreases queries@.len() - i,
        {
            prepared.push((queries[i].0.clone(), to_upper(queries[i].1.as_str())));
            i = i + 1;
        }
        assert(supplied(prepared@) =~= canonical(supplied(queries@)));
        QueryRegistry::from_canonical(prepared.as_slice())
    }

    /// Raises the count of `name` by one, or reports that no such query is
    /// registered and leaves the registry as it was.
    pub fn increment(&mut self, name: &str) -> (outcome: Result<(), RegistryError>)
        requires
            old(self).wf(),
            old(self)@.entries.contains_key(name@) ==> old(self)@.entries[name@].count
                < usize::MAX,
        ensures
            final(self).wf(),
            outcome is Ok <==> old(self)@.entries.contains_key(name@),
            outcome is Ok ==> final(self)@ == old(self)@.incremented(name@),
            outcome matches Err(e) ==> e == RegistryError::UnknownName && final(self)@ == old(
                self,
            )@,
    {
        match self.position(name) {
            Some(i) => {
                proof {
                    self.lemma_slot_of_name(i as int);
                }
                self.slots[i].count = self.slots[i].count + 1;
                proof {
                    old(self).lemma_counts_changed(self);
                    old(self).lemma_entries_by_slot();
                    self.lemma_entries_by_slot();
                    assert(self@.entries =~= old(self)@.incremented(name@).entries);
                }
                Ok(())
            },
            None => Err(RegistryError::UnknownName),
        }
    }

    /// Sets every count to zero. Names, sequences and order stay.
    pub fn reset_all(&mut self)
        requires
            old(self).wf(),
        ensures
            final(self).wf(),
            final(self)@ == old(self)@.reset(),
            final(self)@.is_reset(),
    {
        let mut i: usize = 0;
        while i < self.slots.len()
            invariant
                i <= self.slots@.len(),
                self.order == old(self).order,
                self.slots@.len() == old(self).slots@.len(),
                forall|j: int|
                    0 <= j < self.slots@.len() ==> (#[trigger] self.slots@[j]).name == old(
                        self,
                    ).slots@[j].name && self.slots@[j].sequence == old(self).slots@[j].sequence
                        && self.slots@[j].pattern == old(self).slots@[j].pattern,
                forall|j: int| 0 <= j < i ==> (#[trigger] self.slots@[j]).count == 0,
            decreases self.slots@.len() - i,
        {
            self.slots[i].count = 0;
            i = i + 1;
        }
        proof {
            old(self).lemma_counts_changed(self);
            old(self).lemma_entries_by_slot();
            self.lemma_entries_by_slot();
            assert(self@.entries =~= old(self)@.reset().entries);
        }
    }

    /// Whether every count is zero.
    pub fn is_reset(&self) -> (reset: bool)
        requires
            self.wf(),
        ensures
            reset == self@.is_reset(),
    {
        proof {
            self.lemma_entries_by_slot();
        }
        let mut i: usize = 0;
        while i < self.slots.len()
            invariant
                i <= self.slots@.len(),
                self.wf(),
                forall|j: int| 0 <= j < i ==> (#[trigger] self.slots@[j]).count == 0,
            decreases self.slots@.len() - i,
        {
            if self.slots[i].count != 0 {
                proof {
                    self.lemma_slot_of_name(i as int);
                }
                return false;
            }
            i = i + 1;
        }
        true
    }

    /// Name, sequence and count of every supplied query, in the order in
    /// which the queries were supplied. Reads the registry only.
    pub fn snapshot_in_order(&self) -> (rows: Vec<SequenceInfo>)
        requires
            self.wf(),
        ensures
            rows@.len() == self@.order.len(),
            snapshot_view(rows@) == self@.snapshot(),
    {
        proof {
            self.lemma_entries_by_slot();
        }
        let mut rows: Vec<SequenceInfo> = Vec::new();
        let mut k: usize = 0;
        while k < self.order.len()
            invariant
                k <= self.order@.len(),
                self.wf(),
                rows@.len() == k,
                forall|m: int| 0 <= m < k ==> (#[trigger] rows@[m])@ == self@.snapshot()[m],
            decreases self.order@.len() - k,
        {
            let slot = &self.slots[self.order[k]];
            proof {
                self.lemma_slot_of_name(self.order@[k as int] as int);
            }
            rows.push(
                SequenceInfo {
                    name: slot.name.clone(),
                    sequence: slot.sequence.clone(),
                    count: slot.count,
                },
            );
            k = k + 1;
        }
        assert(snapshot_view(rows@) =~= self@.snapshot());
        rows
    }

    /// Holds one read, in canonical case, against every registered query and
    /// raises by one the count of each query that matches it under
    /// `fraction`. Queries are judged independently of one another.
    pub fn tally(&mut self, read: &[char], fraction: &MismatchFraction)
        requires
            old(self).wf(),
            old(self)@.counts_below(usize::MAX as nat),
        ensures
            final(self).wf(),
            final(self)@ == old(self)@.tallied(read@, fraction@),
    {
        proof {
            old(self).lemma_entries_by_slot();
        }
        let mut i: usize = 0;
        while i < self.slots.len()
            invariant
                i <= self.slots@.len(),
                old(self).wf(),
                forall|j: int|
                    0 <= j < self.slots@.len() ==> (#[trigger] old(self).slots@[j]).count
                        < usize::MAX,
                self.order == old(self).order,
                self.slots@.len() == old(self).slots@.len(),
                forall|j: int|
                    0 <= j < self.slots@.len() ==> (#[trigger] self.slots@[j]).name == old(
                        self,
                    ).slots@[j].name && self.slots@[j].sequence == old(self).slots@[j].sequence
                        && self.slots@[j].pattern == old(self).slots@[j].pattern,
                forall|j: int|
                    0 <= j < i ==> (#[trigger] self.slots@[j]).count == old(self).slots@[j].count
                        + hit(read@, old(self).slots@[j].sequence@, fraction@),
                forall|j: int|
                    i <= j < self.slots@.len() ==> (#[trigger] self.slots@[j]).count == old(
                        self,
                    ).slots@[j].count,
            decreases self.slots@.len() - i,
        {
            let budget = fraction.budget(self.slots[i].pattern.len());
            if matches_within(read, self.slots[i].pattern.as_slice(), budget) {
                self.slots[i].count = self.slots[i].count + 1;
            }
            i = i + 1;
        }
        proof {
            old(self).lemma_counts_changed(self);
            self.lemma_entries_by_slot();
            assert(self@.entries =~= old(self)@.tallied(read@, fraction@).entries);
        }
    }
}

/// The rows of a snapshot as plain values.
pub open spec fn snapshot_view(rows: Seq<SequenceInfo>) -> Seq<InfoView> {
    Seq::new(rows.len(), |k: int| rows[k]@)
}

/// A registry that was just built has every count at zero.
pub proof fn lemma_built_registry_is_reset(queries: Seq<(Seq<char>, Seq<char>)>)
    ensures
        registry_of(queries).is_reset(),
    decreases queries.len(),
{
    if queries.len() > 0 {
        lemma_built_registry_is_reset(queries.drop_last());
    }
}

/// The order list of a built registry is the list of the names as they were
/// supplied, so a snapshot presents the queries in exactly that order,
/// whatever was counted or reset in between.
pub proof fn lemma_order_is_supply_order(queries: Seq<(Seq<char>, Seq<char>)>)
    ensures
        registry_of(queries).order == Seq::new(queries.len(), |k: int| queries[k].0),
        registry_of(queries).snapshot().len() == queries.len(),
        forall|k: int|
            0 <= k < queries.len() ==> (#[trigger] registry_of(queries).snapshot()[k]).name
                == queries[k].0,
    decreases queries.len(),
{
    if queries.len() > 0 {
        lemma_order_is_supply_order(queries.drop_last());
    }
    assert(registry_of(queries).order =~= Seq::new(queries.len(), |k: int| queries[k].0));
}

/// The entry of a name in a built registry comes from the last query
/// supplied under that name: its sequence, and a count of zero.
pub proof fn lemma_last_supplied_decides(queries: Seq<(Seq<char>, Seq<char>)>, last: int)
    requires
        0 <= last < queries.len(),
        forall|later: int|
            last < later < queries.len() ==> (#[trigger] queries[later]).0 != queries[last].0,
    ensures
        registry_of(queries).entries.contains_key(queries[last].0),
        registry_of(queries).entries[queries[last].0] == (QueryView {
            sequence: queries[last].1,
            count: 0,
        }),
    decreases queries.len(),
{
    if last < queries.len() - 1 {
        let earlier = queries.drop_last();
        assert(queries.last() == queries[queries.len() - 1]);
        assert forall|later: int| last < later < earlier.len() implies (
        #[trigger] earlier[later]).0 != earlier[last].0 by {
            assert(earlier[later] == queries[later]);
        }
        lemma_last_supplied_decides(earlier, last);
    }
}

/// In a built registry the order list names exactly the entries of the
/// mapping.
pub proof fn lemma_built_registry_consistent(queries: Seq<(Seq<char>, Seq<char>)>)
    ensures
        registry_of(queries).consistent(),
    decreases queries.len(),
{
    if queries.len() > 0 {
        let earlier = registry_of(queries.drop_last());
        let built = registry_of(queries);
        let name = queries.last().0;
        lemma_built_registry_consistent(queries.drop_last());
        assert forall|n: Seq<char>| built.entries.contains_key(n) <==> built.order.contains(
            n,
        ) by {
            if built.order.contains(n) {
                let k = choose|k: int| 0 <= k < built.order.len() && built.order[k] == n;
                if k < earlier.order.len() {
                    assert(earlier.order[k] == n);
                    assert(earlier.order.contains(n));
                }
            }
            if built.entries.contains_key(n) {
                if n == name {
                    assert(built.order[built.order.len() - 1] == n);
                } else {
                    assert(earlier.order.contains(n));
                    let k = choose|k: int| 0 <= k < earlier.order.len() && earlier.order[k] == n;
                    assert(built.order[k] == n);
                }
            }
        }
    }
}

} // verus!
