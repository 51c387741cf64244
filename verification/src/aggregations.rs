//! The store of aggregations, with their committees, participations,
//! snapshots and snapshot masks.

use vstd::prelude::*;

use crate::crypto::Encryption;
use crate::errors::{SdaServerError, SdaServerResult};
use crate::ids::{uuid_text, AgentId, AggregationId, ParticipationId, SnapshotId};
use crate::resources::{Aggregation, Committee, Participation, Snapshot};
use crate::stores::missing_record_message;
use crate::table::{inner_view, lemma_table_lengths, Table};

verus! {

/// `needle` occurs as a contiguous piece of `haystack`.
pub open spec fn contains_text(haystack: Seq<char>, needle: Seq<char>) -> bool {
    exists|i: int|
        0 <= i && i + needle.len() <= haystack.len() && #[trigger] haystack.subrange(
            i,
            i + needle.len(),
        ) == needle
}

/// Whether `needle`, of length `m`, occurs in `haystack` at index `i`.
fn occurs_at(haystack: &str, needle: &str, i: usize, m: usize) -> (b: bool)
    requires
        m == needle@.len(),
        i + m <= haystack@.len(),
        haystack@.len() <= usize::MAX,
    ensures
        b == (haystack@.subrange(i as int, i + m) == needle@),
{
    let mut k: usize = 0;
    while k < m
        invariant
            m == needle@.len(),
            i + m <= haystack@.len(),
            haystack@.len() <= usize::MAX,
            k <= m,
            haystack@.subrange(i as int, i + k) == needle@.take(k as int),
        decreases m - k,
    {
        if haystack.get_char(i + k) != needle.get_char(k) {
            assert(haystack@.subrange(i as int, i + m)[k as int] != needle@[k as int]);
            return false;
        }
        assert(haystack@.subrange(i as int, i + k + 1) =~= haystack@.subrange(i as int, i + k).push(
            haystack@[i + k],
        ));
        assert(needle@.take(k + 1) =~= needle@.take(k as int).push(needle@[k as int]));
        k = k + 1;
    }
    assert(needle@.take(m as int) =~= needle@);
    true
}

/// Whether `needle` occurs as a contiguous piece of `haystack`, as
/// `str::contains` with a string pattern tells.
fn str_contains(haystack: &str, needle: &str) -> (b: bool)
    ensures
        b == contains_text(haystack@, needle@),
{
    let n = haystack.unicode_len();
    let m = needle.unicode_len();
    if m > n {
        assert(!contains_text(haystack@, needle@));
        return false;
    }
    let mut i: usize = 0;
    loop
        invariant
            n == haystack@.len(),
            m == needle@.len(),
            m <= n,
            i <= n - m,
            forall|j: int| 0 <= j < i ==> #[trigger] haystack@.subrange(j, j + m) != needle@,
        decreases n - m - i,
    {
        if occurs_at(haystack, needle, i, m) {
            return true;
        }
        if i == n - m {
            assert(!contains_text(haystack@, needle@)) by {
                if contains_text(haystack@, needle@) {
                    let j = choose|j: int|
                        0 <= j && j + needle@.len() <= haystack@.len() && #[trigger] haystack@.subrange(
                            j,
                            j + needle@.len(),
                        ) == needle@;
                    assert(haystack@.subrange(j, j + m) == needle@);
                }
            }
            return false;
        }
        i = i + 1;
    }
}

/// The text of an optional title filter.
pub open spec fn filter_text(filter: Option<&str>) -> Option<Seq<char>> {
    match filter {
        Some(f) => Some(f@),
        None => None,
    }
}

/// An aggregation passes the filters: its title contains the title filter
/// and its recipient is the given one, where they are given.
pub open spec fn aggregation_matches(
    aggregation: Aggregation,
    filter: Option<Seq<char>>,
    recipient: Option<AgentId>,
) -> bool {
    &&& (filter matches Some(f) ==> contains_text(aggregation.title@, f))
    &&& (recipient matches Some(r) ==> aggregation.recipient == r)
}

/// The ids of the aggregations that pass the filters, in order.
pub open spec fn matching_aggregations(
    aggregations: Seq<Aggregation>,
    filter: Option<Seq<char>>,
    recipient: Option<AgentId>,
) -> Seq<AggregationId>
    decreases aggregations.len(),
{
    if aggregations.len() == 0 {
        Seq::empty()
    } else {
        let earlier = matching_aggregations(aggregations.drop_last(), filter, recipient);
        if aggregation_matches(aggregations.last(), filter, recipient) {
            earlier.push(aggregations.last().id)
        } else {
            earlier
        }
    }
}

/// The encryption for clerk `j` of each participation that has one, in order.
pub open spec fn share_column(participations: Seq<Participation>, j: int) -> Seq<Seq<u8>>
    decreases participations.len(),
{
    if participations.len() == 0 {
        Seq::empty()
    } else {
        let earlier = share_column(participations.drop_last(), j);
        let last = participations.last();
        if j < last.clerk_encryptions@.len() {
            earlier.push(last.clerk_encryptions@[j].1@)
        } else {
            earlier
        }
    }
}

/// The ids of the snapshots of `aggregation`, in order.
pub open spec fn snapshots_of(snapshots: Seq<Snapshot>, aggregation: AggregationId) -> Seq<
    SnapshotId,
>
    decreases snapshots.len(),
{
    if snapshots.len() == 0 {
        Seq::empty()
    } else {
        let earlier = snapshots_of(snapshots.drop_last(), aggregation);
        if snapshots.last().aggregation == aggregation {
            earlier.push(snapshots.last().id)
        } else {
            earlier
        }
    }
}

/// The message when a snapshot captured nothing.
pub open spec fn missing_snapshot_message() -> Seq<char> {
    missing_record_message()
}

/// The message when a captured participation is gone: it names the
/// participation and the aggregation by their `Debug` forms.
pub open spec fn missing_participation_message(
    participation: ParticipationId,
    aggregation: AggregationId,
) -> Seq<char> {
    "participation id=ParticipationId(Uuid(\""@ + uuid_text(participation.0)
        + "\")) for agg=AggregationId(Uuid(\""@ + uuid_text(aggregation.0) + "\")) not found"@
}

/// The first index from `i` on whose participation is not in `found`, or
/// the length.
pub open spec fn first_missing(ids: Seq<ParticipationId>, found: Map<u128, Participation>, i: int) -> int
    decreases ids.len() - i,
{
    if 0 <= i < ids.len() && found.contains_key(ids[i].0) {
        first_missing(ids, found, i + 1)
    } else {
        i
    }
}

/// Builds `missing_participation_message`.
fn participation_not_found(participation: ParticipationId, aggregation: AggregationId) -> (msg:
    String)
    ensures
        msg@ == missing_participation_message(participation, aggregation),
{
    let mut msg = String::from_str("participation id=ParticipationId(Uuid(\"");
    msg.append(participation.to_string().as_str());
    msg.append("\")) for agg=AggregationId(Uuid(\"");
    msg.append(aggregation.to_string().as_str());
    msg.append("\")) not found");
    msg
}

/// The views of a sequence of encryptions.
pub open spec fn encryption_views(encryptions: Seq<Encryption>) -> Seq<Seq<u8>> {
    encryptions.map_values(|e: Encryption| e@)
}

/// Copies a sequence of encryptions.
pub fn clone_encryptions(encryptions: &Vec<Encryption>) -> (copy: Vec<Encryption>)
    ensures
        encryption_views(copy@) == encryption_views(encryptions@),
{
    let mut copy: Vec<Encryption> = Vec::new();
    let n = encryptions.len();
    let mut i: usize = 0;
    while i < n
        invariant
            n == encryptions@.len(),
            i <= n,
            encryption_views(copy@) == encryption_views(encryptions@.take(i as int)),
        decreases n - i,
    {
        let e = encryptions[i].clone();
        let ghost before = copy@;
        copy.push(e);
        assert(encryption_views(copy@) =~= encryption_views(before).push(e@));
        assert(encryption_views(encryptions@.take(i + 1)) =~= encryption_views(
            encryptions@.take(i as int),
        ).push(encryptions@[i as int]@));
        i = i + 1;
    }
    assert(encryptions@.take(n as int) =~= encryptions@);
    copy
}

/// Aggregations and what hangs off them.
pub struct AggregationsStore {
    /// Aggregations by id.
    pub aggregations: Table<Aggregation>,
    /// Committees by aggregation id.
    pub committees: Table<Committee>,
    /// Participations by aggregation id, then by participation id.
    pub participations: Table<Table<Participation>>,
    /// Snapshots by id.
    pub snapshots: Table<Snapshot>,
    /// The participations captured by each snapshot, by snapshot id.
    pub snapshot_contents: Table<Vec<ParticipationId>>,
    /// The recipient encryptions of each snapshot, by snapshot id.
    pub snapshot_masks: Table<Vec<Encryption>>,
}

impl AggregationsStore {
    /// The participations to an aggregation, in id order.
    pub open spec fn participations_of(&self, aggregation: AggregationId) -> Seq<Participation> {
        if self.participations@.contains_key(aggregation.0) {
            self.participations@[aggregation.0].values()
        } else {
            Seq::empty()
        }
    }

    /// The ids of the participations to an aggregation, in order.
    pub open spec fn participation_keys_of(&self, aggregation: AggregationId) -> Seq<u128> {
        if self.participations@.contains_key(aggregation.0) {
            self.participations@[aggregation.0].keys()
        } else {
            Seq::empty()
        }
    }

    /// The participations a snapshot captured, looked up in the
    /// participations to `aggregation`; none when the snapshot captured
    /// nothing or one of them is missing.
    pub open spec fn snapped_participations(
        &self,
        aggregation: AggregationId,
        snapshot: SnapshotId,
    ) -> Option<Seq<Participation>> {
        if !self.snapshot_contents@.contains_key(snapshot.0) {
            None
        } else {
            let ids = self.snapshot_contents@[snapshot.0]@;
            let found = inner_view(self.participations@, aggregation.0);
            if forall|i: int| 0 <= i < ids.len() ==> found.contains_key(#[trigger] ids[i].0) {
                Some(Seq::new(ids.len(), |i: int| found[ids[i].0]))
            } else {
                None
            }
        }
    }

    /// Why the participations a snapshot captured cannot be had: the
    /// snapshot captured nothing, or the first captured participation that
    /// is gone.
    pub open spec fn snapped_failure(&self, aggregation: AggregationId, snapshot: SnapshotId) -> Seq<
        char,
    > {
        if !self.snapshot_contents@.contains_key(snapshot.0) {
            missing_snapshot_message()
        } else {
            let ids = self.snapshot_contents@[snapshot.0]@;
            let found = inner_view(self.participations@, aggregation.0);
            missing_participation_message(ids[first_missing(ids, found, 0)], aggregation)
        }
    }

    /// The ids of the snapshots of an aggregation.
    pub open spec fn snapshots_of_aggregation(&self, aggregation: AggregationId) -> Set<u128> {
        Set::new(
            |k: u128|
                self.snapshots@.contains_key(k) && self.snapshots@[k].aggregation == aggregation,
        )
    }

    /// All that was recorded of the aggregation in `old` is gone, and the
    /// rest is as it was.
    pub open spec fn aggregation_deleted(&self, old: &AggregationsStore, aggregation: AggregationId) -> bool {
        let doomed = old.snapshots_of_aggregation(aggregation);
        &&& self.aggregations@ == old.aggregations@.remove(aggregation.0)
        &&& self.committees@ == old.committees@.remove(aggregation.0)
        &&& self.participations@ == old.participations@.remove(aggregation.0)
        &&& self.snapshots@ == old.snapshots@.remove_keys(doomed)
        &&& self.snapshot_contents@ == old.snapshot_contents@.remove_keys(doomed)
        &&& self.snapshot_masks@ == old.snapshot_masks@.remove_keys(doomed)
    }

    /// The other tables are as they were.
    pub open spec fn same_but_aggregations(&self, other: &AggregationsStore) -> bool {
        &&& self.committees == other.committees
        &&& self.participations == other.participations
        &&& self.snapshots == other.snapshots
        &&& self.snapshot_contents == other.snapshot_contents
        &&& self.snapshot_masks == other.snapshot_masks
    }

    /// Every aggregation, committee and snapshot is kept under its own id,
    /// every participation under its aggregation and its own id.
    pub open spec fn keyed_by_id(&self) -> bool {
        &&& forall|k: u128|
            #[trigger] self.aggregations@.contains_key(k) ==> self.aggregations@[k].id.0 == k
        &&& forall|k: u128|
            #[trigger] self.committees@.contains_key(k) ==> self.committees@[k].aggregation.0 == k
        &&& forall|a: u128, k: u128|
            self.participations@.contains_key(a) && #[trigger] self.participations@[a]@.contains_key(k)
                ==> self.participations@[a]@[k].aggregation.0 == a
                && self.participations@[a]@[k].id.0 == k
        &&& forall|k: u128| #[trigger] self.snapshots@.contains_key(k) ==> self.snapshots@[k].id.0 == k
    }

    pub fn new() -> (s: AggregationsStore)
        ensures
            s.keyed_by_id(),
            s.aggregations@ == Map::<u128, Aggregation>::empty(),
            s.committees@ == Map::<u128, Committee>::empty(),
            s.participations@ == Map::<u128, Table<Participation>>::empty(),
            s.snapshots@ == Map::<u128, Snapshot>::empty(),
            s.snapshot_contents@ == Map::<u128, Vec<ParticipationId>>::empty(),
            s.snapshot_masks@ == Map::<u128, Vec<Encryption>>::empty(),
    {
        AggregationsStore {
            aggregations: Table::new(),
            committees: Table::new(),
            participations: Table::new(),
            snapshots: Table::new(),
            snapshot_contents: Table::new(),
            snapshot_masks: Table::new(),
        }
    }

    /// The ids of the aggregations, in id order, whose title contains
    /// `filter` and whose recipient is `recipient`, where these are given.
    pub fn list_aggregations(&self, filter: Option<&str>, recipient: Option<&AgentId>) -> (ids: Vec<
        AggregationId,
    >)
        ensures
            ids@ == matching_aggregations(
                self.aggregations.values(),
                filter_text(filter),
                match recipient {
                    Some(r) => Some(*r),
                    None => None,
                },
            ),
    {
        proof {
            use_type_invariant(&self.aggregations);
        }
        let ghost wanted = match recipient {
            Some(r) => Some(*r),
            None => None::<AgentId>,
        };
        let mut ids: Vec<AggregationId> = Vec::new();
        let n = self.aggregations.len();
        let mut i: usize = 0;
        while i < n
            invariant
                n == self.aggregations.keys().len(),
                self.aggregations.values().len() == n,
                i <= n,
                wanted == match recipient {
                    Some(r) => Some(*r),
                    None => None,
                },
                ids@ == matching_aggregations(
                    self.aggregations.values().take(i as int),
                    filter_text(filter),
                    wanted,
                ),
            decreases n - i,
        {
            let aggregation = self.aggregations.value_at(i);
            assert(self.aggregations.values().take(i + 1).drop_last()
                =~= self.aggregations.values().take(i as int));
            let title_ok = match filter {
                Some(f) => str_contains(aggregation.title.as_str(), f),
                None => true,
            };
            let recipient_ok = match recipient {
                Some(r) => aggregation.recipient == *r,
                None => true,
            };
            if title_ok && recipient_ok {
                ids.push(aggregation.id);
            }
            i = i + 1;
        }
        assert(self.aggregations.values().take(n as int) =~= self.aggregations.values());
        ids
    }

    /// Records an aggregation in place of any earlier one with its id.
    pub fn create_aggregation(&mut self, aggregation: Aggregation)
        ensures
            old(self).keyed_by_id() ==> final(self).keyed_by_id(),
            final(self).aggregations@ == old(self).aggregations@.insert(
                aggregation.id.0,
                aggregation,
            ),
            final(self).same_but_aggregations(old(self)),
    {
        let key = aggregation.id.0;
        self.aggregations.upsert(key, aggregation);
    }

    /// The aggregation with the given id.
    pub fn get_aggregation(&self, aggregation: &AggregationId) -> (found: Option<&Aggregation>)
        ensures
            found is Some <==> self.aggregations@.contains_key(aggregation.0),
            found matches Some(a) ==> *a == self.aggregations@[aggregation.0],
    {
        self.aggregations.get(aggregation.0)
    }

    /// The ids of the aggregation's snapshots, in increasing order.
    fn snapshot_ids_of(&self, aggregation: &AggregationId) -> (ids: Vec<u128>)
        ensures
            ids@.to_set() == self.snapshots_of_aggregation(*aggregation),
    {
        proof {
            use_type_invariant(&self.snapshots);
            self.snapshots.lemma_view();
        }
        let ghost keys = self.snapshots.keys();
        let ghost values = self.snapshots.values();
        let mut ids: Vec<u128> = Vec::new();
        let n = self.snapshots.len();
        let mut i: usize = 0;
        while i < n
            invariant
                n == keys.len(),
                n == values.len(),
                keys == self.snapshots.keys(),
                values == self.snapshots.values(),
                i <= n,
                forall|k: u128|
                    ids@.contains(k) <==> exists|j: int|
                        0 <= j < i && #[trigger] keys[j] == k && values[j].aggregation
                            == *aggregation,
            decreases n - i,
        {
            let ghost before = ids@;
            if self.snapshots.value_at(i).aggregation == *aggregation {
                ids.push(self.snapshots.key_at(i));
            }
            assert forall|k: u128|
                ids@.contains(k) <==> exists|j: int|
                    0 <= j < i + 1 && #[trigger] keys[j] == k && values[j].aggregation
                        == *aggregation by {
                if ids@.contains(k) && !before.contains(k) {
                    assert(ids@ == before.push(keys[i as int]));
                    assert(k == keys[i as int]);
                }
                if exists|j: int|
                    0 <= j < i + 1 && #[trigger] keys[j] == k && values[j].aggregation
                        == *aggregation {
                    let j = choose|j: int|
                        0 <= j < i + 1 && #[trigger] keys[j] == k && values[j].aggregation
                            == *aggregation;
                    if j == i {
                        assert(ids@ == before.push(keys[i as int]));
                        assert(ids@[before.len() as int] == k);
                    } else {
                        assert(before.contains(k));
                        let m = choose|m: int| 0 <= m < before.len() && before[m] == k;
                        assert(ids@[m] == k);
                    }
                }
            }
            i = i + 1;
        }
        assert forall|k: u128|
            ids@.to_set().contains(k) <==> self.snapshots_of_aggregation(*aggregation).contains(
                k,
            ) by {
            if self.snapshots@.contains_key(k) {
                let j = keys.index_of(k);
                assert(keys[j] == k);
            }
        }
        assert(ids@.to_set() =~= self.snapshots_of_aggregation(*aggregation));
        ids
    }

    /// Deletes all that is recorded of an aggregation: its description,
    /// its committee, its participations, and its snapshots with what they
    /// captured and their masks.
    pub fn delete_aggregation(&mut self, aggregation: &AggregationId) -> (res: SdaServerResult<()>)
        ensures
            old(self).keyed_by_id() ==> final(self).keyed_by_id(),
            res is Ok <==> old(self).aggregations@.contains_key(aggregation.0),
            res is Ok ==> final(self).aggregation_deleted(old(self), *aggregation),
            res matches Err(SdaServerError::Msg(msg)) ==> msg@ == missing_record_message()
                && *final(self) == *old(self),
    {
        if !self.aggregations.contains_key(aggregation.0) {
            return Err(SdaServerError::Msg(String::from_str("No such file or directory (os error 2)")));
        }
        let ghost doomed = self.snapshots_of_aggregation(*aggregation);
        let ghost snapshots = self.snapshots@;
        let ghost contents = self.snapshot_contents@;
        let ghost masks = self.snapshot_masks@;
        let ids = self.snapshot_ids_of(aggregation);
        let _ = self.aggregations.remove(aggregation.0);
        let _ = self.committees.remove(aggregation.0);
        let _ = self.participations.remove(aggregation.0);
        let ghost aggregations = self.aggregations;
        let ghost committees = self.committees;
        let ghost participations = self.participations;
        let n = ids.len();
        let mut i: usize = 0;
        assert(ids@.take(0).to_set() =~= Set::<u128>::empty());
        assert(snapshots.remove_keys(Set::<u128>::empty()) =~= snapshots);
        assert(contents.remove_keys(Set::<u128>::empty()) =~= contents);
        assert(masks.remove_keys(Set::<u128>::empty()) =~= masks);
        while i < n
            invariant
                n == ids@.len(),
                i <= n,
                self.snapshots@ == snapshots.remove_keys(ids@.take(i as int).to_set()),
                self.snapshot_contents@ == contents.remove_keys(ids@.take(i as int).to_set()),
                self.snapshot_masks@ == masks.remove_keys(ids@.take(i as int).to_set()),
                self.aggregations == aggregations,
                self.committees == committees,
                self.participations == participations,
            decreases n - i,
        {
            let id = ids[i];
            let ghost done = ids@.take(i as int).to_set();
            assert(ids@.take(i + 1).to_set() =~= done.insert(id)) by {
                assert(ids@.take(i + 1) =~= ids@.take(i as int).push(id));
                ids@.take(i as int).lemma_push_to_set_commute(id);
            }
            let _ = self.snapshots.remove(id);
            let _ = self.snapshot_contents.remove(id);
            let _ = self.snapshot_masks.remove(id);
            assert(self.snapshots@ =~= snapshots.remove_keys(done.insert(id)));
            assert(self.snapshot_contents@ =~= contents.remove_keys(done.insert(id)));
            assert(self.snapshot_masks@ =~= masks.remove_keys(done.insert(id)));
            i = i + 1;
        }
        assert(ids@.take(n as int) =~= ids@);
        Ok(())
    }

    /// The committee of the given aggregation.
    pub fn get_committee(&self, owner: &AggregationId) -> (found: Option<&Committee>)
        ensures
            found is Some <==> self.committees@.contains_key(owner.0),
            found matches Some(c) ==> *c == self.committees@[owner.0],
    {
        self.committees.get(owner.0)
    }

    /// Records the committee of its aggregation, in place of any earlier one.
    pub fn create_committee(&mut self, committee: Committee)
        ensures
            old(self).keyed_by_id() ==> final(self).keyed_by_id(),
            final(self).committees@ == old(self).committees@.insert(
                committee.aggregation.0,
                committee,
            ),
            final(self).aggregations == old(self).aggregations,
            final(self).participations == old(self).participations,
            final(self).snapshots == old(self).snapshots,
            final(self).snapshot_contents == old(self).snapshot_contents,
            final(self).snapshot_masks == old(self).snapshot_masks,
    {
        let key = committee.aggregation.0;
        self.committees.upsert(key, committee);
    }

    /// Records a participation to its aggregation, in place of any earlier
    /// one with its id.
    pub fn create_participation(&mut self, participation: Participation)
        ensures
            old(self).keyed_by_id() ==> final(self).keyed_by_id(),
            final(self).participations@.dom() == old(self).participations@.dom().insert(
                participation.aggregation.0,
            ),
            forall|x: u128|
                x != participation.aggregation.0 && #[trigger] old(self).participations@.contains_key(x) ==> final(self).participations@[x] == old(self).participations@[x],
            final(self).participations@[participation.aggregation.0]@ == inner_view(
                old(self).participations@,
                participation.aggregation.0,
            ).insert(participation.id.0, participation),
            final(self).participations_of(participation.aggregation).len() == old(
                self,
            ).participations_of(participation.aggregation).len() + if inner_view(
                old(self).participations@,
                participation.aggregation.0,
            ).contains_key(participation.id.0) {
                0int
            } else {
                1int
            },
            final(self).aggregations == old(self).aggregations,
            final(self).committees == old(self).committees,
            final(self).snapshots == old(self).snapshots,
            final(self).snapshot_contents == old(self).snapshot_contents,
            final(self).snapshot_masks == old(self).snapshot_masks,
    {
        let a = participation.aggregation.0;
        let p = participation.id.0;
        self.participations.upsert_in(a, p, participation);
        proof {
            lemma_table_lengths(self.participations@[a]);
            if old(self).participations@.contains_key(a) {
                lemma_table_lengths(old(self).participations@[a]);
            }
        }
    }

    /// Records a snapshot in place of any earlier one with its id.
    pub fn create_snapshot(&mut self, snapshot: &Snapshot)
        ensures
            old(self).keyed_by_id() ==> final(self).keyed_by_id(),
            final(self).snapshots@ == old(self).snapshots@.insert(snapshot.id.0, *snapshot),
            final(self).aggregations == old(self).aggregations,
            final(self).committees == old(self).committees,
            final(self).participations == old(self).participations,
            final(self).snapshot_contents == old(self).snapshot_contents,
            final(self).snapshot_masks == old(self).snapshot_masks,
    {
        self.snapshots.upsert(snapshot.id.0, *snapshot);
    }

    /// Number of participations to an aggregation.
    pub fn count_participations(&self, aggregation: &AggregationId) -> (n: usize)
        ensures
            n == self.participations_of(*aggregation).len(),
            n == inner_view(self.participations@, aggregation.0).dom().len(),
    {
        if let Some(inner) = self.participations.get(aggregation.0) {
            proof {
                lemma_table_lengths(*inner);
                use_type_invariant(inner);
                inner.lemma_dom_len();
            }
        }
        self.participations.len_in(aggregation.0)
    }

    /// Captures the current participations to an aggregation under a
    /// snapshot id, in place of anything captured earlier under that id.
    pub fn snapshot_participations(&mut self, aggregation: &AggregationId, snapshot: &SnapshotId)
        ensures
            old(self).keyed_by_id() ==> final(self).keyed_by_id(),
            final(self).snapshot_contents@.dom() == old(self).snapshot_contents@.dom().insert(
                snapshot.0,
            ),
            forall|x: u128|
                x != snapshot.0 && #[trigger] old(self).snapshot_contents@.contains_key(x)
                    ==> final(self).snapshot_contents@[x] == old(self).snapshot_contents@[x],
            final(self).snapshot_contents@[snapshot.0]@ == old(self).participation_keys_of(
                *aggregation,
            ).map_values(|k: u128| ParticipationId(k)),
            final(self).aggregations == old(self).aggregations,
            final(self).committees == old(self).committees,
            final(self).participations == old(self).participations,
            final(self).snapshots == old(self).snapshots,
            final(self).snapshot_masks == old(self).snapshot_masks,
            final(self).snapped_participations(*aggregation, *snapshot) == Some(
                old(self).participations_of(*aggregation),
            ),
    {
        let mut ids: Vec<ParticipationId> = Vec::new();
        match self.participations.get(aggregation.0) {
            Some(inner) => {
                proof {
                    use_type_invariant(inner);
                    inner.lemma_view();
                }
                let n = inner.len();
                let mut i: usize = 0;
                while i < n
                    invariant
                        n == inner.keys().len(),
                        i <= n,
                        ids@ == inner.keys().take(i as int).map_values(|k: u128| ParticipationId(k)),
                    decreases n - i,
                {
                    let k = inner.key_at(i);
                    ids.push(ParticipationId(k));
                    assert(ids@ =~= inner.keys().take(i + 1).map_values(
                        |k: u128| ParticipationId(k),
                    ));
                    i = i + 1;
                }
                assert(inner.keys().take(n as int) =~= inner.keys());
            },
            None => {
                assert(ids@ =~= Seq::<u128>::empty().map_values(|k: u128| ParticipationId(k)));
            },
        }
        let ghost snapped = ids@;
        self.snapshot_contents.upsert(snapshot.0, ids);
        assert(final(self).snapshot_contents@.dom() =~= old(self).snapshot_contents@.dom().insert(
            snapshot.0,
        ));
        proof {
            let found = inner_view(self.participations@, aggregation.0);
            let keys = old(self).participation_keys_of(*aggregation);
            let values = old(self).participations_of(*aggregation);
            assert(self.snapshot_contents@[snapshot.0]@ == snapped);
            if self.participations@.contains_key(aggregation.0) {
                lemma_table_lengths(self.participations@[aggregation.0]);
                assert forall|i: int| 0 <= i < snapped.len() implies found.contains_key(
                    #[trigger] snapped[i].0,
                ) && found[snapped[i].0] == values[i] by {
                    assert(snapped[i].0 == keys[i]);
                    assert(keys.contains(keys[i]));
                }
            }
            assert(Seq::new(snapped.len(), |i: int| found[snapped[i].0]) =~= values);
        }
    }

    /// The snapshots of an aggregation, in id order.
    pub fn list_snapshots(&self, aggregation: &AggregationId) -> (ids: Vec<SnapshotId>)
        ensures
            ids@ == snapshots_of(self.snapshots.values(), *aggregation),
    {
        proof {
            use_type_invariant(&self.snapshots);
        }
        let mut ids: Vec<SnapshotId> = Vec::new();
        let n = self.snapshots.len();
        let mut i: usize = 0;
        while i < n
            invariant
                n == self.snapshots.keys().len(),
                self.snapshots.values().len() == n,
                i <= n,
                ids@ == snapshots_of(self.snapshots.values().take(i as int), *aggregation),
            decreases n - i,
        {
            let snapshot = self.snapshots.value_at(i);
            assert(self.snapshots.values().take(i + 1).drop_last()
                =~= self.snapshots.values().take(i as int));
            if snapshot.aggregation == *aggregation {
                ids.push(snapshot.id);
            }
            i = i + 1;
        }
        assert(self.snapshots.values().take(n as int) =~= self.snapshots.values());
        ids
    }

    /// The snapshot with the given id.
    pub fn get_snapshot(&self, _aggregation: &AggregationId, snapshot: &SnapshotId) -> (found:
        Option<&Snapshot>)
        ensures
            found is Some <==> self.snapshots@.contains_key(snapshot.0),
            found matches Some(s) ==> *s == self.snapshots@[snapshot.0],
    {
        self.snapshots.get(snapshot.0)
    }

    /// The participations a snapshot captured, in the order captured.
    pub fn iter_snapped_participations(&self, aggregation: &AggregationId, snapshot: &SnapshotId) -> (res:
        SdaServerResult<Vec<&Participation>>)
        ensures
            match self.snapped_participations(*aggregation, *snapshot) {
                Some(found) => res matches Ok(ps) && ps@.map_values(|p: &Participation| *p)
                    == found,
                None => res matches Err(SdaServerError::Msg(msg)) && msg@
                    == self.snapped_failure(*aggregation, *snapshot),
            },
    {
        let contents = match self.snapshot_contents.get(snapshot.0) {
            Some(c) => c,
            None => {
                return Err(
                    SdaServerError::Msg(String::from_str("No such file or directory (os error 2)")),
                );
            },
        };
        let ghost ids = contents@;
        let ghost found = inner_view(self.participations@, aggregation.0);
        let mut participations: Vec<&Participation> = Vec::new();
        let n = contents.len();
        let mut i: usize = 0;
        while i < n
            invariant
                n == ids.len(),
                contents@ == ids,
                self.snapshot_contents@.contains_key(snapshot.0),
                ids == self.snapshot_contents@[snapshot.0]@,
                found == inner_view(self.participations@, aggregation.0),
                i <= n,
                forall|j: int| 0 <= j < i ==> found.contains_key(#[trigger] ids[j].0),
                first_missing(ids, found, 0) == first_missing(ids, found, i as int),
                participations@.map_values(|p: &Participation| *p) == Seq::new(
                    i as nat,
                    |j: int| found[ids[j].0],
                ),
            decreases n - i,
        {
            let ghost before = participations@;
            match self.participations.get_in(aggregation.0, contents[i].0) {
                Some(p) => {
                    assert(*p == found[ids[i as int].0]);
                    participations.push(p);
                    assert(participations@ == before.push(p));
                    assert(participations@.map_values(|p: &Participation| *p) =~= before.map_values(
                        |p: &Participation| *p,
                    ).push(*p));
                    assert(participations@.map_values(|p: &Participation| *p) =~= Seq::new(
                        (i + 1) as nat,
                        |j: int| found[ids[j].0],
                    ));
                },
                None => {
                    assert(!found.contains_key(ids[i as int].0));
                    let msg = participation_not_found(contents[i], *aggregation);
                    return Err(SdaServerError::Msg(msg));
                },
            }
            i = i + 1;
        }
        Ok(participations)
    }

    /// Number of participations a snapshot captured.
    pub fn count_participations_snapshot(&self, aggregation: &AggregationId, snapshot: &SnapshotId) -> (res:
        SdaServerResult<usize>)
        ensures
            match self.snapped_participations(*aggregation, *snapshot) {
                Some(found) => res matches Ok(n) && n == found.len(),
                None => res matches Err(SdaServerError::Msg(msg)) && msg@
                    == self.snapped_failure(*aggregation, *snapshot),
            },
    {
        let participations = self.iter_snapped_participations(aggregation, snapshot)?;
        assert(participations@.map_values(|p: &Participation| *p).len() == participations@.len());
        Ok(participations.len())
    }

    /// The shares of a snapshot, one list per clerk: list `j` holds, in the
    /// order captured, the encryption for clerk `j` of each captured
    /// participation.
    pub fn iter_snapshot_clerk_jobs_data(
        &self,
        aggregation: &AggregationId,
        snapshot: &SnapshotId,
        clerks_number: usize,
    ) -> (res: SdaServerResult<Vec<Vec<Encryption>>>)
        requires
            self.snapped_participations(*aggregation, *snapshot) matches Some(found) ==> forall|
                i: int,
            |
                0 <= i < found.len() ==> #[trigger] found[i].clerk_encryptions@.len()
                    <= clerks_number,
        ensures
            match self.snapped_participations(*aggregation, *snapshot) {
                Some(found) => res matches Ok(shares) && shares@.len() == clerks_number && forall|
                    j: int,
                |
                    0 <= j < clerks_number ==> encryption_views(#[trigger] shares@[j]@)
                        == share_column(found, j),
                None => res matches Err(SdaServerError::Msg(msg)) && msg@
                    == self.snapped_failure(*aggregation, *snapshot),
            },
    {
        let participations = match self.iter_snapped_participations(aggregation, snapshot) {
            Ok(ps) => ps,
            Err(e) => {
                return Err(e);
            },
        };
        let ghost found = participations@.map_values(|p: &Participation| *p);
        let mut shares: Vec<Vec<Encryption>> = Vec::new();
        let mut j: usize = 0;
        while j < clerks_number
            invariant
                found == participations@.map_values(|p: &Participation| *p),
                j <= clerks_number,
                shares@.len() == j,
                forall|k: int| 0 <= k < j ==> encryption_views(#[trigger] shares@[k]@) == share_column(found, k),
            decreases clerks_number - j,
        {
            let mut column: Vec<Encryption> = Vec::new();
            let n = participations.len();
            let mut i: usize = 0;
            while i < n
                invariant
                    found == participations@.map_values(|p: &Participation| *p),
                    n == found.len(),
                    i <= n,
                    encryption_views(column@) == share_column(found.take(i as int), j as int),
                decreases n - i,
            {
                let p = participations[i];
                assert(found.take(i + 1).drop_last() =~= found.take(i as int));
                assert(found[i as int] == *p);
                if j < p.clerk_encryptions.len() {
                    let e = p.clerk_encryptions[j].1.clone();
                    let ghost before = column@;
                    column.push(e);
                    assert(encryption_views(column@) =~= encryption_views(before).push(e@));
                }
                i = i + 1;
            }
            assert(found.take(n as int) =~= found);
            shares.push(column);
            j = j + 1;
        }
        Ok(shares)
    }

    /// Records the recipient encryptions of a snapshot.
    pub fn create_snapshot_mask(&mut self, snapshot: &SnapshotId, mask: Vec<Encryption>)
        ensures
            old(self).keyed_by_id() ==> final(self).keyed_by_id(),
            final(self).snapshot_masks@ == old(self).snapshot_masks@.insert(snapshot.0, mask),
            final(self).aggregations == old(self).aggregations,
            final(self).committees == old(self).committees,
            final(self).participations == old(self).participations,
            final(self).snapshots == old(self).snapshots,
            final(self).snapshot_contents == old(self).snapshot_contents,
    {
        self.snapshot_masks.upsert(snapshot.0, mask);
    }

    /// The recipient encryptions of a snapshot.
    pub fn get_snapshot_mask(&self, snapshot: &SnapshotId) -> (found: Option<&Vec<Encryption>>)
        ensures
            found is Some <==> self.snapshot_masks@.contains_key(snapshot.0),
            found matches Some(m) ==> *m == self.snapshot_masks@[snapshot.0],
    {
        self.snapshot_masks.get(snapshot.0)
    }
}


/// With no filter, every aggregation is listed, in order.
pub proof fn law_unfiltered_listing_is_complete(aggregations: Seq<Aggregation>)
    ensures
        matching_aggregations(aggregations, None, None) == aggregations.map_values(
            |a: Aggregation| a.id,
        ),
    decreases aggregations.len(),
{
    if aggregations.len() > 0 {
        law_unfiltered_listing_is_complete(aggregations.drop_last());
        assert(aggregations.map_values(|a: Aggregation| a.id) =~= aggregations.drop_last().map_values(
            |a: Aggregation| a.id,
        ).push(aggregations.last().id));
    } else {
        assert(aggregations.map_values(|a: Aggregation| a.id) =~= Seq::<AggregationId>::empty());
    }
}

/// Every listed aggregation passes the filters.
pub proof fn law_listed_aggregations_match(
    aggregations: Seq<Aggregation>,
    filter: Option<Seq<char>>,
    recipient: Option<AgentId>,
    k: int,
)
    requires
        0 <= k < matching_aggregations(aggregations, filter, recipient).len(),
    ensures
        exists|i: int|
            0 <= i < aggregations.len() && #[trigger] aggregations[i].id == matching_aggregations(
                aggregations,
                filter,
                recipient,
            )[k] && aggregation_matches(aggregations[i], filter, recipient),
    decreases aggregations.len(),
{
    let earlier = matching_aggregations(aggregations.drop_last(), filter, recipient);
    if k < earlier.len() {
        law_listed_aggregations_match(aggregations.drop_last(), filter, recipient, k);
        let i = choose|i: int|
            0 <= i < aggregations.drop_last().len() && #[trigger] aggregations.drop_last()[i].id
                == earlier[k] && aggregation_matches(aggregations.drop_last()[i], filter, recipient);
        assert(aggregations[i] == aggregations.drop_last()[i]);
    } else {
        let i = aggregations.len() - 1;
        assert(aggregations[i].id == matching_aggregations(aggregations, filter, recipient)[k]);
    }
}

/// When every participation has one encryption per clerk, the shares for
/// clerk `j` are the `j`-th encryption of every participation, in order:
/// the clerks' shares are the transpose of the participations'.
pub proof fn law_shares_transpose(participations: Seq<Participation>, clerks: nat, j: int)
    requires
        0 <= j < clerks,
        forall|i: int|
            0 <= i < participations.len() ==> (#[trigger] participations[i]).clerk_encryptions@.len()
                == clerks,
    ensures
        share_column(participations, j).len() == participations.len(),
        forall|i: int|
            0 <= i < participations.len() ==> #[trigger] share_column(participations, j)[i]
                == participations[i].clerk_encryptions@[j].1@,
    decreases participations.len(),
{
    if participations.len() > 0 {
        let earlier = participations.drop_last();
        assert forall|i: int| 0 <= i < earlier.len() implies (
        #[trigger] earlier[i]).clerk_encryptions@.len() == clerks by {
            assert(earlier[i] == participations[i]);
        }
        law_shares_transpose(earlier, clerks, j);
        assert(participations.last() == participations[participations.len() - 1]);
        assert forall|i: int| 0 <= i < participations.len() implies #[trigger] share_column(
            participations,
            j,
        )[i] == participations[i].clerk_encryptions@[j].1@ by {
            if i < participations.len() - 1 {
                assert(earlier[i] == participations[i]);
            }
        }
    }
}

/// The participations after recording each of `ps` in turn, by id.
pub open spec fn record_all(recorded: Map<u128, Participation>, ps: Seq<Participation>) -> Map<
    u128,
    Participation,
>
    decreases ps.len(),
{
    if ps.len() == 0 {
        recorded
    } else {
        record_all(recorded, ps.drop_last()).insert(ps.last().id.0, ps.last())
    }
}

/// Recording participations one after the other, resent ones included,
/// leaves one participation per distinct id: a participation sent again
/// under the same id is counted once.
pub proof fn law_participations_counted_by_id(ps: Seq<Participation>)
    ensures
        record_all(Map::empty(), ps).dom() == ps.map_values(|p: Participation| p.id.0).to_set(),
    decreases ps.len(),
{
    if ps.len() > 0 {
        let rest = ps.drop_last();
        law_participations_counted_by_id(rest);
        let ids = ps.map_values(|p: Participation| p.id.0);
        assert(ids =~= rest.map_values(|p: Participation| p.id.0).push(ps.last().id.0));
        rest.map_values(|p: Participation| p.id.0).lemma_push_to_set_commute(ps.last().id.0);
    } else {
        assert(ps.map_values(|p: Participation| p.id.0).to_set() =~= Set::<u128>::empty());
    }
}

/// Aggregations listed in increasing id order are listed without repeats:
/// the listing keeps that order.
pub proof fn law_listing_has_no_duplicates(
    aggregations: Seq<Aggregation>,
    filter: Option<Seq<char>>,
    recipient: Option<AgentId>,
)
    requires
        forall|i: int, j: int|
            0 <= i < j < aggregations.len() ==> #[trigger] aggregations[i].id.0
                < #[trigger] aggregations[j].id.0,
    ensures
        forall|i: int, j: int|
            0 <= i < j < matching_aggregations(aggregations, filter, recipient).len()
                ==> #[trigger] matching_aggregations(aggregations, filter, recipient)[i].0
                < #[trigger] matching_aggregations(aggregations, filter, recipient)[j].0,
        matching_aggregations(aggregations, filter, recipient).no_duplicates(),
    decreases aggregations.len(),
{
    let listed = matching_aggregations(aggregations, filter, recipient);
    if aggregations.len() > 0 {
        let rest = aggregations.drop_last();
        let earlier = matching_aggregations(rest, filter, recipient);
        assert forall|i: int, j: int| 0 <= i < j < rest.len() implies #[trigger] rest[i].id.0
            < #[trigger] rest[j].id.0 by {
            assert(rest[i] == aggregations[i] && rest[j] == aggregations[j]);
        }
        law_listing_has_no_duplicates(rest, filter, recipient);
        assert forall|i: int, j: int| 0 <= i < j < listed.len() implies #[trigger] listed[i].0
            < #[trigger] listed[j].0 by {
            if j >= earlier.len() {
                law_listed_aggregations_match(rest, filter, recipient, i);
                let a = choose|a: int|
                    0 <= a < rest.len() && #[trigger] rest[a].id == earlier[i]
                        && aggregation_matches(rest[a], filter, recipient);
                assert(rest[a] == aggregations[a]);
                assert(aggregations[a].id.0 < aggregations[aggregations.len() - 1].id.0);
            } else {
                assert(listed[i] == earlier[i] && listed[j] == earlier[j]);
            }
        }
    }
    assert forall|i: int, j: int| 0 <= i < listed.len() && 0 <= j < listed.len() && i != j implies listed[i]
        != listed[j] by {
        if i < j {
            assert(listed[i].0 < listed[j].0);
        } else {
            assert(listed[j].0 < listed[i].0);
        }
    }
}

/// Recording participations under ids not recorded before keeps every
/// participation recorded before, as it was.
pub proof fn law_new_ids_keep_earlier(recorded: Map<u128, Participation>, ps: Seq<Participation>)
    requires
        forall|i: int| 0 <= i < ps.len() ==> !recorded.contains_key(#[trigger] ps[i].id.0),
    ensures
        recorded.submap_of(record_all(recorded, ps)),
    decreases ps.len(),
{
    if ps.len() > 0 {
        let rest = ps.drop_last();
        assert forall|i: int| 0 <= i < rest.len() implies !recorded.contains_key(
            #[trigger] rest[i].id.0,
        ) by {
            assert(rest[i] == ps[i]);
        }
        law_new_ids_keep_earlier(recorded, rest);
        assert(ps.last() == ps[ps.len() - 1]);
    }
}

/// A snapshot gives the participations it captured, whatever is recorded
/// after it, as long as none of them is removed or rewritten: later
/// participations are left out.
pub proof fn law_snapshot_ignores_later_participations(
    before: AggregationsStore,
    after: AggregationsStore,
    aggregation: AggregationId,
    snapshot: SnapshotId,
)
    requires
        before.snapshot_contents@.contains_key(snapshot.0),
        after.snapshot_contents@.contains_key(snapshot.0),
        after.snapshot_contents@[snapshot.0]@ == before.snapshot_contents@[snapshot.0]@,
        inner_view(before.participations@, aggregation.0).submap_of(
            inner_view(after.participations@, aggregation.0),
        ),
        before.snapped_participations(aggregation, snapshot) is Some,
    ensures
        after.snapped_participations(aggregation, snapshot) == before.snapped_participations(
            aggregation,
            snapshot,
        ),
{
    let ids = before.snapshot_contents@[snapshot.0]@;
    let old_found = inner_view(before.participations@, aggregation.0);
    let new_found = inner_view(after.participations@, aggregation.0);
    assert forall|i: int| 0 <= i < ids.len() implies new_found.contains_key(#[trigger] ids[i].0)
        && new_found[ids[i].0] == old_found[ids[i].0] by {
        assert(old_found.contains_key(ids[i].0));
    }
    assert(Seq::new(ids.len(), |i: int| new_found[ids[i].0]) =~= Seq::new(
        ids.len(),
        |i: int| old_found[ids[i].0],
    ));
}

/// A participation sent again under its id is counted once: recording a
/// participation `p` one or more times and each of `others` once, all
/// under distinct ids, leaves `others.len() + 1` participations.
pub proof fn law_resent_participation_counted_once(
    p: Participation,
    others: Seq<Participation>,
    sent: Seq<Participation>,
)
    requires
        sent.map_values(|q: Participation| q.id.0).to_set() == others.push(p).map_values(
            |q: Participation| q.id.0,
        ).to_set(),
        others.push(p).map_values(|q: Participation| q.id.0).no_duplicates(),
    ensures
        record_all(Map::empty(), sent).dom().len() == others.len() + 1,
{
    law_participations_counted_by_id(sent);
    others.push(p).map_values(|q: Participation| q.id.0).unique_seq_to_set();
}


/// Every aggregation whose title holds the title filter as a contiguous
/// piece and whose recipient is the given one, where these are given, is
/// listed.
pub proof fn law_filtered_listing_is_complete(
    aggregations: Seq<Aggregation>,
    filter: Option<Seq<char>>,
    recipient: Option<AgentId>,
    i: int,
)
    requires
        0 <= i < aggregations.len(),
        filter matches Some(f) ==> exists|at: int|
            0 <= at && at + f.len() <= aggregations[i].title@.len()
                && #[trigger] aggregations[i].title@.subrange(at, at + f.len()) == f,
        recipient matches Some(r) ==> aggregations[i].recipient == r,
    ensures
        matching_aggregations(aggregations, filter, recipient).contains(aggregations[i].id),
    decreases aggregations.len(),
{
    let rest = aggregations.drop_last();
    let listed = matching_aggregations(aggregations, filter, recipient);
    if i < rest.len() {
        assert(rest[i] == aggregations[i]);
        law_filtered_listing_is_complete(rest, filter, recipient, i);
        let earlier = matching_aggregations(rest, filter, recipient);
        let k = choose|k: int| 0 <= k < earlier.len() && earlier[k] == aggregations[i].id;
        assert(listed[k] == earlier[k]);
    } else {
        assert(aggregations.last() == aggregations[i]);
        assert(listed[listed.len() - 1] == aggregations[i].id);
    }
}

/// Every listed id is the id of an aggregation whose title holds the title
/// filter as a contiguous piece and whose recipient is the given one, where
/// these are given.
pub proof fn law_filtered_listing_is_sound(
    aggregations: Seq<Aggregation>,
    filter: Option<Seq<char>>,
    recipient: Option<AgentId>,
    k: int,
)
    requires
        0 <= k < matching_aggregations(aggregations, filter, recipient).len(),
    ensures
        exists|i: int|
            0 <= i < aggregations.len() && #[trigger] aggregations[i].id == matching_aggregations(
                aggregations,
                filter,
                recipient,
            )[k] && (filter matches Some(f) ==> exists|at: int|
                0 <= at && at + f.len() <= aggregations[i].title@.len()
                    && #[trigger] aggregations[i].title@.subrange(at, at + f.len()) == f) && (
            recipient matches Some(r) ==> aggregations[i].recipient == r),
{
    law_listed_aggregations_match(aggregations, filter, recipient, k);
}

/// The snapshots listed for an aggregation are exactly the snapshots of
/// that aggregation, in order: the ids of the snapshots kept by a filter on
/// the aggregation. In particular each snapshot of it is listed.
pub proof fn law_snapshots_of_are_exact(snapshots: Seq<Snapshot>, aggregation: AggregationId)
    ensures
        snapshots_of(snapshots, aggregation) == snapshots.filter(
            |s: Snapshot| s.aggregation == aggregation,
        ).map_values(|s: Snapshot| s.id),
        forall|i: int|
            0 <= i < snapshots.len() && #[trigger] snapshots[i].aggregation == aggregation
                ==> snapshots_of(snapshots, aggregation).contains(snapshots[i].id),
    decreases snapshots.len(),
{
    let pred = |s: Snapshot| s.aggregation == aggregation;
    if snapshots.len() > 0 {
        let n = snapshots.len() - 1;
        let rest = snapshots.drop_last();
        law_snapshots_of_are_exact(rest, aggregation);
        assert(snapshots.last() == snapshots[n]);
        assert(snapshots =~= rest.push(snapshots.last()));
        rest.lemma_filter_push(snapshots.last(), pred);
        if pred(snapshots.last()) {
            assert(rest.filter(pred).push(snapshots.last()).map_values(|s: Snapshot| s.id)
                =~= rest.filter(pred).map_values(|s: Snapshot| s.id).push(snapshots.last().id));
        }
        assert forall|i: int|
            0 <= i < snapshots.len() && #[trigger] snapshots[i].aggregation == aggregation
                implies snapshots_of(snapshots, aggregation).contains(snapshots[i].id) by {
            if i < n {
                assert(rest[i] == snapshots[i]);
                let k = choose|k: int|
                    0 <= k < snapshots_of(rest, aggregation).len()
                        && snapshots_of(rest, aggregation)[k] == snapshots[i].id;
                assert(snapshots_of(snapshots, aggregation)[k] == snapshots_of(rest, aggregation)[k]);
            } else {
                let m = snapshots_of(snapshots, aggregation).len() - 1;
                assert(snapshots_of(snapshots, aggregation)[m] == snapshots[i].id);
            }
        }
    } else {
        assert(snapshots.filter(pred) =~= Seq::<Snapshot>::empty());
        assert(snapshots.filter(pred).map_values(|s: Snapshot| s.id) =~= Seq::<SnapshotId>::empty());
    }
}

} // verus!
