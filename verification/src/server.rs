//! The aggregation workflow of an SDA server, over its four stores.

use vstd::prelude::*;

use crate::aggregations::{
    clone_encryptions, encryption_views, filter_text, law_listing_has_no_duplicates,
    matching_aggregations,
    share_column, snapshots_of,
    AggregationsStore,
};
use crate::clerking_jobs::{
    add_jobs, law_added_jobs_are_queued, law_added_jobs_come_from, law_jobs_leave_other_queues, lemma_add_jobs_keyed,
    queue_views, result_filing,
    same_result, ClerkingJobStore,
};
use crate::crypto::Encryption;
use crate::errors::{SdaError, SdaResult, SdaServerError, SdaServerResult};
use crate::ids::{random_uuid, AgentId, AggregationId, ClerkingJobId, EncryptionKeyId, SnapshotId};
use crate::resources::{
    Agent, Aggregation, AggregationStatus, AuthToken, ClerkCandidate, ClerkingJob,
    ClerkingJobView, ClerkingResult, Committee, Participation, Pong, Profile, SignedEncryptionKey,
    Snapshot, SnapshotResult, SnapshotStatus,
};
use crate::stores::{missing_record_message, AgentStore, AuthStore};
use crate::table::{inner_view, lemma_table_lengths, Table};

verus! {

/// Two tokens name the same agent with the same secret.
pub open spec fn same_token(a: AuthToken, b: AuthToken) -> bool {
    a.id == b.id && a.body@ == b.body@
}

/// The recorded token of the token's agent is that same token.
pub open spec fn token_accepted(server: SdaServer, token: AuthToken) -> bool {
    let tokens = server.auth_token_store.auth_tokens@;
    tokens.contains_key(token.id.0) && same_token(tokens[token.id.0], token)
}

/// What checking a token gives: the agent it authenticates, or why not.
pub open spec fn credential_check(server: SdaServer, token: AuthToken, res: SdaResult<Agent>) -> bool {
    if token_accepted(server, token) {
        if server.agent_store.agents@.contains_key(token.id.0) {
            res == Ok::<Agent, SdaError>(server.agent_store.agents@[token.id.0])
        } else {
            res matches Err(SdaError::Msg(msg)) && msg@ == agent_not_found_message()
        }
    } else {
        res == Err::<Agent, SdaError>(SdaError::InvalidCredentials)
    }
}

/// Once a token is recorded, it is accepted.
pub proof fn law_recorded_token_is_accepted(before: SdaServer, after: SdaServer, token: AuthToken)
    requires
        after.auth_token_store.auth_tokens@ == before.auth_token_store.auth_tokens@.insert(
            token.id.0,
            token,
        ),
    ensures
        token_accepted(after, token),
{
}

/// A token replaced by another secret of the same agent is no longer
/// accepted.
pub proof fn law_replaced_token_is_rejected(
    before: SdaServer,
    after: SdaServer,
    replaced: AuthToken,
    token: AuthToken,
)
    requires
        after.auth_token_store.auth_tokens@ == before.auth_token_store.auth_tokens@.insert(
            token.id.0,
            token,
        ),
        replaced.id == token.id,
        replaced.body@ != token.body@,
    ensures
        !token_accepted(after, replaced),
{
}

/// Once the token of an agent is deleted, no token of that agent is
/// accepted.
pub proof fn law_deleted_token_is_rejected(before: SdaServer, after: SdaServer, token: AuthToken)
    requires
        after.auth_token_store.auth_tokens@ == before.auth_token_store.auth_tokens@.remove(
            token.id.0,
        ),
    ensures
        !token_accepted(after, token),
{
}

/// Tokens of other agents are not affected by recording a token.
pub proof fn law_other_tokens_unaffected(
    before: SdaServer,
    after: SdaServer,
    recorded: AuthToken,
    token: AuthToken,
)
    requires
        after.auth_token_store.auth_tokens@ == before.auth_token_store.auth_tokens@.insert(
            recorded.id.0,
            recorded,
        ),
        recorded.id != token.id,
    ensures
        token_accepted(after, token) == token_accepted(before, token),
{
}

/// The message when a token matches but its agent is unknown.
pub open spec fn agent_not_found_message() -> Seq<char> {
    "Agent not found"@
}

/// The message when a snapshot names an unknown aggregation.
pub open spec fn lost_aggregation_message() -> Seq<char> {
    "lost aggregation"@
}

/// The message when a snapshot's aggregation has no committee.
pub open spec fn lost_committee_message() -> Seq<char> {
    "lost committee"@
}

/// The message when a masked aggregation has a participation without a
/// recipient encryption.
pub open spec fn missing_recipient_encryption_message() -> Seq<char> {
    "participation should have had a recipient encryption"@
}

/// The message when committee suggestions are asked for an unknown
/// aggregation.
pub open spec fn deleted_aggregation_message() -> Seq<char> {
    "deleted aggregation"@
}

/// The recipient encryptions of the participations, in order, if every one
/// has one.
pub open spec fn recipient_encryptions(participations: Seq<Participation>) -> Option<Seq<Seq<u8>>>
    decreases participations.len(),
{
    if participations.len() == 0 {
        Some(Seq::empty())
    } else {
        match recipient_encryptions(participations.drop_last()) {
            Some(earlier) => match participations.last().recipient_encryption {
                Some(e) => Some(earlier.push(e@)),
                None => None,
            },
            None => None,
        }
    }
}

/// Once a prefix lacks a recipient encryption, every longer prefix does.
proof fn lemma_recipient_encryptions_missing(participations: Seq<Participation>, i: int, k: int)
    requires
        0 <= i < k <= participations.len(),
        recipient_encryptions(participations.take(i)) is None
            || participations[i].recipient_encryption is None,
    ensures
        recipient_encryptions(participations.take(k)) is None,
    decreases k - i,
{
    if k == i + 1 {
        assert(participations.take(k).drop_last() =~= participations.take(i));
    } else {
        lemma_recipient_encryptions_missing(participations, i, k - 1);
        assert(participations.take(k).drop_last() =~= participations.take(k - 1));
    }
}

/// The masks with `encryptions` recorded for `snapshot`.
pub open spec fn mask_recorded(
    old_masks: Map<u128, Vec<Encryption>>,
    new_masks: Map<u128, Vec<Encryption>>,
    snapshot: SnapshotId,
    encryptions: Seq<Seq<u8>>,
) -> bool {
    &&& new_masks.dom() == old_masks.dom().insert(snapshot.0)
    &&& forall|x: u128|
        x != snapshot.0 && #[trigger] old_masks.contains_key(x) ==> new_masks[x] == old_masks[x]
    &&& encryption_views(new_masks[snapshot.0]@) == encryptions
}

/// The jobs a snapshot creates: one per clerk of the committee, in
/// committee order, holding the column of shares meant for that clerk.
pub open spec fn snapshot_jobs(
    snapshot: Snapshot,
    committee: Committee,
    participations: Seq<Participation>,
    job_ids: Seq<ClerkingJobId>,
) -> Seq<ClerkingJobView> {
    Seq::new(
        committee.clerks_and_keys@.len(),
        |j: int|
            ClerkingJobView {
                id: job_ids[j],
                clerk: committee.clerks_and_keys@[j].0,
                aggregation: snapshot.aggregation,
                snapshot: snapshot.id,
                encryptions: share_column(participations, j),
            },
    )
}

/// The status of one snapshot.
pub open spec fn snapshot_status(
    aggregation: Option<Aggregation>,
    jobs: &ClerkingJobStore,
    snapshot: SnapshotId,
) -> SnapshotStatus {
    let n = jobs.results_of(snapshot).len();
    SnapshotStatus {
        id: snapshot,
        number_of_clerking_results: n as usize,
        result_ready: match aggregation {
            Some(a) => n >= a.committee_sharing_scheme.spec_reconstruction_threshold(),
            None => false,
        },
    }
}

/// What taking a snapshot leaves behind (see `SdaServer::create_snapshot`).
pub open spec fn snapshot_outcome(
    old: SdaServer,
    new: SdaServer,
    snapshot: Snapshot,
    res: SdaServerResult<()>,
) -> bool {
    match old.aggregation_of(snapshot.aggregation) {
        None => {
            &&& res matches Err(SdaServerError::Msg(msg)) && msg@
                == lost_aggregation_message()
            &&& new == old
        },
        Some(aggregation) => {
            let old_store = old.aggregation_store;
            let new_store = new.aggregation_store;
            let participations = old_store.participations_of(snapshot.aggregation);
            &&& new.agent_store == old.agent_store
            &&& new.auth_token_store == old.auth_token_store
            &&& new_store.aggregations == old_store.aggregations
            &&& new_store.committees == old_store.committees
            &&& new_store.participations == old_store.participations
            &&& new_store.snapshot_contents@.dom() == old_store.snapshot_contents@.dom().insert(
                snapshot.id.0,
            )
            &&& forall|x: u128|
                x != snapshot.id.0 && #[trigger] old_store.snapshot_contents@.contains_key(x)
                    ==> new_store.snapshot_contents@[x] == old_store.snapshot_contents@[x]
            &&& new_store.snapshot_contents@[snapshot.id.0]@ == old_store.participation_keys_of(
                snapshot.aggregation,
            ).map_values(|k: u128| crate::ids::ParticipationId(k))
            &&& if !old_store.committees@.contains_key(snapshot.aggregation.0) {
                &&& res matches Err(SdaServerError::Msg(msg)) && msg@
                    == lost_committee_message()
                &&& new.clerking_job_store == old.clerking_job_store
                &&& new_store.snapshots == old_store.snapshots
                &&& new_store.snapshot_masks == old_store.snapshot_masks
            } else {
                let committee = old_store.committees@[snapshot.aggregation.0];
                &&& exists|job_ids: Seq<ClerkingJobId>|
                    job_ids.len() == committee.clerks_and_keys@.len() && (forall|j: int|
                        0 <= j < job_ids.len() ==> random_uuid(#[trigger] job_ids[j].0))
                        && queue_views(
                        new.clerking_job_store.queue@,
                    ) == add_jobs(
                        queue_views(old.clerking_job_store.queue@),
                        snapshot_jobs(snapshot, committee, participations, job_ids),
                    )
                &&& new.clerking_job_store.results == old.clerking_job_store.results
                &&& new.clerking_job_store.done == old.clerking_job_store.done
                &&& new_store.snapshots@ == old_store.snapshots@.insert(
                    snapshot.id.0,
                    snapshot,
                )
                &&& if !aggregation.masking_scheme.spec_has_mask() {
                    &&& res is Ok
                    &&& new_store.snapshot_masks == old_store.snapshot_masks
                } else {
                    match recipient_encryptions(participations) {
                        Some(encryptions) => {
                            &&& res is Ok
                            &&& mask_recorded(
                                old_store.snapshot_masks@,
                                new_store.snapshot_masks@,
                                snapshot.id,
                                encryptions,
                            )
                        },
                        None => {
                            &&& res matches Err(SdaServerError::Msg(msg)) && msg@
                                == missing_recipient_encryption_message()
                            &&& new_store.snapshot_masks == old_store.snapshot_masks
                        },
                    }
                }
            }
        },
    }
}

/// What recording an agent leaves behind (see `AgentStore::create_agent`).
pub open spec fn agent_creation(old: SdaServer, new: SdaServer, agent: Agent, res: SdaServerResult<()>) -> bool {
    &&& new.agent_store.profiles == old.agent_store.profiles
    &&& new.agent_store.encryption_keys == old.agent_store.encryption_keys
    &&& new.auth_token_store == old.auth_token_store
    &&& new.aggregation_store == old.aggregation_store
    &&& new.clerking_job_store == old.clerking_job_store
    &&& (res is Ok <==> !(old.agent_store.agents@.contains_key(agent.id.0)
        && old.agent_store.agents@[agent.id.0] != agent))
    &&& (res is Ok ==> new.agent_store.agents@ == old.agent_store.agents@.insert(agent.id.0, agent))
    &&& (res is Err ==> new.agent_store.agents@ == old.agent_store.agents@)
    &&& (res matches Err(SdaServerError::Msg(msg)) ==> msg@ == crate::stores::already_exists_message())
}

/// What recording an encryption key leaves behind (see
/// `AgentStore::create_encryption_key`).
pub open spec fn key_creation(
    old: SdaServer,
    new: SdaServer,
    key: SignedEncryptionKey,
    res: SdaServerResult<()>,
) -> bool {
    &&& new.agent_store.agents == old.agent_store.agents
    &&& new.agent_store.profiles == old.agent_store.profiles
    &&& new.auth_token_store == old.auth_token_store
    &&& new.aggregation_store == old.aggregation_store
    &&& new.clerking_job_store == old.clerking_job_store
    &&& (res is Ok <==> !(old.agent_store.encryption_keys@.contains_key(key.body.id.0)
        && old.agent_store.encryption_keys@[key.body.id.0] != key))
    &&& (res is Ok ==> new.agent_store.encryption_keys@ == old.agent_store.encryption_keys@.insert(
        key.body.id.0,
        key,
    ))
    &&& (res is Err ==> new.agent_store.encryption_keys@ == old.agent_store.encryption_keys@)
    &&& (res matches Err(SdaServerError::Msg(msg)) ==> msg@ == crate::stores::already_exists_message())
}

/// A snapshot of the aggregation has results from enough clerks to be
/// reconstructed.
pub open spec fn result_available(server: SdaServer, aggregation: AggregationId, snapshot: SnapshotId) -> bool {
    let store = server.aggregation_store;
    &&& server.aggregation_of(aggregation) is Some
    &&& store.snapshots@.contains_key(snapshot.0)
    &&& store.snapshots@[snapshot.0].aggregation == aggregation
    &&& server.clerking_job_store.results_of(snapshot).len()
        >= server.aggregation_of(aggregation)->Some_0.committee_sharing_scheme.spec_reconstruction_threshold()
}

/// What a snapshot's result holds: the snapshot, how many participations it
/// captured, copies of the clerks' results in job id order, and copies of
/// the recipient encryptions if any were recorded.
pub open spec fn snapshot_result_holds(
    server: SdaServer,
    snapshot: SnapshotId,
    participations: Seq<Participation>,
    result: SnapshotResult,
) -> bool {
    let results = server.clerking_job_store.results_of(snapshot);
    let masks = server.aggregation_store.snapshot_masks@;
    &&& result.snapshot == snapshot
    &&& result.number_of_participations == participations.len()
    &&& result.clerk_encryptions@.len() == results.len()
    &&& forall|i: int|
        0 <= i < results.len() ==> same_result(#[trigger] result.clerk_encryptions@[i], results[i])
    &&& (result.recipient_encryptions is Some <==> masks.contains_key(snapshot.0))
    &&& (result.recipient_encryptions matches Some(m) ==> encryption_views(m@) == encryption_views(
        masks[snapshot.0]@,
    ))
}

/// What asking for a snapshot's result gives: nothing until enough clerks
/// have answered, then the result, or an error where the snapshot's
/// participations are gone.
pub open spec fn snapshot_result_outcome(
    server: SdaServer,
    aggregation: AggregationId,
    snapshot: SnapshotId,
    res: SdaServerResult<Option<SnapshotResult>>,
) -> bool {
    if !result_available(server, aggregation, snapshot) {
        res == Ok::<Option<SnapshotResult>, SdaServerError>(None)
    } else {
        match server.aggregation_store.snapped_participations(aggregation, snapshot) {
            Some(participations) => res matches Ok(Some(r)) && snapshot_result_holds(
                server,
                snapshot,
                participations,
                r,
            ),
            None => res matches Err(SdaServerError::Msg(msg)) && msg@
                == server.aggregation_store.snapped_failure(aggregation, snapshot),
        }
    }
}

/// A snapshot keeps every record under its own identifier.
proof fn lemma_snapshot_keyed(old: SdaServer, new: SdaServer, snapshot: Snapshot, res: SdaServerResult<()>)
    requires
        old.keyed_by_id(),
        snapshot_outcome(old, new, snapshot, res),
    ensures
        new.keyed_by_id(),
{
    if old.aggregation_of(snapshot.aggregation) is Some && old.aggregation_store.committees@.contains_key(
        snapshot.aggregation.0,
    ) {
        let committee = old.aggregation_store.committees@[snapshot.aggregation.0];
        let participations = old.aggregation_store.participations_of(snapshot.aggregation);
        let job_ids = choose|job_ids: Seq<ClerkingJobId>|
            job_ids.len() == committee.clerks_and_keys@.len() && (forall|j: int|
                0 <= j < job_ids.len() ==> random_uuid(#[trigger] job_ids[j].0)) && queue_views(
                new.clerking_job_store.queue@,
            ) == add_jobs(
                queue_views(old.clerking_job_store.queue@),
                snapshot_jobs(snapshot, committee, participations, job_ids),
            );
        lemma_add_jobs_keyed(
            queue_views(old.clerking_job_store.queue@),
            snapshot_jobs(snapshot, committee, participations, job_ids),
        );
    }
}

/// An SDA server: its stores and the workflow over them.
pub struct SdaServer {
    pub agent_store: AgentStore,
    pub auth_token_store: AuthStore,
    pub aggregation_store: AggregationsStore,
    pub clerking_job_store: ClerkingJobStore,
}

impl SdaServer {
    /// Every record is kept under its own identifier (see the stores'
    /// `keyed_by_id`).
    pub open spec fn keyed_by_id(&self) -> bool {
        &&& self.agent_store.keyed_by_id()
        &&& self.auth_token_store.keyed_by_id()
        &&& self.aggregation_store.keyed_by_id()
        &&& self.clerking_job_store.keyed_by_id()
    }

    /// The aggregation with the given id, if recorded.
    pub open spec fn aggregation_of(&self, id: AggregationId) -> Option<Aggregation> {
        if self.aggregation_store.aggregations@.contains_key(id.0) {
            Some(self.aggregation_store.aggregations@[id.0])
        } else {
            None
        }
    }

    /// Every participation to the snapshot's aggregation has at most one
    /// encryption per clerk of its committee, where there is a committee.
    pub open spec fn snapshot_fits(&self, snapshot: Snapshot) -> bool {
        let store = self.aggregation_store;
        store.committees@.contains_key(snapshot.aggregation.0) ==> forall|i: int|
            0 <= i < store.participations_of(snapshot.aggregation).len() ==> (
            #[trigger] store.participations_of(snapshot.aggregation)[i]).clerk_encryptions@.len()
                <= store.committees@[snapshot.aggregation.0].clerks_and_keys@.len()
    }

    /// A server with empty stores.
    pub fn new() -> (server: SdaServer)
        ensures
            server.keyed_by_id(),
            server.agent_store.agents@ == Map::<u128, Agent>::empty(),
            server.agent_store.profiles@ == Map::<u128, Profile>::empty(),
            server.agent_store.encryption_keys@ == Map::<u128, SignedEncryptionKey>::empty(),
            server.auth_token_store.auth_tokens@ == Map::<u128, AuthToken>::empty(),
            server.aggregation_store.aggregations@ == Map::<u128, Aggregation>::empty(),
            server.aggregation_store.committees@ == Map::<u128, Committee>::empty(),
            server.aggregation_store.participations@ == Map::<u128, Table<Participation>>::empty(),
            server.aggregation_store.snapshots@ == Map::<u128, Snapshot>::empty(),
            server.aggregation_store.snapshot_contents@.is_empty(),
            server.aggregation_store.snapshot_masks@.is_empty(),
            server.clerking_job_store.queue@.is_empty(),
            server.clerking_job_store.results@.is_empty(),
            server.clerking_job_store.done@.is_empty(),
    {
        SdaServer {
            agent_store: AgentStore::new(),
            auth_token_store: AuthStore::new(),
            aggregation_store: AggregationsStore::new(),
            clerking_job_store: ClerkingJobStore::new(),
        }
    }

    pub fn ping(&self) -> (pong: Pong)
        ensures
            pong.running,
    {
        Pong { running: true }
    }

    /// Whether `snapshot_fits` holds, for callers that must check it.
    pub fn fits_committee(&self, snapshot: &Snapshot) -> (b: bool)
        ensures
            b == self.snapshot_fits(*snapshot),
    {
        let store = &self.aggregation_store;
        let committee = match store.committees.get(snapshot.aggregation.0) {
            Some(c) => c,
            None => {
                return true;
            },
        };
        let clerks = committee.clerks_and_keys.len();
        match store.participations.get(snapshot.aggregation.0) {
            Some(inner) => {
                proof {
                    lemma_table_lengths(*inner);
                }
                let n = inner.len();
                let mut i: usize = 0;
                while i < n
                    invariant
                        n == inner.values().len(),
                        n == inner.keys().len(),
                        i <= n,
                        self.aggregation_store.participations@.contains_key(snapshot.aggregation.0),
                        *inner == self.aggregation_store.participations@[snapshot.aggregation.0],
                        self.aggregation_store.committees@.contains_key(snapshot.aggregation.0),
                        clerks == self.aggregation_store.committees@[snapshot.aggregation.0].clerks_and_keys@.len(),
                        forall|j: int|
                            0 <= j < i ==> (#[trigger] inner.values()[j]).clerk_encryptions@.len()
                                <= clerks,
                    decreases n - i,
                {
                    if inner.value_at(i).clerk_encryptions.len() > clerks {
                        assert(self.aggregation_store.participations_of(snapshot.aggregation)[i as int]
                            == inner.values()[i as int]);
                        return false;
                    }
                    i = i + 1;
                }
                true
            },
            None => true,
        }
    }

    /// Records a new agent (see `AgentStore::create_agent`).
    pub fn create_agent(&mut self, agent: Agent) -> (res: SdaServerResult<()>)
        ensures
            old(self).keyed_by_id() ==> final(self).keyed_by_id(),
            agent_creation(*old(self), *final(self), agent, res),
    {
        self.agent_store.create_agent(agent)
    }

    /// The agent with the given id.
    pub fn get_agent(&self, id: &AgentId) -> (agent: Option<&Agent>)
        ensures
            agent is Some <==> self.agent_store.agents@.contains_key(id.0),
            agent matches Some(a) ==> *a == self.agent_store.agents@[id.0],
    {
        self.agent_store.get_agent(id)
    }

    /// Records a profile in place of any earlier profile of its owner.
    pub fn upsert_profile(&mut self, profile: Profile)
        ensures
            old(self).keyed_by_id() ==> final(self).keyed_by_id(),
            final(self).agent_store.profiles@ == old(self).agent_store.profiles@.insert(
                profile.owner.0,
                profile,
            ),
            final(self).agent_store.agents == old(self).agent_store.agents,
            final(self).agent_store.encryption_keys == old(self).agent_store.encryption_keys,
            final(self).auth_token_store == old(self).auth_token_store,
            final(self).aggregation_store == old(self).aggregation_store,
            final(self).clerking_job_store == old(self).clerking_job_store,
    {
        self.agent_store.upsert_profile(profile)
    }

    /// The profile of the given agent.
    pub fn get_profile(&self, agent: &AgentId) -> (profile: Option<&Profile>)
        ensures
            profile is Some <==> self.agent_store.profiles@.contains_key(agent.0),
            profile matches Some(p) ==> *p == self.agent_store.profiles@[agent.0],
    {
        self.agent_store.get_profile(agent)
    }

    /// Records a new encryption key (see `AgentStore::create_encryption_key`).
    pub fn create_encryption_key(&mut self, key: SignedEncryptionKey) -> (res: SdaServerResult<()>)
        ensures
            old(self).keyed_by_id() ==> final(self).keyed_by_id(),
            key_creation(*old(self), *final(self), key, res),
    {
        self.agent_store.create_encryption_key(key)
    }

    /// The encryption key with the given id.
    pub fn get_encryption_key(&self, key: &EncryptionKeyId) -> (found: Option<&SignedEncryptionKey>)
        ensures
            found is Some <==> self.agent_store.encryption_keys@.contains_key(key.0),
            found matches Some(k) ==> *k == self.agent_store.encryption_keys@[key.0],
    {
        self.agent_store.get_encryption_key(key)
    }

    /// The aggregations passing the filters (see
    /// `AggregationsStore::list_aggregations`).
    pub fn list_aggregations(&self, filter: Option<&str>, recipient: Option<&AgentId>) -> (ids: Vec<
        AggregationId,
    >)
        ensures
            ids@ == matching_aggregations(
                self.aggregation_store.aggregations.values(),
                filter_text(filter),
                match recipient {
                    Some(r) => Some(*r),
                    None => None,
                },
            ),
            self.keyed_by_id() ==> ids@.no_duplicates(),
    {
        let ids = self.aggregation_store.list_aggregations(filter, recipient);
        proof {
            let table = self.aggregation_store.aggregations;
            use_type_invariant(&self.aggregation_store.aggregations);
            table.lemma_view();
            if self.keyed_by_id() {
                let values = table.values();
                assert forall|i: int, j: int| 0 <= i < j < values.len() implies #[trigger] values[i].id.0
                    < #[trigger] values[j].id.0 by {
                    lemma_table_lengths(table);
                    assert(table@.contains_key(table.keys()[i]));
                    assert(table@.contains_key(table.keys()[j]));
                    assert(table@[table.keys()[i]] == values[i]);
                    assert(table@[table.keys()[j]] == values[j]);
                }
                law_listing_has_no_duplicates(
                    values,
                    filter_text(filter),
                    match recipient {
                        Some(r) => Some(*r),
                        None => None,
                    },
                );
            }
        }
        ids
    }

    /// The aggregation with the given id.
    pub fn get_aggregation(&self, aggregation: &AggregationId) -> (found: Option<&Aggregation>)
        ensures
            found is Some <==> self.aggregation_store.aggregations@.contains_key(aggregation.0),
            found matches Some(a) ==> *a == self.aggregation_store.aggregations@[aggregation.0],
    {
        self.aggregation_store.get_aggregation(aggregation)
    }

    /// The committee of the given aggregation.
    pub fn get_committee(&self, aggregation: &AggregationId) -> (found: Option<&Committee>)
        ensures
            found is Some <==> self.aggregation_store.committees@.contains_key(aggregation.0),
            found matches Some(c) ==> *c == self.aggregation_store.committees@[aggregation.0],
    {
        self.aggregation_store.get_committee(aggregation)
    }

    /// Records an aggregation in place of any earlier one with its id.
    pub fn create_aggregation(&mut self, aggregation: Aggregation)
        ensures
            old(self).keyed_by_id() ==> final(self).keyed_by_id(),
            final(self).aggregation_store.aggregations@
                == old(self).aggregation_store.aggregations@.insert(aggregation.id.0, aggregation),
            final(self).aggregation_store.same_but_aggregations(&old(self).aggregation_store),
            final(self).agent_store == old(self).agent_store,
            final(self).auth_token_store == old(self).auth_token_store,
            final(self).clerking_job_store == old(self).clerking_job_store,
    {
        self.aggregation_store.create_aggregation(aggregation)
    }

    /// Deletes all that is recorded of an aggregation (see
    /// `AggregationsStore::delete_aggregation`); the aggregation must be
    /// recorded.
    pub fn delete_aggregation(&mut self, aggregation: &AggregationId) -> (res: SdaServerResult<()>)
        ensures
            old(self).keyed_by_id() ==> final(self).keyed_by_id(),
            res is Ok <==> old(self).aggregation_of(*aggregation) is Some,
            res is Ok ==> final(self).aggregation_store.aggregation_deleted(
                &old(self).aggregation_store,
                *aggregation,
            ),
            res matches Err(SdaServerError::Msg(msg)) ==> msg@ == missing_record_message()
                && final(self).aggregation_store == old(self).aggregation_store,
            final(self).agent_store == old(self).agent_store,
            final(self).auth_token_store == old(self).auth_token_store,
            final(self).clerking_job_store == old(self).clerking_job_store,
    {
        self.aggregation_store.delete_aggregation(aggregation)
    }

    /// Suggests clerks for the committee of an aggregation (see
    /// `AgentStore::suggest_committee`); the aggregation must be known.
    pub fn suggest_committee(&self, aggregation: &AggregationId) -> (res: SdaServerResult<
        Vec<ClerkCandidate>,
    >)
        ensures
            match self.aggregation_of(*aggregation) {
                Some(_) => res matches Ok(candidates) && candidates@.map_values(
                    |c: ClerkCandidate| crate::stores::candidate_view(c),
                ) == crate::stores::committee_candidates(
                    self.agent_store.agents.values(),
                    self.agent_store.encryption_keys.values(),
                ),
                None => res matches Err(SdaServerError::Msg(msg)) && msg@
                    == deleted_aggregation_message(),
            },
    {
        if self.aggregation_store.get_aggregation(aggregation).is_none() {
            return Err(SdaServerError::Msg(String::from_str("deleted aggregation")));
        }
        Ok(self.agent_store.suggest_committee())
    }

    /// Records the committee of its aggregation, in place of any earlier one.
    pub fn create_committee(&mut self, committee: Committee)
        ensures
            old(self).keyed_by_id() ==> final(self).keyed_by_id(),
            final(self).aggregation_store.committees@
                == old(self).aggregation_store.committees@.insert(committee.aggregation.0, committee),
            final(self).aggregation_store.aggregations == old(self).aggregation_store.aggregations,
            final(self).aggregation_store.participations == old(self).aggregation_store.participations,
            final(self).aggregation_store.snapshots == old(self).aggregation_store.snapshots,
            final(self).aggregation_store.snapshot_contents == old(self).aggregation_store.snapshot_contents,
            final(self).aggregation_store.snapshot_masks == old(self).aggregation_store.snapshot_masks,
            final(self).agent_store == old(self).agent_store,
            final(self).auth_token_store == old(self).auth_token_store,
            final(self).clerking_job_store == old(self).clerking_job_store,
    {
        self.aggregation_store.create_committee(committee)
    }

    /// Records a participation to its aggregation.
    pub fn create_participation(&mut self, participation: Participation)
        ensures
            old(self).keyed_by_id() ==> final(self).keyed_by_id(),
            final(self).aggregation_store.participations@.dom() == old(self).aggregation_store.participations@.dom().insert(participation.aggregation.0),
            forall|x: u128|
                x != participation.aggregation.0 && #[trigger] old(self).aggregation_store.participations@.contains_key(x) ==> final(self).aggregation_store.participations@[x] == old(self).aggregation_store.participations@[x],
            final(self).aggregation_store.participations@[participation.aggregation.0]@
                == inner_view(
                old(self).aggregation_store.participations@,
                participation.aggregation.0,
            ).insert(participation.id.0, participation),
            final(self).aggregation_store.aggregations == old(self).aggregation_store.aggregations,
            final(self).aggregation_store.committees == old(self).aggregation_store.committees,
            final(self).aggregation_store.snapshots == old(self).aggregation_store.snapshots,
            final(self).aggregation_store.snapshot_contents == old(self).aggregation_store.snapshot_contents,
            final(self).aggregation_store.snapshot_masks == old(self).aggregation_store.snapshot_masks,
            final(self).agent_store == old(self).agent_store,
            final(self).auth_token_store == old(self).auth_token_store,
            final(self).clerking_job_store == old(self).clerking_job_store,
    {
        self.aggregation_store.create_participation(participation)
    }

    /// The status of an aggregation: how many participations it has, and
    /// for each of its snapshots, in id order, how many clerking results it
    /// has and whether they reach the reconstruction threshold of the
    /// aggregation's sharing scheme.
    pub fn get_aggregation_status(&self, aggregation: &AggregationId) -> (status: AggregationStatus)
        ensures
            status.aggregation == *aggregation,
            status.number_of_participations == self.aggregation_store.participations_of(
                *aggregation,
            ).len(),
            status.snapshots@ == snapshots_of(
                self.aggregation_store.snapshots.values(),
                *aggregation,
            ).map_values(
                |s: SnapshotId|
                    snapshot_status(self.aggregation_of(*aggregation), &self.clerking_job_store, s),
            ),
    {
        let number_of_participations = self.aggregation_store.count_participations(aggregation);
        let snapshot_ids = self.aggregation_store.list_snapshots(aggregation);
        let found = self.aggregation_store.get_aggregation(aggregation);
        let ghost wanted = snapshot_ids@.map_values(
            |s: SnapshotId|
                snapshot_status(self.aggregation_of(*aggregation), &self.clerking_job_store, s),
        );
        let mut snapshots: Vec<SnapshotStatus> = Vec::new();
        let n = snapshot_ids.len();
        let mut i: usize = 0;
        while i < n
            invariant
                n == snapshot_ids@.len(),
                i <= n,
                wanted == snapshot_ids@.map_values(
                    |s: SnapshotId|
                        snapshot_status(self.aggregation_of(*aggregation), &self.clerking_job_store, s),
                ),
                found is Some <==> self.aggregation_store.aggregations@.contains_key(aggregation.0),
                found matches Some(a) ==> *a == self.aggregation_store.aggregations@[aggregation.0],
                snapshots@ == wanted.take(i as int),
            decreases n - i,
        {
            let id = snapshot_ids[i];
            let results = self.clerking_job_store.list_results(&id);
            let count = results.len();
            let ready = match found {
                Some(a) => a.committee_sharing_scheme.reconstructs_with(count),
                None => false,
            };
            snapshots.push(SnapshotStatus { id, number_of_clerking_results: count, result_ready: ready });
            assert(snapshots@ =~= wanted.take(i + 1));
            i = i + 1;
        }
        assert(wanted.take(n as int) =~= wanted);
        AggregationStatus { aggregation: *aggregation, number_of_participations, snapshots }
    }

    /// Records an authentication token in place of any earlier token of its
    /// agent.
    pub fn upsert_auth_token(&mut self, token: AuthToken)
        ensures
            old(self).keyed_by_id() ==> final(self).keyed_by_id(),
            final(self).auth_token_store.auth_tokens@ == old(self).auth_token_store.auth_tokens@.insert(token.id.0, token),
            final(self).agent_store == old(self).agent_store,
            final(self).aggregation_store == old(self).aggregation_store,
            final(self).clerking_job_store == old(self).clerking_job_store,
    {
        self.auth_token_store.upsert_auth_token(token)
    }

    /// The agent a token authenticates: the recorded token of its agent
    /// must be the same token, and the agent must be known.
    pub fn check_auth_token(&self, token: &AuthToken) -> (res: SdaResult<Agent>)
        ensures
            credential_check(*self, *token, res),
    {
        let matches = match self.auth_token_store.get_auth_token(&token.id) {
            Some(recorded) => recorded.id == token.id && recorded.body == token.body,
            None => false,
        };
        if matches {
            match self.agent_store.get_agent(&token.id) {
                Some(agent) => Ok(*agent),
                None => Err(SdaError::Msg(String::from_str("Agent not found"))),
            }
        } else {
            Err(SdaError::InvalidCredentials)
        }
    }

    /// Forgets the authentication token of an agent; there must be one.
    pub fn delete_auth_token(&mut self, agent: &AgentId) -> (res: SdaResult<()>)
        ensures
            old(self).keyed_by_id() ==> final(self).keyed_by_id(),
            res is Ok <==> old(self).auth_token_store.auth_tokens@.contains_key(agent.0),
            res matches Err(SdaError::Msg(msg)) ==> msg@ == "error in server: "@
                + missing_record_message(),
            res matches Err(e) ==> e is Msg,
            final(self).auth_token_store.auth_tokens@ == old(self).auth_token_store.auth_tokens@.remove(agent.0),
            final(self).agent_store == old(self).agent_store,
            final(self).aggregation_store == old(self).aggregation_store,
            final(self).clerking_job_store == old(self).clerking_job_store,
    {
        match self.auth_token_store.delete_auth_token(agent) {
            Ok(()) => Ok(()),
            Err(SdaServerError::Msg(m)) => {
                let mut msg = String::from_str("error in server: ");
                msg.append(m.as_str());
                Err(SdaError::Msg(msg))
            },
        }
    }

    /// Takes a snapshot of an aggregation: captures its current
    /// participations, queues for each clerk of its committee a job with
    /// the shares meant for that clerk under a fresh random job id, records
    /// the snapshot, and, when the aggregation masks, records the recipient
    /// encryptions of the captured participations.
    #[verifier::loop_isolation(false)]
    pub fn create_snapshot(&mut self, snapshot: &Snapshot) -> (res: SdaServerResult<()>)
        requires
            old(self).aggregation_of(snapshot.aggregation) is Some ==> old(self).snapshot_fits(
                *snapshot,
            ),
        ensures
            old(self).keyed_by_id() ==> final(self).keyed_by_id(),
            snapshot_outcome(*old(self), *final(self), *snapshot, res),
    {
        let aggregation = snapshot.aggregation;
        let has_mask = match self.aggregation_store.get_aggregation(&aggregation) {
            Some(a) => a.masking_scheme.has_mask(),
            None => {
                return Err(SdaServerError::Msg(String::from_str("lost aggregation")));
            },
        };
        let ghost participations = self.aggregation_store.participations_of(aggregation);
        self.aggregation_store.snapshot_participations(&aggregation, &snapshot.id);
        let mut clerks: Vec<AgentId> = Vec::new();
        match self.aggregation_store.get_committee(&aggregation) {
            Some(committee) => {
                let n = committee.clerks_and_keys.len();
                let mut i: usize = 0;
                while i < n
                    invariant
                        n == committee.clerks_and_keys@.len(),
                        i <= n,
                        clerks@.len() == i,
                        forall|j: int| 0 <= j < i ==> #[trigger] clerks@[j] == committee.clerks_and_keys@[j].0,
                    decreases n - i,
                {
                    clerks.push(committee.clerks_and_keys[i].0);
                    i = i + 1;
                }
            },
            None => {
                return Err(SdaServerError::Msg(String::from_str("lost committee")));
            },
        }
        let ghost committee = self.aggregation_store.committees@[aggregation.0];
        let n = clerks.len();
        let mut shares = match self.aggregation_store.iter_snapshot_clerk_jobs_data(
            &aggregation,
            &snapshot.id,
            n,
        ) {
            Ok(shares) => shares,
            Err(e) => {
                return Err(e);
            },
        };
        let ghost all_shares = shares@;
        let mut job_ids: Vec<ClerkingJobId> = Vec::new();
        let mut i: usize = 0;
        while i < n
            invariant
                i <= n,
                job_ids@.len() == i,
                forall|k: int| 0 <= k < i ==> random_uuid(#[trigger] job_ids@[k].0),
            decreases n - i,
        {
            job_ids.push(ClerkingJobId::random());
            i = i + 1;
        }
        let ghost jobs = snapshot_jobs(*snapshot, committee, participations, job_ids@);
        let ghost queues = queue_views(self.clerking_job_store.queue@);
        let ghost store_after = self.aggregation_store;
        let mut j: usize = 0;
        while j < n
            invariant
                n == clerks@.len(),
                n == committee.clerks_and_keys@.len(),
                n == job_ids@.len(),
                n == all_shares.len(),
                j <= n,
                shares@ == all_shares.skip(j as int),
                forall|k: int| 0 <= k < n ==> #[trigger] clerks@[k] == committee.clerks_and_keys@[k].0,
                forall|k: int| 0 <= k < n ==> encryption_views(#[trigger] all_shares[k]@) == share_column(participations, k),
                jobs == snapshot_jobs(*snapshot, committee, participations, job_ids@),
                queue_views(self.clerking_job_store.queue@) == add_jobs(queues, jobs.take(j as int)),
                self.clerking_job_store.results == old(self).clerking_job_store.results,
                self.clerking_job_store.done == old(self).clerking_job_store.done,
                self.aggregation_store == store_after,
                self.agent_store == old(self).agent_store,
                self.auth_token_store == old(self).auth_token_store,
            decreases n - j,
        {
            let column = shares.remove(0);
            assert(column == all_shares[j as int]);
            let job = ClerkingJob {
                id: job_ids[j],
                clerk: clerks[j],
                aggregation,
                snapshot: snapshot.id,
                encryptions: column,
            };
            assert(job@ == jobs[j as int]);
            self.clerking_job_store.enqueue_clerking_job(job);
            assert(jobs.take(j + 1).drop_last() =~= jobs.take(j as int));
            assert(shares@ =~= all_shares.skip(j + 1));
            j = j + 1;
        }
        assert(jobs.take(n as int) =~= jobs);
        assert(queue_views(self.clerking_job_store.queue@) == add_jobs(queues, jobs));
        assert(job_ids@.len() == committee.clerks_and_keys@.len());
        self.aggregation_store.create_snapshot(snapshot);
        if has_mask {
            let captured = match self.aggregation_store.iter_snapped_participations(
                &aggregation,
                &snapshot.id,
            ) {
                Ok(captured) => captured,
                Err(e) => {
                    return Err(e);
                },
            };
            let ghost found = captured@.map_values(|p: &Participation| *p);
            let mut mask: Vec<Encryption> = Vec::new();
            let m = captured.len();
            let mut i: usize = 0;
            while i < m
                invariant
                    m == found.len(),
                    found == captured@.map_values(|p: &Participation| *p),
                    i <= m,
                    recipient_encryptions(found.take(i as int)) == Some(encryption_views(mask@)),
                decreases m - i,
            {
                let p = captured[i];
                assert(found[i as int] == *p);
                assert(found.take(i + 1).drop_last() =~= found.take(i as int));
                match &p.recipient_encryption {
                    Some(e) => {
                        let ghost before = mask@;
                        mask.push(e.clone());
                        assert(encryption_views(mask@) =~= encryption_views(before).push(e@));
                    },
                    None => {
                        proof {
                            lemma_recipient_encryptions_missing(found, i as int, m as int);
                            assert(found.take(m as int) =~= found);
                        }
                        let res = Err(
                            SdaServerError::Msg(
                                String::from_str("participation should have had a recipient encryption"),
                            ),
                        );
                        proof {
                            assert(snapshot_outcome(*old(self), *self, *snapshot, res));
                            if old(self).keyed_by_id() {
                                lemma_snapshot_keyed(*old(self), *self, *snapshot, res);
                            }
                        }
                        return res;
                    },
                }
                i = i + 1;
            }
            assert(found.take(m as int) =~= found);
            let ghost masks = self.aggregation_store.snapshot_masks@;
            self.aggregation_store.create_snapshot_mask(&snapshot.id, mask);
            assert(self.aggregation_store.snapshot_masks@.dom() =~= masks.dom().insert(snapshot.id.0));
        }
        proof {
            assert(snapshot_outcome(*old(self), *self, *snapshot, Ok::<(), SdaServerError>(())));
            if old(self).keyed_by_id() {
                lemma_snapshot_keyed(*old(self), *self, *snapshot, Ok::<(), SdaServerError>(()));
            }
        }
        Ok(())
    }

    /// The first job, in id order, waiting for the clerk.
    pub fn poll_clerking_job(&self, clerk: &AgentId) -> (job: Option<&ClerkingJob>)
        ensures
            match self.clerking_job_store.first_queued(*clerk) {
                Some(first) => job matches Some(j) && *j == first,
                None => job is None,
            },
    {
        self.clerking_job_store.poll_clerking_job(clerk)
    }

    /// Files the result of a queued job (see
    /// `ClerkingJobStore::create_clerking_result`).
    pub fn create_clerking_result(&mut self, result: ClerkingResult) -> (res: SdaServerResult<()>)
        ensures
            old(self).keyed_by_id() ==> final(self).keyed_by_id(),
            result_filing(old(self).clerking_job_store, final(self).clerking_job_store, result, res),
            final(self).agent_store == old(self).agent_store,
            final(self).auth_token_store == old(self).auth_token_store,
            final(self).aggregation_store == old(self).aggregation_store,
    {
        self.clerking_job_store.create_clerking_result(result)
    }

    /// The result of a snapshot of an aggregation, once enough clerks have
    /// sent theirs to reconstruct it.
    pub fn get_snapshot_result(&self, aggregation: &AggregationId, snapshot: &SnapshotId) -> (res:
        SdaServerResult<Option<SnapshotResult>>)
        ensures
            snapshot_result_outcome(*self, *aggregation, *snapshot, res),
    {
        let scheme = match self.aggregation_store.get_aggregation(aggregation) {
            Some(a) => a.committee_sharing_scheme,
            None => {
                return Ok(None);
            },
        };
        match self.aggregation_store.get_snapshot(aggregation, snapshot) {
            Some(s) => {
                if s.aggregation != *aggregation {
                    return Ok(None);
                }
            },
            None => {
                return Ok(None);
            },
        }
        let jobs = self.clerking_job_store.list_results(snapshot);
        if !scheme.reconstructs_with(jobs.len()) {
            return Ok(None);
        }
        let number_of_participations = self.aggregation_store.count_participations_snapshot(
            aggregation,
            snapshot,
        )?;
        let clerk_encryptions = self.clerking_job_store.collect_results(snapshot);
        let recipient_encryptions = match self.aggregation_store.get_snapshot_mask(snapshot) {
            Some(mask) => Some(clone_encryptions(mask)),
            None => None,
        };
        Ok(
            Some(
                SnapshotResult {
                    snapshot: *snapshot,
                    number_of_participations,
                    clerk_encryptions,
                    recipient_encryptions,
                },
            ),
        )
    }
}

/// A snapshot's status reports its result ready exactly when the result
/// can be fetched.
pub proof fn law_ready_status_matches_result(
    server: SdaServer,
    aggregation: AggregationId,
    snapshot: SnapshotId,
)
    requires
        server.aggregation_store.snapshots@.contains_key(snapshot.0),
        server.aggregation_store.snapshots@[snapshot.0].aggregation == aggregation,
    ensures
        snapshot_status(server.aggregation_of(aggregation), &server.clerking_job_store, snapshot).result_ready
            == result_available(server, aggregation, snapshot),
{
}

/// A job of the snapshot, naming the snapshot's aggregation, is queued
/// for the clerk.
pub open spec fn snapshot_job_of_aggregation_queued(
    queues: Map<u128, Map<u128, ClerkingJobView>>,
    clerk: AgentId,
    snapshot: Snapshot,
) -> bool {
    queues.contains_key(clerk.0) && exists|id: u128|
        #[trigger] queues[clerk.0].contains_key(id) && queues[clerk.0][id].snapshot == snapshot.id
            && queues[clerk.0][id].aggregation == snapshot.aggregation
}

/// A job of the snapshot is queued for the clerk.
pub open spec fn snapshot_job_queued(
    queues: Map<u128, Map<u128, ClerkingJobView>>,
    clerk: AgentId,
    snapshot: SnapshotId,
) -> bool {
    queues.contains_key(clerk.0) && exists|id: u128|
        #[trigger] queues[clerk.0].contains_key(id) && queues[clerk.0][id].snapshot == snapshot
}

/// After a snapshot, the queue of an agent outside the committee is as it
/// was, and every clerk of the committee has a job of the snapshot queued.
pub proof fn law_snapshot_jobs_go_to_committee(
    old: SdaServer,
    new: SdaServer,
    snapshot: Snapshot,
    clerk: AgentId,
)
    requires
        snapshot_outcome(old, new, snapshot, Ok::<(), SdaServerError>(())),
    ensures
        old.aggregation_store.committees@.contains_key(snapshot.aggregation.0),
        (forall|j: int|
            0 <= j < old.aggregation_store.committees@[snapshot.aggregation.0].clerks_and_keys@.len()
                ==> #[trigger] old.aggregation_store.committees@[snapshot.aggregation.0].clerks_and_keys@[j].0
                != clerk) ==> {
            &&& queue_views(new.clerking_job_store.queue@).contains_key(clerk.0) == queue_views(
                old.clerking_job_store.queue@,
            ).contains_key(clerk.0)
            &&& queue_views(old.clerking_job_store.queue@).contains_key(clerk.0) ==> queue_views(
                new.clerking_job_store.queue@,
            )[clerk.0] == queue_views(old.clerking_job_store.queue@)[clerk.0]
        },
        forall|j: int|
            0 <= j < old.aggregation_store.committees@[snapshot.aggregation.0].clerks_and_keys@.len()
                ==> snapshot_job_queued(
                queue_views(new.clerking_job_store.queue@),
                #[trigger] old.aggregation_store.committees@[snapshot.aggregation.0].clerks_and_keys@[j].0,
                snapshot.id,
            ),
{
    let committee = old.aggregation_store.committees@[snapshot.aggregation.0];
    let clerks = committee.clerks_and_keys@;
    let participations = old.aggregation_store.participations_of(snapshot.aggregation);
    let before = queue_views(old.clerking_job_store.queue@);
    let after = queue_views(new.clerking_job_store.queue@);
    let job_ids = choose|job_ids: Seq<ClerkingJobId>|
        job_ids.len() == clerks.len() && after == add_jobs(
            before,
            snapshot_jobs(snapshot, committee, participations, job_ids),
        );
    let jobs = snapshot_jobs(snapshot, committee, participations, job_ids);
    if forall|j: int| 0 <= j < clerks.len() ==> #[trigger] clerks[j].0 != clerk {
        assert forall|i: int| 0 <= i < jobs.len() implies #[trigger] jobs[i].clerk != clerk by {
            assert(jobs[i].clerk == clerks[i].0);
        }
        law_jobs_leave_other_queues(before, jobs, clerk);
    }
    assert forall|j: int| 0 <= j < clerks.len() implies snapshot_job_queued(
        after,
        #[trigger] clerks[j].0,
        snapshot.id,
    ) by {
        law_added_jobs_are_queued(before, jobs, j);
        let k = choose|k: int|
            j <= k < jobs.len() && #[trigger] jobs[k].clerk == jobs[j].clerk && jobs[k].id
                == jobs[j].id && add_jobs(before, jobs)[jobs[j].clerk.0][jobs[j].id.0] == jobs[k];
        assert(jobs[j].clerk == clerks[j].0);
        assert(jobs[k].snapshot == snapshot.id);
        assert(after[clerks[j].0.0].contains_key(jobs[j].id.0));
    }
}

/// Every job a snapshot queues is for a clerk of the committee and names
/// the snapshot and the snapshot's aggregation; every other queued job is
/// as it was. Each clerk of the committee gets such a job.
pub proof fn law_snapshot_jobs_name_the_aggregation(
    old: SdaServer,
    new: SdaServer,
    snapshot: Snapshot,
)
    requires
        snapshot_outcome(old, new, snapshot, Ok::<(), SdaServerError>(())),
    ensures
        forall|c: u128, k: u128|
            queue_views(new.clerking_job_store.queue@).contains_key(c) && #[trigger] queue_views(
                new.clerking_job_store.queue@,
            )[c].contains_key(k) ==> {
                let job = queue_views(new.clerking_job_store.queue@)[c][k];
                let before = queue_views(old.clerking_job_store.queue@);
                ||| before.contains_key(c) && before[c].contains_key(k) && job == before[c][k]
                ||| {
                    &&& job.aggregation == snapshot.aggregation
                    &&& job.snapshot == snapshot.id
                    &&& exists|j: int|
                        0 <= j < old.aggregation_store.committees@[snapshot.aggregation.0].clerks_and_keys@.len()
                            && #[trigger] old.aggregation_store.committees@[snapshot.aggregation.0].clerks_and_keys@[j].0
                            == job.clerk
                }
            },
        forall|j: int|
            0 <= j < old.aggregation_store.committees@[snapshot.aggregation.0].clerks_and_keys@.len()
                ==> snapshot_job_of_aggregation_queued(
                queue_views(new.clerking_job_store.queue@),
                #[trigger] old.aggregation_store.committees@[snapshot.aggregation.0].clerks_and_keys@[j].0,
                snapshot,
            ),
{
    let committee = old.aggregation_store.committees@[snapshot.aggregation.0];
    let clerks = committee.clerks_and_keys@;
    let participations = old.aggregation_store.participations_of(snapshot.aggregation);
    let before = queue_views(old.clerking_job_store.queue@);
    let after = queue_views(new.clerking_job_store.queue@);
    let job_ids = choose|job_ids: Seq<ClerkingJobId>|
        job_ids.len() == clerks.len() && (forall|j: int|
            0 <= j < job_ids.len() ==> random_uuid(#[trigger] job_ids[j].0)) && after == add_jobs(
            before,
            snapshot_jobs(snapshot, committee, participations, job_ids),
        );
    let jobs = snapshot_jobs(snapshot, committee, participations, job_ids);
    law_added_jobs_come_from(before, jobs);
    assert forall|c: u128, k: u128|
        after.contains_key(c) && #[trigger] after[c].contains_key(k) implies {
            let job = after[c][k];
            ||| before.contains_key(c) && before[c].contains_key(k) && job == before[c][k]
            ||| {
                &&& job.aggregation == snapshot.aggregation
                &&& job.snapshot == snapshot.id
                &&& exists|j: int| 0 <= j < clerks.len() && #[trigger] clerks[j].0 == job.clerk
            }
        } by {
        if !(before.contains_key(c) && before[c].contains_key(k) && after[c][k] == before[c][k]) {
            let i = choose|i: int| 0 <= i < jobs.len() && #[trigger] jobs[i] == after[c][k];
            assert(clerks[i].0 == jobs[i].clerk);
        }
    }
    assert forall|j: int| 0 <= j < clerks.len() implies snapshot_job_of_aggregation_queued(
        after,
        #[trigger] clerks[j].0,
        snapshot,
    ) by {
        law_added_jobs_are_queued(before, jobs, j);
        let m = choose|m: int|
            j <= m < jobs.len() && #[trigger] jobs[m].clerk == jobs[j].clerk && jobs[m].id
                == jobs[j].id && add_jobs(before, jobs)[jobs[j].clerk.0][jobs[j].id.0] == jobs[m];
        assert(jobs[j].clerk == clerks[j].0);
        assert(after[clerks[j].0.0][jobs[j].id.0] == jobs[m]);
    }
}

} // verus!
