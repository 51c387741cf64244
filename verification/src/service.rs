//! The SDA service: the server's workflow behind access control, with the
//! server's errors reported as service errors.

use vstd::prelude::*;

use crate::aggregations::{filter_text, matching_aggregations};
use crate::errors::{SdaError, SdaResult, SdaServerError, SdaServerResult};
use crate::clerking_jobs::result_filing;
use crate::ids::{AgentId, AggregationId, EncryptionKeyId, SnapshotId};
use crate::resources::{
    Agent, Aggregation, AggregationStatus, ClerkCandidate, ClerkingJob, ClerkingResult, Committee,
    Participation, Pong, Profile, SignedEncryptionKey, Snapshot, SnapshotResult,
};
use crate::server::{
    agent_creation, key_creation, snapshot_outcome, snapshot_result_outcome, SdaServer,
};
use crate::table::inner_view;

verus! {

/// The message of a server error, as the service reports it.
pub open spec fn server_error_message(msg: Seq<char>) -> Seq<char> {
    "error in server: "@ + msg
}

/// The message when a request names an unknown aggregation.
pub open spec fn no_aggregation_message() -> Seq<char> {
    "No aggregation found"@
}

/// `res` is what the service reports for the server's `inner`: the same
/// value, or the server's message behind `server_error_message`.
pub open spec fn reports<T>(res: SdaResult<T>, inner: SdaServerResult<T>) -> bool {
    match inner {
        Ok(v) => res matches Ok(w) && w == v,
        Err(SdaServerError::Msg(m)) => res matches Err(SdaError::Msg(msg)) && msg@
            == server_error_message(m@),
    }
}

/// Access control: the caller must be the given agent.
pub fn acl_agent_is(agent: &Agent, agent_id: AgentId) -> (res: SdaResult<()>)
    ensures
        agent.id == agent_id ==> res is Ok,
        agent.id != agent_id ==> res == Err::<(), SdaError>(SdaError::PermissionDenied),
{
    if agent.id != agent_id {
        Err(SdaError::PermissionDenied)
    } else {
        Ok(())
    }
}

/// The service error for a server error.
fn report<T>(inner: SdaServerResult<T>) -> (res: SdaResult<T>)
    ensures
        reports(res, inner),
{
    match inner {
        Ok(v) => Ok(v),
        Err(SdaServerError::Msg(m)) => {
            let mut msg = String::from_str("error in server: ");
            msg.append(m.as_str());
            Err(SdaError::Msg(msg))
        },
    }
}

/// The error for a request naming an unknown aggregation.
fn no_aggregation<T>() -> (res: SdaResult<T>)
    ensures
        res matches Err(SdaError::Msg(msg)) && msg@ == no_aggregation_message(),
{
    Err(SdaError::Msg(String::from_str("No aggregation found")))
}

/// Basic methods of every SDA service.
pub trait SdaBaseService {
    /// Answers with a pong while the service appears to be running.
    fn ping(&self) -> SdaResult<Pong>;
}

/// An SDA service, offering the base methods and those of each role.
pub trait SdaService: SdaBaseService {}

/// The SDA service over a server.
pub struct SdaServerService(pub SdaServer);

impl SdaBaseService for SdaServerService {
    fn ping(&self) -> (res: SdaResult<Pong>)
        ensures
            res matches Ok(pong) && pong.running,
    {
        Ok(self.0.ping())
    }
}

impl SdaService for SdaServerService {}

impl SdaServerService {
    /// The recipient of an aggregation, if the aggregation is known.
    pub open spec fn recipient_of(&self, aggregation: AggregationId) -> Option<AgentId> {
        match self.0.aggregation_of(aggregation) {
            Some(a) => Some(a.recipient),
            None => None,
        }
    }

    /// Creates an agent; only the agent itself may.
    pub fn create_agent(&mut self, caller: &Agent, agent: Agent) -> (res: SdaResult<()>)
        ensures
            old(self).0.keyed_by_id() ==> final(self).0.keyed_by_id(),
            caller.id != agent.id ==> res == Err::<(), SdaError>(SdaError::PermissionDenied)
                && *final(self) == *old(self),
            caller.id == agent.id ==> exists|inner: SdaServerResult<()>|
                agent_creation(old(self).0, final(self).0, agent, inner) && reports(res, inner),
    {
        acl_agent_is(caller, agent.id)?;
        let inner = self.0.create_agent(agent);
        report(inner)
    }

    /// The agent with the given id; public to every caller.
    pub fn get_agent(&self, _caller: &Agent, owner: &AgentId) -> (res: SdaResult<Option<&Agent>>)
        ensures
            res matches Ok(found) && (found is Some <==> self.0.agent_store.agents@.contains_key(
                owner.0,
            )) && (found matches Some(a) ==> *a == self.0.agent_store.agents@[owner.0]),
    {
        Ok(self.0.get_agent(owner))
    }

    /// Records the caller's profile; only its owner may.
    pub fn upsert_profile(&mut self, caller: &Agent, profile: Profile) -> (res: SdaResult<()>)
        ensures
            old(self).0.keyed_by_id() ==> final(self).0.keyed_by_id(),
            caller.id != profile.owner ==> res == Err::<(), SdaError>(SdaError::PermissionDenied)
                && *final(self) == *old(self),
            caller.id == profile.owner ==> res is Ok && final(self).0.agent_store.profiles@ == old(self).0.agent_store.profiles@.insert(profile.owner.0, profile)
                && final(self).0.agent_store.agents == old(self).0.agent_store.agents
                && final(self).0.agent_store.encryption_keys == old(self).0.agent_store.encryption_keys
                && final(self).0.auth_token_store == old(self).0.auth_token_store
                && final(self).0.aggregation_store == old(self).0.aggregation_store
                && final(self).0.clerking_job_store == old(self).0.clerking_job_store,
    {
        acl_agent_is(caller, profile.owner)?;
        self.0.upsert_profile(profile);
        Ok(())
    }

    /// The profile of an agent; public to every caller.
    pub fn get_profile(&self, _caller: &Agent, owner: &AgentId) -> (res: SdaResult<Option<&Profile>>)
        ensures
            res matches Ok(found) && (found is Some <==> self.0.agent_store.profiles@.contains_key(
                owner.0,
            )) && (found matches Some(p) ==> *p == self.0.agent_store.profiles@[owner.0]),
    {
        Ok(self.0.get_profile(owner))
    }

    /// Records an encryption key; only its signer may.
    pub fn create_encryption_key(&mut self, caller: &Agent, key: SignedEncryptionKey) -> (res:
        SdaResult<()>)
        ensures
            old(self).0.keyed_by_id() ==> final(self).0.keyed_by_id(),
            caller.id != key.signer ==> res == Err::<(), SdaError>(SdaError::PermissionDenied)
                && *final(self) == *old(self),
            caller.id == key.signer ==> exists|inner: SdaServerResult<()>|
                key_creation(old(self).0, final(self).0, key, inner) && reports(res, inner),
    {
        acl_agent_is(caller, key.signer)?;
        let inner = self.0.create_encryption_key(key);
        report(inner)
    }

    /// An encryption key; public to every caller.
    pub fn get_encryption_key(&self, _caller: &Agent, key: &EncryptionKeyId) -> (res: SdaResult<
        Option<&SignedEncryptionKey>,
    >)
        ensures
            res matches Ok(found) && (found is Some
                <==> self.0.agent_store.encryption_keys@.contains_key(key.0)) && (found matches Some(
                k,
            ) ==> *k == self.0.agent_store.encryption_keys@[key.0]),
    {
        Ok(self.0.get_encryption_key(key))
    }

    /// The aggregations passing the filters; public to every caller.
    pub fn list_aggregations(
        &self,
        _caller: &Agent,
        filter: Option<&str>,
        recipient: Option<&AgentId>,
    ) -> (res: SdaResult<Vec<AggregationId>>)
        ensures
            res matches Ok(ids) && ids@ == matching_aggregations(
                self.0.aggregation_store.aggregations.values(),
                filter_text(filter),
                match recipient {
                    Some(r) => Some(*r),
                    None => None,
                },
            ) && (self.0.keyed_by_id() ==> ids@.no_duplicates()),
    {
        Ok(self.0.list_aggregations(filter, recipient))
    }

    /// An aggregation; public to every caller.
    pub fn get_aggregation(&self, _caller: &Agent, aggregation: &AggregationId) -> (res: SdaResult<
        Option<&Aggregation>,
    >)
        ensures
            res matches Ok(found) && (found is Some
                <==> self.0.aggregation_store.aggregations@.contains_key(aggregation.0)) && (
            found matches Some(a) ==> *a == self.0.aggregation_store.aggregations@[aggregation.0]),
    {
        Ok(self.0.get_aggregation(aggregation))
    }

    /// The committee of an aggregation; public to every caller.
    pub fn get_committee(&self, _caller: &Agent, aggregation: &AggregationId) -> (res: SdaResult<
        Option<&Committee>,
    >)
        ensures
            res matches Ok(found) && (found is Some
                <==> self.0.aggregation_store.committees@.contains_key(aggregation.0)) && (
            found matches Some(c) ==> *c == self.0.aggregation_store.committees@[aggregation.0]),
    {
        Ok(self.0.get_committee(aggregation))
    }

    /// Creates an aggregation; only its recipient may.
    pub fn create_aggregation(&mut self, caller: &Agent, aggregation: Aggregation) -> (res:
        SdaResult<()>)
        ensures
            old(self).0.keyed_by_id() ==> final(self).0.keyed_by_id(),
            caller.id != aggregation.recipient ==> res == Err::<(), SdaError>(
                SdaError::PermissionDenied,
            ) && *final(self) == *old(self),
            caller.id == aggregation.recipient ==> res is Ok
                && final(self).0.aggregation_store.aggregations@ == old(self).0.aggregation_store.aggregations@.insert(aggregation.id.0, aggregation)
                && final(self).0.aggregation_store.same_but_aggregations(&old(self).0.aggregation_store)
                && final(self).0.agent_store == old(self).0.agent_store
                && final(self).0.auth_token_store == old(self).0.auth_token_store
                && final(self).0.clerking_job_store == old(self).0.clerking_job_store,
    {
        acl_agent_is(caller, aggregation.recipient)?;
        self.0.create_aggregation(aggregation);
        Ok(())
    }

    /// The recipient of a known aggregation, checked to be the caller.
    fn recipient_check(&self, caller: &Agent, aggregation: &AggregationId) -> (res: SdaResult<()>)
        ensures
            match self.recipient_of(*aggregation) {
                None => res matches Err(SdaError::Msg(msg)) && msg@ == no_aggregation_message(),
                Some(r) => if caller.id == r {
                    res is Ok
                } else {
                    res == Err::<(), SdaError>(SdaError::PermissionDenied)
                },
            },
    {
        let recipient = match self.0.get_aggregation(aggregation) {
            Some(agg) => agg.recipient,
            None => {
                return no_aggregation();
            },
        };
        acl_agent_is(caller, recipient)
    }

    /// Deletes an aggregation; only its recipient may.
    pub fn delete_aggregation(&mut self, caller: &Agent, aggregation: &AggregationId) -> (res:
        SdaResult<()>)
        ensures
            old(self).0.keyed_by_id() ==> final(self).0.keyed_by_id(),
            match old(self).recipient_of(*aggregation) {
                None => res matches Err(SdaError::Msg(msg)) && msg@ == no_aggregation_message()
                    && *final(self) == *old(self),
                Some(r) => if caller.id == r {
                    &&& res is Ok
                    &&& final(self).0.aggregation_store.aggregation_deleted(
                        &old(self).0.aggregation_store,
                        *aggregation,
                    )
                    &&& final(self).0.agent_store == old(self).0.agent_store
                    &&& final(self).0.auth_token_store == old(self).0.auth_token_store
                    &&& final(self).0.clerking_job_store == old(self).0.clerking_job_store
                } else {
                    res == Err::<(), SdaError>(SdaError::PermissionDenied) && *final(self) == *old(self)
                },
            },
    {
        self.recipient_check(caller, aggregation)?;
        let inner = self.0.delete_aggregation(aggregation);
        report(inner)
    }

    /// Suggests clerks for the committee of an aggregation; only its
    /// recipient may ask.
    pub fn suggest_committee(&self, caller: &Agent, aggregation: &AggregationId) -> (res: SdaResult<
        Vec<ClerkCandidate>,
    >)
        ensures
            match self.recipient_of(*aggregation) {
                None => res matches Err(SdaError::Msg(msg)) && msg@ == no_aggregation_message(),
                Some(r) => if caller.id == r {
                    res matches Ok(candidates) && candidates@.map_values(
                        |c: ClerkCandidate| crate::stores::candidate_view(c),
                    ) == crate::stores::committee_candidates(
                        self.0.agent_store.agents.values(),
                        self.0.agent_store.encryption_keys.values(),
                    )
                } else {
                    res is Err && res->Err_0 == SdaError::PermissionDenied
                },
            },
    {
        self.recipient_check(caller, aggregation)?;
        report(self.0.suggest_committee(aggregation))
    }

    /// Sets the committee of an aggregation; only its recipient may.
    pub fn create_committee(&mut self, caller: &Agent, committee: Committee) -> (res: SdaResult<()>)
        ensures
            old(self).0.keyed_by_id() ==> final(self).0.keyed_by_id(),
            match old(self).recipient_of(committee.aggregation) {
                None => res matches Err(SdaError::Msg(msg)) && msg@ == no_aggregation_message()
                    && *final(self) == *old(self),
                Some(r) => if caller.id == r {
                    &&& res is Ok
                    &&& final(self).0.aggregation_store.committees@
                        == old(self).0.aggregation_store.committees@.insert(
                        committee.aggregation.0,
                        committee,
                    )
                    &&& final(self).0.aggregation_store.aggregations
                        == old(self).0.aggregation_store.aggregations
                    &&& final(self).0.aggregation_store.participations
                        == old(self).0.aggregation_store.participations
                    &&& final(self).0.aggregation_store.snapshots
                        == old(self).0.aggregation_store.snapshots
                    &&& final(self).0.aggregation_store.snapshot_contents
                        == old(self).0.aggregation_store.snapshot_contents
                    &&& final(self).0.aggregation_store.snapshot_masks
                        == old(self).0.aggregation_store.snapshot_masks
                    &&& final(self).0.agent_store == old(self).0.agent_store
                    &&& final(self).0.auth_token_store == old(self).0.auth_token_store
                    &&& final(self).0.clerking_job_store == old(self).0.clerking_job_store
                } else {
                    res == Err::<(), SdaError>(SdaError::PermissionDenied) && *final(self) == *old(self)
                },
            },
    {
        self.recipient_check(caller, &committee.aggregation)?;
        self.0.create_committee(committee);
        Ok(())
    }

    /// The status of an aggregation; only its recipient may ask.
    pub fn get_aggregation_status(&self, caller: &Agent, aggregation: &AggregationId) -> (res:
        SdaResult<Option<AggregationStatus>>)
        ensures
            match self.recipient_of(*aggregation) {
                None => res matches Err(SdaError::Msg(msg)) && msg@ == no_aggregation_message(),
                Some(r) => if caller.id == r {
                    res matches Ok(Some(status)) && status.aggregation == *aggregation
                        && status.number_of_participations
                        == self.0.aggregation_store.participations_of(*aggregation).len()
                        && status.snapshots@ == crate::aggregations::snapshots_of(
                        self.0.aggregation_store.snapshots.values(),
                        *aggregation,
                    ).map_values(
                        |s: crate::ids::SnapshotId|
                            crate::server::snapshot_status(
                                self.0.aggregation_of(*aggregation),
                                &self.0.clerking_job_store,
                                s,
                            ),
                    )
                } else {
                    res is Err && res->Err_0 == SdaError::PermissionDenied
                },
            },
    {
        self.recipient_check(caller, aggregation)?;
        Ok(Some(self.0.get_aggregation_status(aggregation)))
    }

    /// Takes a snapshot of an aggregation; only its recipient may.
    pub fn create_snapshot(&mut self, caller: &Agent, snapshot: &Snapshot) -> (res: SdaResult<()>)
        requires
            old(self).recipient_of(snapshot.aggregation) == Some(caller.id) ==> old(
                self,
            ).0.snapshot_fits(*snapshot),
        ensures
            old(self).0.keyed_by_id() ==> final(self).0.keyed_by_id(),
            match old(self).recipient_of(snapshot.aggregation) {
                None => res matches Err(SdaError::Msg(msg)) && msg@ == no_aggregation_message()
                    && *final(self) == *old(self),
                Some(r) => if caller.id == r {
                    exists|inner: SdaServerResult<()>|
                        snapshot_outcome(old(self).0, final(self).0, *snapshot, inner) && reports(
                            res,
                            inner,
                        )
                } else {
                    res == Err::<(), SdaError>(SdaError::PermissionDenied) && *final(self) == *old(self)
                },
            },
    {
        self.recipient_check(caller, &snapshot.aggregation)?;
        let inner = self.0.create_snapshot(snapshot);
        report(inner)
    }

    /// Records a participation; only the participant may.
    pub fn create_participation(&mut self, caller: &Agent, participation: Participation) -> (res:
        SdaResult<()>)
        ensures
            old(self).0.keyed_by_id() ==> final(self).0.keyed_by_id(),
            caller.id != participation.participant ==> res == Err::<(), SdaError>(
                SdaError::PermissionDenied,
            ) && *final(self) == *old(self),
            caller.id == participation.participant ==> {
                &&& res is Ok
                &&& final(self).0.aggregation_store.participations@.dom() == old(self).0.aggregation_store.participations@.dom().insert(participation.aggregation.0)
                &&& forall|x: u128|
                    x != participation.aggregation.0 && #[trigger] old(self).0.aggregation_store.participations@.contains_key(x) ==> final(self).0.aggregation_store.participations@[x] == old(self).0.aggregation_store.participations@[x]
                &&& final(self).0.aggregation_store.participations@[participation.aggregation.0]@
                    == inner_view(
                    old(self).0.aggregation_store.participations@,
                    participation.aggregation.0,
                ).insert(participation.id.0, participation)
                &&& final(self).0.aggregation_store.aggregations
                    == old(self).0.aggregation_store.aggregations
                &&& final(self).0.aggregation_store.committees
                    == old(self).0.aggregation_store.committees
                &&& final(self).0.aggregation_store.snapshots
                    == old(self).0.aggregation_store.snapshots
                &&& final(self).0.aggregation_store.snapshot_contents
                    == old(self).0.aggregation_store.snapshot_contents
                &&& final(self).0.aggregation_store.snapshot_masks
                    == old(self).0.aggregation_store.snapshot_masks
                &&& final(self).0.agent_store == old(self).0.agent_store
                &&& final(self).0.auth_token_store == old(self).0.auth_token_store
                &&& final(self).0.clerking_job_store == old(self).0.clerking_job_store
            },
    {
        acl_agent_is(caller, participation.participant)?;
        self.0.create_participation(participation);
        Ok(())
    }

    /// The first job queued for a clerk; only the clerk may ask.
    pub fn get_clerking_job(&self, caller: &Agent, clerk: &AgentId) -> (res: SdaResult<
        Option<&ClerkingJob>,
    >)
        ensures
            caller.id != *clerk ==> res == Err::<Option<&ClerkingJob>, SdaError>(
                SdaError::PermissionDenied,
            ),
            caller.id == *clerk ==> match self.0.clerking_job_store.first_queued(*clerk) {
                Some(first) => res matches Ok(Some(j)) && *j == first,
                None => res matches Ok(found) && found is None,
            },
    {
        acl_agent_is(caller, *clerk)?;
        Ok(self.0.poll_clerking_job(clerk))
    }

    /// Files the result of a clerking job; only the clerk who did it may.
    pub fn create_clerking_result(&mut self, caller: &Agent, result: ClerkingResult) -> (res:
        SdaResult<()>)
        ensures
            old(self).0.keyed_by_id() ==> final(self).0.keyed_by_id(),
            caller.id != result.clerk ==> res == Err::<(), SdaError>(SdaError::PermissionDenied)
                && *final(self) == *old(self),
            caller.id == result.clerk ==> exists|inner: SdaServerResult<()>|
                {
                    &&& result_filing(
                        old(self).0.clerking_job_store,
                        final(self).0.clerking_job_store,
                        result,
                        inner,
                    )
                    &&& reports(res, inner)
                    &&& final(self).0.agent_store == old(self).0.agent_store
                    &&& final(self).0.auth_token_store == old(self).0.auth_token_store
                    &&& final(self).0.aggregation_store == old(self).0.aggregation_store
                },
    {
        acl_agent_is(caller, result.clerk)?;
        let inner = self.0.create_clerking_result(result);
        report(inner)
    }

    /// The result of a snapshot; only the aggregation's recipient may ask.
    pub fn get_snapshot_result(
        &self,
        caller: &Agent,
        aggregation: &AggregationId,
        snapshot: &SnapshotId,
    ) -> (res: SdaResult<Option<SnapshotResult>>)
        ensures
            match self.recipient_of(*aggregation) {
                None => res matches Err(SdaError::Msg(msg)) && msg@ == no_aggregation_message(),
                Some(r) => if caller.id == r {
                    exists|inner: SdaServerResult<Option<SnapshotResult>>|
                        {
                            &&& snapshot_result_outcome(self.0, *aggregation, *snapshot, inner)
                            &&& reports(res, inner)
                        }
                } else {
                    res is Err && res->Err_0 == SdaError::PermissionDenied
                },
            },
    {
        self.recipient_check(caller, aggregation)?;
        let inner = self.0.get_snapshot_result(aggregation, snapshot);
        report(inner)
    }
}

} // verus!
