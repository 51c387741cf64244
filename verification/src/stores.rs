//! The server's stores: agents and their keys, authentication tokens,
//! aggregations with their participations and snapshots, and clerking jobs.
//!
//! Each store keeps its records in ordered tables, one table per kind of
//! record; nested tables group records by an owning identifier.

use vstd::prelude::*;

use crate::errors::{SdaServerError, SdaServerResult};
use crate::ids::{AgentId, EncryptionKeyId};
use crate::resources::{Agent, AuthToken, ClerkCandidate, Profile, SignedEncryptionKey};
use crate::table::Table;

verus! {

/// The message when a record to read or delete is not there, worded as the
/// operating system words a missing file.
pub open spec fn missing_record_message() -> Seq<char> {
    "No such file or directory (os error 2)"@
}

/// The message when a record to create differs from the one recorded.
pub open spec fn already_exists_message() -> Seq<char> {
    "File already exists"@
}

/// The ids of the keys signed by `agent`, in key order.
pub open spec fn keys_signed_by(keys: Seq<SignedEncryptionKey>, agent: AgentId) -> Seq<
    EncryptionKeyId,
>
    decreases keys.len(),
{
    if keys.len() == 0 {
        Seq::empty()
    } else {
        let earlier = keys_signed_by(keys.drop_last(), agent);
        if keys.last().signer == agent {
            earlier.push(keys.last().body.id)
        } else {
            earlier
        }
    }
}

/// The candidates for a committee: each agent, in id order, that signed at
/// least one key, with the ids of the keys it signed.
pub open spec fn committee_candidates(agents: Seq<Agent>, keys: Seq<SignedEncryptionKey>) -> Seq<
    (AgentId, Seq<EncryptionKeyId>),
>
    decreases agents.len(),
{
    if agents.len() == 0 {
        Seq::empty()
    } else {
        let earlier = committee_candidates(agents.drop_last(), keys);
        let id = agents.last().id;
        if keys_signed_by(keys, id).len() > 0 {
            earlier.push((id, keys_signed_by(keys, id)))
        } else {
            earlier
        }
    }
}

/// A candidate as the pair of its id and key ids.
pub open spec fn candidate_view(c: ClerkCandidate) -> (AgentId, Seq<EncryptionKeyId>) {
    (c.id, c.keys@)
}

/// Agents, their public profiles and their encryption keys.
pub struct AgentStore {
    pub agents: Table<Agent>,
    pub profiles: Table<Profile>,
    pub encryption_keys: Table<SignedEncryptionKey>,
}

impl AgentStore {
    /// Every agent, profile and key is kept under its own id.
    pub open spec fn keyed_by_id(&self) -> bool {
        &&& forall|k: u128| #[trigger] self.agents@.contains_key(k) ==> self.agents@[k].id.0 == k
        &&& forall|k: u128|
            #[trigger] self.profiles@.contains_key(k) ==> self.profiles@[k].owner.0 == k
        &&& forall|k: u128|
            #[trigger] self.encryption_keys@.contains_key(k) ==> self.encryption_keys@[k].body.id.0
                == k
    }

    pub fn new() -> (s: AgentStore)
        ensures
            s.keyed_by_id(),
            s.agents@ == Map::<u128, Agent>::empty(),
            s.profiles@ == Map::<u128, Profile>::empty(),
            s.encryption_keys@ == Map::<u128, SignedEncryptionKey>::empty(),
    {
        AgentStore { agents: Table::new(), profiles: Table::new(), encryption_keys: Table::new() }
    }

    /// Records a new agent; an agent already recorded under the same id
    /// must be equal to it.
    pub fn create_agent(&mut self, agent: Agent) -> (res: SdaServerResult<()>)
        ensures
            old(self).keyed_by_id() ==> final(self).keyed_by_id(),
            final(self).profiles == old(self).profiles,
            final(self).encryption_keys == old(self).encryption_keys,
            match res {
                Ok(()) => final(self).agents@ == old(self).agents@.insert(agent.id.0, agent),
                Err(SdaServerError::Msg(msg)) => {
                    &&& old(self).agents@.contains_key(agent.id.0)
                    &&& old(self).agents@[agent.id.0] != agent
                    &&& final(self).agents@ == old(self).agents@
                    &&& msg@ == already_exists_message()
                },
            },
            res is Ok <==> !(old(self).agents@.contains_key(agent.id.0)
                && old(self).agents@[agent.id.0] != agent),
    {
        let key = agent.id.0;
        match self.agents.create(key, agent) {
            Ok(()) => Ok(()),
            Err(()) => Err(SdaServerError::Msg(String::from_str("File already exists"))),
        }
    }

    /// The agent with the given id.
    pub fn get_agent(&self, id: &AgentId) -> (agent: Option<&Agent>)
        ensures
            agent is Some <==> self.agents@.contains_key(id.0),
            agent matches Some(a) ==> *a == self.agents@[id.0],
    {
        self.agents.get(id.0)
    }

    /// Records a profile in place of any earlier profile of its owner.
    pub fn upsert_profile(&mut self, profile: Profile)
        ensures
            old(self).keyed_by_id() ==> final(self).keyed_by_id(),
            final(self).agents == old(self).agents,
            final(self).encryption_keys == old(self).encryption_keys,
            final(self).profiles@ == old(self).profiles@.insert(profile.owner.0, profile),
    {
        let key = profile.owner.0;
        self.profiles.upsert(key, profile);
    }

    /// The profile of the given agent.
    pub fn get_profile(&self, owner: &AgentId) -> (profile: Option<&Profile>)
        ensures
            profile is Some <==> self.profiles@.contains_key(owner.0),
            profile matches Some(p) ==> *p == self.profiles@[owner.0],
    {
        self.profiles.get(owner.0)
    }

    /// Records a new encryption key; a key already recorded under the same
    /// id must be equal to it.
    pub fn create_encryption_key(&mut self, key: SignedEncryptionKey) -> (res: SdaServerResult<()>)
        ensures
            old(self).keyed_by_id() ==> final(self).keyed_by_id(),
            final(self).agents == old(self).agents,
            final(self).profiles == old(self).profiles,
            match res {
                Ok(()) => final(self).encryption_keys@ == old(self).encryption_keys@.insert(
                    key.body.id.0,
                    key,
                ),
                Err(SdaServerError::Msg(msg)) => {
                    &&& final(self).encryption_keys@ == old(self).encryption_keys@
                    &&& msg@ == already_exists_message()
                },
            },
            res is Ok <==> !(old(self).encryption_keys@.contains_key(key.body.id.0)
                && old(self).encryption_keys@[key.body.id.0] != key),
    {
        let id = key.body.id.0;
        match self.encryption_keys.create(id, key) {
            Ok(()) => Ok(()),
            Err(()) => Err(SdaServerError::Msg(String::from_str("File already exists"))),
        }
    }

    /// The encryption key with the given id.
    pub fn get_encryption_key(&self, key: &EncryptionKeyId) -> (found: Option<&SignedEncryptionKey>)
        ensures
            found is Some <==> self.encryption_keys@.contains_key(key.0),
            found matches Some(k) ==> *k == self.encryption_keys@[key.0],
    {
        self.encryption_keys.get(key.0)
    }

    /// The ids of the keys signed by `agent`, in key order.
    fn keys_of(&self, agent: AgentId) -> (ids: Vec<EncryptionKeyId>)
        ensures
            ids@ == keys_signed_by(self.encryption_keys.values(), agent),
    {
        proof {
            use_type_invariant(&self.encryption_keys);
        }
        let mut ids: Vec<EncryptionKeyId> = Vec::new();
        let n = self.encryption_keys.len();
        let mut i: usize = 0;
        while i < n
            invariant
                n == self.encryption_keys.keys().len(),
                self.encryption_keys.values().len() == n,
                i <= n,
                ids@ == keys_signed_by(self.encryption_keys.values().take(i as int), agent),
            decreases n - i,
        {
            let key = self.encryption_keys.value_at(i);
            assert(self.encryption_keys.values().take(i + 1).drop_last()
                =~= self.encryption_keys.values().take(i as int));
            if key.signer == agent {
                ids.push(key.body.id);
            }
            i = i + 1;
        }
        assert(self.encryption_keys.values().take(n as int) =~= self.encryption_keys.values());
        ids
    }

    /// Suggests clerks for a committee: every agent, in id order, that has
    /// signed an encryption key, with the keys it signed.
    pub fn suggest_committee(&self) -> (candidates: Vec<ClerkCandidate>)
        ensures
            candidates@.map_values(|c: ClerkCandidate| candidate_view(c)) == committee_candidates(
                self.agents.values(),
                self.encryption_keys.values(),
            ),
    {
        proof {
            use_type_invariant(&self.agents);
        }
        let mut candidates: Vec<ClerkCandidate> = Vec::new();
        let n = self.agents.len();
        let mut i: usize = 0;
        while i < n
            invariant
                n == self.agents.keys().len(),
                self.agents.values().len() == n,
                i <= n,
                candidates@.map_values(|c: ClerkCandidate| candidate_view(c))
                    == committee_candidates(
                    self.agents.values().take(i as int),
                    self.encryption_keys.values(),
                ),
            decreases n - i,
        {
            let id = self.agents.value_at(i).id;
            assert(self.agents.values().take(i + 1).drop_last() =~= self.agents.values().take(
                i as int,
            ));
            let keys = self.keys_of(id);
            let ghost before = candidates@;
            if keys.len() > 0 {
                candidates.push(ClerkCandidate { id, keys });
                assert(candidates@.map_values(|c: ClerkCandidate| candidate_view(c))
                    =~= before.map_values(|c: ClerkCandidate| candidate_view(c)).push(
                    (id, keys_signed_by(self.encryption_keys.values(), id)),
                ));
            }
            i = i + 1;
        }
        assert(self.agents.values().take(n as int) =~= self.agents.values());
        candidates
    }
}

/// Authentication tokens, one per agent.
pub struct AuthStore {
    pub auth_tokens: Table<AuthToken>,
}

impl AuthStore {
    /// Every token is kept under its agent's id.
    pub open spec fn keyed_by_id(&self) -> bool {
        forall|k: u128| #[trigger] self.auth_tokens@.contains_key(k) ==> self.auth_tokens@[k].id.0 == k
    }

    pub fn new() -> (s: AuthStore)
        ensures
            s.keyed_by_id(),
            s.auth_tokens@ == Map::<u128, AuthToken>::empty(),
    {
        AuthStore { auth_tokens: Table::new() }
    }

    /// Records a token in place of any earlier token of its agent.
    pub fn upsert_auth_token(&mut self, token: AuthToken)
        ensures
            old(self).keyed_by_id() ==> final(self).keyed_by_id(),
            final(self).auth_tokens@ == old(self).auth_tokens@.insert(token.id.0, token),
    {
        let key = token.id.0;
        self.auth_tokens.upsert(key, token);
    }

    /// The token of the given agent.
    pub fn get_auth_token(&self, id: &AgentId) -> (token: Option<&AuthToken>)
        ensures
            token is Some <==> self.auth_tokens@.contains_key(id.0),
            token matches Some(t) ==> *t == self.auth_tokens@[id.0],
    {
        self.auth_tokens.get(id.0)
    }

    /// Forgets the token of the given agent; there must be one.
    pub fn delete_auth_token(&mut self, id: &AgentId) -> (res: SdaServerResult<()>)
        ensures
            old(self).keyed_by_id() ==> final(self).keyed_by_id(),
            res is Ok <==> old(self).auth_tokens@.contains_key(id.0),
            final(self).auth_tokens@ == old(self).auth_tokens@.remove(id.0),
            res matches Err(SdaServerError::Msg(msg)) ==> msg@ == missing_record_message(),
    {
        match self.auth_tokens.remove(id.0) {
            Some(_) => Ok(()),
            None => Err(SdaServerError::Msg(String::from_str("No such file or directory (os error 2)"))),
        }
    }
}

/// Every suggested candidate has signed at least one key, and is one of
/// the agents.
pub proof fn law_candidates_hold_keys(agents: Seq<Agent>, keys: Seq<SignedEncryptionKey>)
    ensures
        forall|i: int|
            0 <= i < committee_candidates(agents, keys).len() ==> {
                &&& (#[trigger] committee_candidates(agents, keys)[i]).1.len() > 0
                &&& committee_candidates(agents, keys)[i].1 == keys_signed_by(
                    keys,
                    committee_candidates(agents, keys)[i].0,
                )
                &&& exists|a: int|
                    0 <= a < agents.len() && #[trigger] agents[a].id == committee_candidates(
                        agents,
                        keys,
                    )[i].0
            },
    decreases agents.len(),
{
    if agents.len() > 0 {
        let rest = agents.drop_last();
        law_candidates_hold_keys(rest, keys);
        let earlier = committee_candidates(rest, keys);
        assert forall|i: int| 0 <= i < committee_candidates(agents, keys).len() implies {
            &&& (#[trigger] committee_candidates(agents, keys)[i]).1.len() > 0
            &&& committee_candidates(agents, keys)[i].1 == keys_signed_by(
                keys,
                committee_candidates(agents, keys)[i].0,
            )
            &&& exists|a: int|
                0 <= a < agents.len() && #[trigger] agents[a].id == committee_candidates(
                    agents,
                    keys,
                )[i].0
        } by {
            if i < earlier.len() {
                assert(committee_candidates(agents, keys)[i] == earlier[i]);
                let a = choose|a: int| 0 <= a < rest.len() && #[trigger] rest[a].id == earlier[i].0;
                assert(agents[a] == rest[a]);
            } else {
                assert(agents[agents.len() - 1] == agents.last());
            }
        }
    }
}

/// The keys listed for an agent are exactly the keys it signed, in order:
/// the ids of the keys kept by a filter on the signer. In particular every
/// key the agent signed is listed.
pub proof fn law_signed_keys_are_exact(keys: Seq<SignedEncryptionKey>, agent: AgentId)
    ensures
        keys_signed_by(keys, agent) == keys.filter(|k: SignedEncryptionKey| k.signer == agent).map_values(
            |k: SignedEncryptionKey| k.body.id,
        ),
        forall|i: int|
            0 <= i < keys.len() && #[trigger] keys[i].signer == agent ==> keys_signed_by(
                keys,
                agent,
            ).contains(keys[i].body.id),
    decreases keys.len(),
{
    let pred = |k: SignedEncryptionKey| k.signer == agent;
    if keys.len() > 0 {
        let n = keys.len() - 1;
        let rest = keys.drop_last();
        law_signed_keys_are_exact(rest, agent);
        assert(keys.last() == keys[n]);
        assert(keys =~= rest.push(keys.last()));
        rest.lemma_filter_push(keys.last(), pred);
        if pred(keys.last()) {
            assert(rest.filter(pred).push(keys.last()).map_values(|k: SignedEncryptionKey| k.body.id)
                =~= rest.filter(pred).map_values(|k: SignedEncryptionKey| k.body.id).push(
                keys.last().body.id,
            ));
        }
        assert forall|i: int| 0 <= i < keys.len() && #[trigger] keys[i].signer == agent implies keys_signed_by(
            keys,
            agent,
        ).contains(keys[i].body.id) by {
            if i < n {
                assert(rest[i] == keys[i]);
                let k = choose|k: int|
                    0 <= k < keys_signed_by(rest, agent).len() && keys_signed_by(rest, agent)[k]
                        == keys[i].body.id;
                assert(keys_signed_by(keys, agent)[k] == keys_signed_by(rest, agent)[k]);
            } else {
                let m = keys_signed_by(keys, agent).len() - 1;
                assert(keys_signed_by(keys, agent)[m] == keys[i].body.id);
            }
        }
    } else {
        assert(keys.filter(pred) =~= Seq::<SignedEncryptionKey>::empty());
        assert(keys.filter(pred).map_values(|k: SignedEncryptionKey| k.body.id) =~= Seq::<
            EncryptionKeyId,
        >::empty());
    }
}

/// Every agent that signed a key is suggested, and the key is among the
/// keys it is suggested with.
pub proof fn law_signers_are_candidates(
    agents: Seq<Agent>,
    keys: Seq<SignedEncryptionKey>,
    a: int,
    k: int,
)
    requires
        0 <= a < agents.len(),
        0 <= k < keys.len(),
        keys[k].signer == agents[a].id,
    ensures
        exists|c: int|
            0 <= c < committee_candidates(agents, keys).len()
                && #[trigger] committee_candidates(agents, keys)[c].0 == agents[a].id
                && committee_candidates(agents, keys)[c].1.contains(keys[k].body.id),
    decreases agents.len(),
{
    law_signed_keys_are_exact(keys, agents[a].id);
    let rest = agents.drop_last();
    let n = agents.len() - 1;
    if a < n {
        assert(rest[a] == agents[a]);
        law_signers_are_candidates(rest, keys, a, k);
        let c = choose|c: int|
            0 <= c < committee_candidates(rest, keys).len()
                && #[trigger] committee_candidates(rest, keys)[c].0 == rest[a].id
                && committee_candidates(rest, keys)[c].1.contains(keys[k].body.id);
        assert(committee_candidates(agents, keys)[c] == committee_candidates(rest, keys)[c]);
    } else {
        assert(agents.last() == agents[a]);
        let m = committee_candidates(agents, keys).len() - 1;
        assert(committee_candidates(agents, keys)[m].0 == agents[a].id);
    }
}

} // verus!
