//! Resources exchanged with an SDA service.

use vstd::prelude::*;

use crate::crypto::{
    AdditiveEncryptionScheme, Encryption, EncryptionKey, LinearMaskingScheme,
    LinearSecretSharingScheme, Signature, VerificationKey,
};
use crate::helpers::{Identified, Labelled, Signed};
use crate::table::SameValue;
use crate::aggregations::encryption_views;
use crate::ids::{
    AgentId, AggregationId, ClerkingJobId, EncryptionKeyId, ParticipationId, SnapshotId,
    VerificationKeyId,
};

verus! {

/// Verification key and its associated id.
pub type LabelledVerificationKey = Labelled<VerificationKeyId, VerificationKey>;

/// Encryption key with its id, signed by the owner of the corresponding keypair.
pub type SignedEncryptionKey = Signed<Labelled<EncryptionKeyId, EncryptionKey>>;

/// A secret an agent shows to authenticate, labelled with the agent's id.
pub type AuthToken = Labelled<AgentId, String>;

/// Answer to a ping.
#[derive(Clone, Copy, Debug, PartialEq, Eq)]
pub struct Pong {
    pub running: bool,
}

/// Fundamental description of agents in the system, i.e. participants,
/// clerks, recipients, and admins.
#[derive(Clone, Copy, Debug, PartialEq)]
pub struct Agent {
    /// Unique identifier of agent.
    pub id: AgentId,
    /// Key used for verifying signed resources from agent.
    pub verification_key: LabelledVerificationKey,
}

impl SameValue for Agent {
    fn same_value(&self, other: &Agent) -> (b: bool) {
        let VerificationKey::Sodium(mine) = &self.verification_key.body;
        let VerificationKey::Sodium(theirs) = &other.verification_key.body;
        self.id == other.id && self.verification_key.id == other.verification_key.id
            && mine.same_value(theirs)
    }
}

impl SameValue for SignedEncryptionKey {
    fn same_value(&self, other: &SignedEncryptionKey) -> (b: bool) {
        let Signature::Sodium(my_signature) = &self.signature;
        let Signature::Sodium(their_signature) = &other.signature;
        let EncryptionKey::Sodium(my_key) = &self.body.body;
        let EncryptionKey::Sodium(their_key) = &other.body.body;
        self.signer == other.signer && self.body.id == other.body.id && my_key.same_value(
            their_key,
        ) && my_signature.same_value(their_signature)
    }
}

impl Identified for Agent {
    type I = AgentId;

    open spec fn spec_id(&self) -> AgentId {
        self.id
    }

    fn id(&self) -> (id: &AgentId) {
        &self.id
    }
}

/// Extended profile of an agent, such as name and social handles.
#[derive(Clone, Debug, PartialEq)]
pub struct Profile {
    /// Agent to which profile belongs.
    pub owner: AgentId,
    /// Name or alias.
    pub name: Option<String>,
    /// Twitter handle.
    pub twitter_id: Option<String>,
    /// Keybase handle.
    pub keybase_id: Option<String>,
    /// Public website.
    pub website: Option<String>,
}

impl Default for Profile {
    /// An empty profile for a fresh random owner.
    fn default() -> (p: Profile)
        ensures
            p.name is None,
            p.twitter_id is None,
            p.keybase_id is None,
            p.website is None,
    {
        Profile {
            owner: AgentId::random(),
            name: None,
            twitter_id: None,
            keybase_id: None,
            website: None,
        }
    }
}

/// Description of an aggregation.
#[derive(Clone, Debug, PartialEq)]
pub struct Aggregation {
    /// Unique identifier of aggregation.
    pub id: AggregationId,
    /// Title, e.g. explaining purpose of the aggregation.
    pub title: String,
    /// Fixed dimension of input and output vectors.
    pub vector_dimension: usize,
    /// The group in which all operations are performed.
    pub modulus: i64,
    /// Recipient of output vector.
    pub recipient: AgentId,
    /// Encryption key to be used for encryptions intended for the recipient.
    pub recipient_key: EncryptionKeyId,
    /// Scheme used for masking secrets between the recipient and the committee.
    pub masking_scheme: LinearMaskingScheme,
    /// Scheme used for sharing masked secrets between the clerks.
    pub committee_sharing_scheme: LinearSecretSharingScheme,
    /// Scheme used for encrypting masks for the recipient.
    pub recipient_encryption_scheme: AdditiveEncryptionScheme,
    /// Scheme used for encrypting shares of masked secrets for the committee.
    pub committee_encryption_scheme: AdditiveEncryptionScheme,
}

impl Identified for Aggregation {
    type I = AggregationId;

    open spec fn spec_id(&self) -> AggregationId {
        self.id
    }

    fn id(&self) -> (id: &AggregationId) {
        &self.id
    }
}

/// Suggested clerk for a given aggregation.
#[derive(Clone, Debug, PartialEq)]
pub struct ClerkCandidate {
    /// Clerk identifier.
    pub id: AgentId,
    /// Available and matching encryption keys for candidate.
    pub keys: Vec<EncryptionKeyId>,
}

/// Description of committee elected for an aggregation.
#[derive(Clone, Debug, PartialEq)]
pub struct Committee {
    /// Aggregation identifier.
    pub aggregation: AggregationId,
    /// Clerks in the committee, with the encryption key to use for each.
    pub clerks_and_keys: Vec<(AgentId, EncryptionKeyId)>,
}

/// Description of a participant's input to an aggregation.
#[derive(Clone, Debug, PartialEq)]
pub struct Participation {
    /// Unique identifier of this participation.
    pub id: ParticipationId,
    /// Participant identifier.
    pub participant: AgentId,
    /// Aggregation identifier.
    pub aggregation: AggregationId,
    /// Encryption intended for recipient.
    pub recipient_encryption: Option<Encryption>,
    /// Encryptions intended for the clerks in the committee.
    pub clerk_encryptions: Vec<(AgentId, Encryption)>,
}

impl Identified for Participation {
    type I = ParticipationId;

    open spec fn spec_id(&self) -> ParticipationId {
        self.id
    }

    fn id(&self) -> (id: &ParticipationId) {
        &self.id
    }
}

/// A subset of the current participations to an aggregation, captured to
/// create a consistent set of clerkable shares.
#[derive(Clone, Copy, Debug, PartialEq, Eq, Structural)]
pub struct Snapshot {
    /// Unique identifier.
    pub id: SnapshotId,
    /// Associated aggregation.
    pub aggregation: AggregationId,
}

impl Identified for Snapshot {
    type I = SnapshotId;

    open spec fn spec_id(&self) -> SnapshotId {
        self.id
    }

    fn id(&self) -> (id: &SnapshotId) {
        &self.id
    }
}

/// Partial aggregation job to be performed by a clerk.
#[derive(Clone, Debug, PartialEq)]
pub struct ClerkingJob {
    /// Unique identifier.
    pub id: ClerkingJobId,
    /// Intended clerk.
    pub clerk: AgentId,
    /// Associated aggregation.
    pub aggregation: AggregationId,
    /// Associated snapshot of aggregation.
    pub snapshot: SnapshotId,
    /// Encryptions containing shares for clerking.
    pub encryptions: Vec<Encryption>,
}

/// A clerking job with its encryptions seen as bytes.
pub struct ClerkingJobView {
    pub id: ClerkingJobId,
    pub clerk: AgentId,
    pub aggregation: AggregationId,
    pub snapshot: SnapshotId,
    pub encryptions: Seq<Seq<u8>>,
}

impl View for ClerkingJob {
    type V = ClerkingJobView;

    open spec fn view(&self) -> ClerkingJobView {
        ClerkingJobView {
            id: self.id,
            clerk: self.clerk,
            aggregation: self.aggregation,
            snapshot: self.snapshot,
            encryptions: encryption_views(self.encryptions@),
        }
    }
}

impl Identified for ClerkingJob {
    type I = ClerkingJobId;

    open spec fn spec_id(&self) -> ClerkingJobId {
        self.id
    }

    fn id(&self) -> (id: &ClerkingJobId) {
        &self.id
    }
}

/// Result of a partial aggregation job performed by a clerk.
#[derive(Debug, PartialEq)]
pub struct ClerkingResult {
    /// Associated clerking job.
    pub job: ClerkingJobId,
    /// Executing clerk.
    pub clerk: AgentId,
    /// Encryption of combined shares.
    pub encryption: Encryption,
}

impl Clone for ClerkingResult {
    fn clone(&self) -> (res: Self)
        ensures
            res.job == self.job,
            res.clerk == self.clerk,
            res.encryption@ == self.encryption@,
    {
        ClerkingResult { job: self.job, clerk: self.clerk, encryption: self.encryption.clone() }
    }
}

/// Current status of an aggregation.
#[derive(Clone, Debug, PartialEq)]
pub struct AggregationStatus {
    /// Associated aggregation.
    pub aggregation: AggregationId,
    /// Current number of participations received.
    pub number_of_participations: usize,
    /// Associated snapshots and their status for this aggregation.
    pub snapshots: Vec<SnapshotStatus>,
}

/// Current status of a snapshot.
#[derive(Clone, Copy, Debug, PartialEq, Eq, Structural)]
pub struct SnapshotStatus {
    /// Unique identifier.
    pub id: SnapshotId,
    /// Current number of clerking results received.
    pub number_of_clerking_results: usize,
    /// Whether a result can be produced from the current clerking results.
    pub result_ready: bool,
}

/// Result of an aggregation snapshot, including output, ready for reconstruction.
#[derive(Clone, Debug, PartialEq)]
pub struct SnapshotResult {
    /// Associated snapshot.
    pub snapshot: SnapshotId,
    /// Number of participations used in this result.
    pub number_of_participations: usize,
    /// Encrypted shares of the masked result.
    pub clerk_encryptions: Vec<ClerkingResult>,
    /// Encrypted mask for the result.
    pub recipient_encryptions: Option<Vec<Encryption>>,
}

} // verus!
