//! Identified resources, labelled and signed values, and binary blobs.

use vstd::prelude::*;

use crate::crypto::Signature;
use crate::encoding::{base64_decode, base64_decoding, base64_encode, base64_encoding};
use crate::ids::{
    AgentId, AggregationId, ClerkingJobId, EncryptionKeyId, ParticipationId, SnapshotId,
    VerificationKeyId,
};

verus! {

/// Marker for identifier types.
pub trait Id {

}

impl Id for VerificationKeyId {

}

impl Id for AgentId {

}

impl Id for EncryptionKeyId {

}

impl Id for AggregationId {

}

impl Id for ParticipationId {

}

impl Id for SnapshotId {

}

impl Id for ClerkingJobId {

}

/// A resource carrying its own identifier.
pub trait Identified {
    type I: Id;

    spec fn spec_id(&self) -> Self::I;

    fn id(&self) -> (id: &Self::I)
        ensures
            *id == self.spec_id(),
    ;
}

/// A value signed by an agent.
#[derive(Clone, Copy, Debug, PartialEq)]
pub struct Signed<M> {
    pub signature: Signature,
    pub signer: AgentId,
    pub body: M,
}

impl<M> Signed<M> {
    /// The signed value.
    pub fn deref(&self) -> (body: &M)
        ensures
            *body == self.body,
    {
        &self.body
    }
}

impl<ID: Id, M: Identified<I = ID>> Identified for Signed<M> {
    type I = ID;

    open spec fn spec_id(&self) -> ID {
        self.body.spec_id()
    }

    fn id(&self) -> (id: &ID) {
        self.deref().id()
    }
}

/// A value together with an identifier.
#[derive(Clone, Copy, Debug, PartialEq)]
pub struct Labelled<ID, M> {
    pub id: ID,
    pub body: M,
}

impl<ID: Id, M> Identified for Labelled<ID, M> {
    type I = ID;

    open spec fn spec_id(&self) -> ID {
        self.id
    }

    fn id(&self) -> (id: &ID) {
        &self.id
    }
}

/// Labels a copy of `body` with `id`.
pub fn label<ID: Copy, M: Clone>(id: &ID, body: &M) -> (labelled: Labelled<ID, M>)
    ensures
        labelled.id == *id,
        cloned(*body, labelled.body),
{
    Labelled { id: *id, body: body.clone() }
}

/// Arbitrary bytes, written as padded base64 text.
#[derive(Clone, Debug, PartialEq)]
pub struct Binary(pub Vec<u8>);

/// The message of a refused base64 text.
pub open spec fn base64_error_message(reason: Seq<char>) -> Seq<char> {
    "Base64 decoding error: "@ + reason
}

impl Binary {
    /// The base64 text of the bytes; decoding it gives the bytes back.
    pub fn to_base64(&self) -> (text: String)
        ensures
            text@ == base64_encoding(self.0@),
            base64_decoding(text@) is Ok,
            base64_decoding(text@)->Ok_0 == self.0@,
    {
        base64_encode(self.0.as_slice())
    }

    /// Reads bytes from base64 text.
    pub fn from_base64(text: &str) -> (res: Result<Binary, String>)
        ensures
            match base64_decoding(text@) {
                Ok(data) => res matches Ok(b) && b.0@ == data,
                Err(reason) => res matches Err(msg) && msg@ == base64_error_message(reason.0),
            },
            res matches Ok(b) ==> base64_encoding(b.0@) == text@,
            res is Ok <==> exists|data: Seq<u8>| #[trigger] base64_encoding(data) == text@,
    {
        match base64_decode(text) {
            Ok(data) => Ok(Binary(data)),
            Err((reason, _)) => {
                let mut msg = String::from_str("Base64 decoding error: ");
                msg.append(reason.as_str());
                Err(msg)
            },
        }
    }
}

} // verus!
