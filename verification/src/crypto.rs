//! Parameters for the cryptographic primitives supported by the system.

use vstd::prelude::*;

use crate::byte_arrays::{B32, B64};

verus! {

/// Encryption (or ciphertext).
#[derive(Debug, PartialEq)]
pub enum Encryption {
    Sodium(Vec<u8>),
}

impl View for Encryption {
    type V = Seq<u8>;

    /// The bytes of the ciphertext.
    open spec fn view(&self) -> Seq<u8> {
        match self {
            Encryption::Sodium(bytes) => bytes@,
        }
    }
}

impl Clone for Encryption {
    fn clone(&self) -> (res: Self)
        ensures
            res@ == self@,
    {
        match self {
            Encryption::Sodium(bytes) => {
                let copy = bytes.clone();
                assert(copy@ =~= bytes@);
                Encryption::Sodium(copy)
            },
        }
    }
}

/// Encryption key (aka public key).
#[derive(Clone, Copy, Debug, PartialEq, Eq)]
pub enum EncryptionKey {
    Sodium(B32),
}

/// Signature.
#[derive(Clone, Copy, Debug, PartialEq, Eq)]
pub enum Signature {
    Sodium(B64),
}

/// Signing key for signatures.
#[derive(Clone, Copy, Debug, PartialEq, Eq)]
pub enum SigningKey {
    Sodium(B64),
}

/// Verification key for signatures.
#[derive(Clone, Copy, Debug, PartialEq, Eq)]
pub enum VerificationKey {
    Sodium(B32),
}

/// Supported masking schemes and their parameters.
#[derive(Clone, Copy, Debug, PartialEq, Eq)]
pub enum LinearMaskingScheme {
    NoMask,
    Full { modulus: i64 },
    ChaCha { modulus: i64, dimension: usize, seed_bitsize: usize },
}

impl LinearMaskingScheme {
    /// Whether the scheme produces a mask for the recipient.
    pub open spec fn spec_has_mask(self) -> bool {
        !(self is NoMask)
    }

    pub fn has_mask(&self) -> (b: bool)
        ensures
            b == self.spec_has_mask(),
    {
        match *self {
            LinearMaskingScheme::NoMask => false,
            LinearMaskingScheme::Full { .. } => true,
            LinearMaskingScheme::ChaCha { .. } => true,
        }
    }
}

/// Supported secret sharing schemes and their parameters.
#[derive(Clone, Copy, Debug, PartialEq, Eq)]
pub enum LinearSecretSharingScheme {
    Additive {
        /// Number of shares to generate for each secret.
        share_count: usize,
        /// Modulus specifying the additive group in which to operate.
        modulus: i64,
    },
    PackedShamir {
        /// Dimension of secrets, i.e. number of components in vector.
        secret_count: usize,
        /// Number of shares to generate for each vector of secrets.
        share_count: usize,
        /// Number of shares needed to reconstruct.
        privacy_threshold: usize,
        /// Prime number specifying the prime field in which to operate.
        prime_modulus: i64,
        /// Root of unity used for the secrets.
        omega_secrets: i64,
        /// Root of unity used for the shares.
        omega_shares: i64,
    },
}

/// Derived properties of the secret sharing schemes.
impl LinearSecretSharingScheme {
    /// Number of secrets shared together.
    pub open spec fn spec_input_size(self) -> int {
        match self {
            LinearSecretSharingScheme::Additive { .. } => 1,
            LinearSecretSharingScheme::PackedShamir { secret_count, .. } => secret_count as int,
        }
    }

    /// Number of shares, i.e. number of members in the committee.
    pub open spec fn spec_output_size(self) -> int {
        match self {
            LinearSecretSharingScheme::Additive { share_count, .. } => share_count as int,
            LinearSecretSharingScheme::PackedShamir { share_count, .. } => share_count as int,
        }
    }

    pub open spec fn spec_privacy_threshold(self) -> int {
        match self {
            LinearSecretSharingScheme::Additive { share_count, .. } => share_count - 1,
            LinearSecretSharingScheme::PackedShamir { privacy_threshold, .. } => privacy_threshold as int,
        }
    }

    pub open spec fn spec_reconstruction_threshold(self) -> int {
        match self {
            LinearSecretSharingScheme::Additive { share_count, .. } => share_count as int,
            LinearSecretSharingScheme::PackedShamir { privacy_threshold, secret_count, .. } =>
                privacy_threshold + secret_count,
        }
    }

    pub fn input_size(&self) -> (n: usize)
        ensures
            n == self.spec_input_size(),
    {
        match *self {
            LinearSecretSharingScheme::Additive { .. } => 1,
            LinearSecretSharingScheme::PackedShamir { secret_count, .. } => secret_count,
        }
    }

    /// Number of members in the commitee, number of shares.
    pub fn output_size(&self) -> (n: usize)
        ensures
            n == self.spec_output_size(),
    {
        match *self {
            LinearSecretSharingScheme::Additive { share_count, .. } => share_count,
            LinearSecretSharingScheme::PackedShamir { share_count, .. } => share_count,
        }
    }

    pub fn privacy_threshold(&self) -> (n: usize)
        requires
            self.spec_privacy_threshold() >= 0,
        ensures
            n == self.spec_privacy_threshold(),
    {
        match *self {
            LinearSecretSharingScheme::Additive { share_count, .. } => share_count - 1,
            LinearSecretSharingScheme::PackedShamir { privacy_threshold, .. } => privacy_threshold,
        }
    }

    pub fn reconstruction_threshold(&self) -> (n: usize)
        requires
            self.spec_reconstruction_threshold() <= usize::MAX,
        ensures
            n == self.spec_reconstruction_threshold(),
    {
        match *self {
            LinearSecretSharingScheme::Additive { share_count, .. } => share_count,
            LinearSecretSharingScheme::PackedShamir { privacy_threshold, secret_count, .. } =>
                privacy_threshold + secret_count,
        }
    }

    /// Whether `count` shares reach the reconstruction threshold, computed
    /// without overflow for every parameter choice.
    pub fn reconstructs_with(&self, count: usize) -> (b: bool)
        ensures
            b == (count >= self.spec_reconstruction_threshold()),
    {
        match *self {
            LinearSecretSharingScheme::Additive { share_count, .. } => count >= share_count,
            LinearSecretSharingScheme::PackedShamir { privacy_threshold, secret_count, .. } =>
                count >= privacy_threshold && count - privacy_threshold >= secret_count,
        }
    }
}

/// Reconstruction needs exactly the privacy threshold plus one share per
/// packed secret.
pub proof fn lemma_reconstruction_threshold(scheme: LinearSecretSharingScheme)
    ensures
        scheme.spec_reconstruction_threshold() == scheme.spec_privacy_threshold()
            + scheme.spec_input_size(),
{
}

/// The privacy threshold stays below the reconstruction threshold whenever
/// at least one secret is shared.
pub proof fn lemma_privacy_below_reconstruction(scheme: LinearSecretSharingScheme)
    requires
        scheme.spec_input_size() >= 1,
    ensures
        scheme.spec_privacy_threshold() < scheme.spec_reconstruction_threshold(),
{
}

/// Supported additive encryption schemes and their parameters.
#[derive(Clone, Copy, Debug, PartialEq, Eq)]
pub enum AdditiveEncryptionScheme {
    Sodium,
}

/// Derived properties of the additive encryption schemes.
impl AdditiveEncryptionScheme {
    pub fn batch_size(&self) -> (n: usize)
        ensures
            n == 1,
    {
        match self {
            AdditiveEncryptionScheme::Sodium => 1,
        }
    }
}

} // verus!
