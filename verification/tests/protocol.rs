use sda::crypto::{AdditiveEncryptionScheme, LinearMaskingScheme, LinearSecretSharingScheme};
use sda::helpers::label;
use sda::ids::{AgentId, AggregationId, ClerkingJobId, ParticipationId, SnapshotId};

#[test]
fn masking_schemes() {
    assert!(!LinearMaskingScheme::NoMask.has_mask());
    assert!(LinearMaskingScheme::Full { modulus: 433 }.has_mask());
    assert!(LinearMaskingScheme::ChaCha { modulus: 433, dimension: 4, seed_bitsize: 128 }.has_mask());
}

#[test]
fn additive_sharing_sizes() {
    let s = LinearSecretSharingScheme::Additive { share_count: 3, modulus: 433 };
    assert_eq!(1, s.input_size());
    assert_eq!(3, s.output_size());
    assert_eq!(2, s.privacy_threshold());
    assert_eq!(3, s.reconstruction_threshold());
    assert!(s.reconstructs_with(3));
    assert!(!s.reconstructs_with(2));
}

#[test]
fn packed_shamir_sizes() {
    let s = LinearSecretSharingScheme::PackedShamir {
        secret_count: 3,
        share_count: 8,
        privacy_threshold: 4,
        prime_modulus: 433,
        omega_secrets: 354,
        omega_shares: 150,
    };
    assert_eq!(3, s.input_size());
    assert_eq!(8, s.output_size());
    assert_eq!(4, s.privacy_threshold());
    assert_eq!(7, s.reconstruction_threshold());
    assert!(s.reconstructs_with(7));
    assert!(s.reconstructs_with(8));
    assert!(!s.reconstructs_with(6));
    let huge = LinearSecretSharingScheme::PackedShamir {
        secret_count: usize::MAX,
        share_count: 8,
        privacy_threshold: usize::MAX,
        prime_modulus: 433,
        omega_secrets: 354,
        omega_shares: 150,
    };
    assert!(!huge.reconstructs_with(usize::MAX));
}

#[test]
fn encryption_batch_size() {
    assert_eq!(1, AdditiveEncryptionScheme::Sodium.batch_size());
}

#[test]
fn identifiers_text_round_trip() {
    let a = AgentId::random();
    let text = a.to_string();
    assert_eq!(36, text.len());
    assert_eq!(b'-', text.as_bytes()[8]);
    assert_eq!(b'4', text.as_bytes()[14]);
    assert!(b"89ab".contains(&text.as_bytes()[19]), "{}", text);
    for _ in 0..20 {
        let t = ClerkingJobId::random().to_string();
        assert_eq!(b'4', t.as_bytes()[14]);
        assert!(b"89ab".contains(&t.as_bytes()[19]), "{}", t);
    }
    assert_eq!(Ok(a), AgentId::from_str(&text));
    let fixed = AggregationId(0x0123456789abcdef0123456789abcdef);
    assert_eq!("01234567-89ab-cdef-0123-456789abcdef", fixed.to_string());
    assert_eq!(
        Ok(fixed),
        AggregationId::from_str("01234567-89ab-cdef-0123-456789abcdef")
    );
    assert_eq!(
        Err("unparseable uuid nope".to_string()),
        SnapshotId::from_str("nope")
    );
}

#[test]
fn random_identifiers_differ() {
    let a = ParticipationId::random();
    let b = ParticipationId::random();
    assert_ne!(a, b);
    assert_ne!(AgentId::default(), AgentId::default());
}

#[test]
fn labelling_copies_the_body() {
    let id = AgentId::random();
    let body = String::from("hello");
    let l = label(&id, &body);
    assert_eq!(id, l.id);
    assert_eq!(body, l.body);
}
