use sda::byte_arrays::B32;
use sda::crypto::{
    AdditiveEncryptionScheme, Encryption, LinearMaskingScheme, LinearSecretSharingScheme,
    VerificationKey,
};
use sda::errors::SdaError;
use sda::aggregations::AggregationsStore;
use sda::helpers::{Binary, Labelled};
use sda::http::{auth_token, caller, register_agent, Registration};
use sda::ids::{AgentId, AggregationId, EncryptionKeyId, ParticipationId, SnapshotId, VerificationKeyId};
use sda::resources::{Agent, Aggregation, AuthToken, Committee, Participation, Snapshot};
use sda::routes::route;
use sda::server::SdaServer;
use sda::service::SdaServerService;

fn new_agent() -> Agent {
    Agent {
        id: AgentId::default(),
        verification_key: Labelled {
            id: VerificationKeyId::default(),
            body: VerificationKey::Sodium(B32::default()),
        },
    }
}

fn basic(raw: &str) -> String {
    format!("Basic {}", data_encoding::base64::encode(raw.as_bytes()))
}

fn aggregation(recipient: AgentId) -> Aggregation {
    Aggregation {
        id: AggregationId::random(),
        title: "t".into(),
        vector_dimension: 1,
        modulus: 13,
        recipient,
        recipient_key: EncryptionKeyId::random(),
        masking_scheme: LinearMaskingScheme::NoMask,
        committee_sharing_scheme: LinearSecretSharingScheme::Additive { share_count: 1, modulus: 13 },
        recipient_encryption_scheme: AdditiveEncryptionScheme::Sodium,
        committee_encryption_scheme: AdditiveEncryptionScheme::Sodium,
    }
}

fn participation(aggregation: AggregationId, clerk: AgentId) -> Participation {
    Participation {
        id: ParticipationId::random(),
        participant: AgentId::random(),
        aggregation,
        recipient_encryption: None,
        clerk_encryptions: vec![(clerk, Encryption::Sodium(vec![1]))],
    }
}

// Texts on which the uuid crate's parser overruns its buffer.
const OVERRUN_ONE: &str = "01234567-89abcdef0123456789abcdef01";
const OVERRUN_TWO: &str = "01234567-89ab-cdef0123456789abcdef01";

#[test]
fn overrunning_uuid_texts_are_refused() {
    let one = format!("{}2", OVERRUN_ONE);
    assert_eq!(36, one.len());
    assert_eq!(36, OVERRUN_TWO.len());
    assert_eq!(Err(format!("unparseable uuid {}", one)), AgentId::from_str(&one));
    assert_eq!(
        Err(format!("unparseable uuid {}", OVERRUN_TWO)),
        SnapshotId::from_str(OVERRUN_TWO)
    );
    let urn = format!("urn:uuid:{}", OVERRUN_TWO);
    assert_eq!(Err(format!("unparseable uuid {}", urn)), AggregationId::from_str(&urn));
    assert_eq!(None, route("GET", &format!("/v1/agents/{}", one)));
    assert_eq!(
        None,
        route("GET", &format!("/v1/aggregations/{}/snapshots/{}/result", OVERRUN_TWO, OVERRUN_TWO))
    );
    match auth_token(Some(&basic(&format!("{}:pw", one)))) {
        Err(SdaError::Msg(m)) => assert_eq!(format!("unparseable uuid {}", one), m),
        other => panic!("unexpected result: {:?}", other),
    }
    // well-formed texts still read
    let a = AgentId::random();
    assert_eq!(Ok(a), AgentId::from_str(&a.to_string()));
    assert_eq!(Ok(a), AgentId::from_str(&format!("urn:uuid:{}", a.to_string())));
    assert_eq!(Ok(a), AgentId::from_str(&a.to_string().replace("-", "")));
}

#[test]
fn registering_again_keeps_the_first_password() {
    let mut service = SdaServerService(SdaServer::new());
    let alice = new_agent();
    let first = AuthToken { id: alice.id, body: "pw1".to_string() };
    let second = AuthToken { id: alice.id, body: "pw2".to_string() };
    assert_eq!(Ok(Registration::Registered), register_agent(&mut service, first.clone(), alice));
    assert_eq!(Err(SdaError::InvalidCredentials), register_agent(&mut service, second.clone(), alice));
    assert_eq!(Ok(alice), service.0.check_auth_token(&first));
    assert_eq!(Err(SdaError::InvalidCredentials), service.0.check_auth_token(&second));
    // again with the first password: accepted, nothing changes
    assert_eq!(Ok(Registration::Registered), register_agent(&mut service, first.clone(), alice));
    assert_eq!(Ok(alice), caller(&service.0, Some(&basic(&format!("{}:pw1", alice.id.to_string())))));
}

#[test]
fn deleting_an_aggregation_deletes_all_of_it() {
    let mut store = AggregationsStore::new();
    let recipient = AgentId::random();
    let clerk = AgentId::random();
    let agg = aggregation(recipient);
    let other = aggregation(recipient);
    for a in [&agg, &other] {
        store.create_aggregation(a.clone());
        store.create_committee(Committee { aggregation: a.id, clerks_and_keys: vec![(clerk, EncryptionKeyId::random())] });
        store.create_participation(participation(a.id, clerk));
    }
    let snap = Snapshot { id: SnapshotId::random(), aggregation: agg.id };
    let kept = Snapshot { id: SnapshotId::random(), aggregation: other.id };
    for s in [&snap, &kept] {
        store.snapshot_participations(&s.aggregation, &s.id);
        store.create_snapshot(s);
        store.create_snapshot_mask(&s.id, vec![Encryption::Sodium(vec![9])]);
    }
    store.delete_aggregation(&agg.id).unwrap();
    assert!(store.get_aggregation(&agg.id).is_none());
    assert!(store.get_committee(&agg.id).is_none());
    assert_eq!(0, store.count_participations(&agg.id));
    assert!(store.list_snapshots(&agg.id).is_empty());
    assert!(store.get_snapshot(&agg.id, &snap.id).is_none());
    assert!(store.get_snapshot_mask(&snap.id).is_none());
    assert!(store.iter_snapped_participations(&agg.id, &snap.id).is_err());
    // the other aggregation is untouched
    assert!(store.get_aggregation(&other.id).is_some());
    assert!(store.get_committee(&other.id).is_some());
    assert_eq!(1, store.count_participations(&other.id));
    assert_eq!(vec![kept.id], store.list_snapshots(&other.id));
    assert!(store.get_snapshot_mask(&kept.id).is_some());
    assert_eq!(1, store.iter_snapped_participations(&other.id, &kept.id).unwrap().len());
}

#[test]
fn a_missing_participation_is_named() {
    let mut store = AggregationsStore::new();
    let agg = aggregation(AgentId::random());
    let p = participation(agg.id, AgentId::random());
    store.create_aggregation(agg.clone());
    store.create_participation(p.clone());
    let snap = SnapshotId::random();
    store.snapshot_participations(&agg.id, &snap);
    store.participations.remove_in(agg.id.0, p.id.0);
    let expected = format!(
        "participation id=ParticipationId(Uuid(\"{}\")) for agg=AggregationId(Uuid(\"{}\")) not found",
        p.id.to_string(),
        agg.id.to_string()
    );
    match store.iter_snapped_participations(&agg.id, &snap) {
        Err(sda::errors::SdaServerError::Msg(m)) => assert_eq!(expected, m),
        Ok(_) => panic!("unexpected success"),
    }
    match store.iter_snapped_participations(&agg.id, &SnapshotId::random()) {
        Err(sda::errors::SdaServerError::Msg(m)) => {
            assert_eq!("No such file or directory (os error 2)", m)
        }
        Ok(_) => panic!("unexpected success"),
    }
}

#[test]
fn a_resent_participation_is_counted_once() {
    let mut store = AggregationsStore::new();
    let agg = aggregation(AgentId::random());
    let p = participation(agg.id, AgentId::random());
    store.create_participation(p.clone());
    store.create_participation(p.clone());
    store.create_participation(participation(agg.id, AgentId::random()));
    store.create_participation(p);
    assert_eq!(2, store.count_participations(&agg.id));
}

#[test]
fn snapshot_job_ids_are_random_uuids_and_unknown_aggregations_are_answered() {
    let mut service = SdaServerService(SdaServer::new());
    let alice = new_agent();
    service.create_agent(&alice, alice).unwrap();
    let clerk = new_agent();
    service.create_agent(&clerk, clerk).unwrap();
    let agg = aggregation(alice.id);
    service.create_aggregation(&alice, agg.clone()).unwrap();
    service
        .create_committee(&alice, Committee { aggregation: agg.id, clerks_and_keys: vec![(clerk.id, EncryptionKeyId::random())] })
        .unwrap();
    let snapshot = Snapshot { id: SnapshotId::random(), aggregation: agg.id };
    service.create_snapshot(&alice, &snapshot).unwrap();
    let job = service.get_clerking_job(&clerk, &clerk.id).unwrap().unwrap();
    let text = job.id.to_string();
    assert_eq!(b'4', text.as_bytes()[14]);
    assert!(b"89ab".contains(&text.as_bytes()[19]));
    // an unknown aggregation is answered, whatever its leftovers
    let lost = Snapshot { id: SnapshotId::random(), aggregation: AggregationId::random() };
    assert_eq!(Err(SdaError::Msg("No aggregation found".to_string())), service.create_snapshot(&alice, &lost));
    assert_eq!(Err(sda::errors::SdaServerError::Msg("lost aggregation".to_string())), service.0.create_snapshot(&lost));
}

#[test]
fn deleting_what_is_not_recorded_fails() {
    let mut store = AggregationsStore::new();
    let agg = aggregation(AgentId::random());
    assert_eq!(
        Err(sda::errors::SdaServerError::Msg("No such file or directory (os error 2)".to_string())),
        store.delete_aggregation(&agg.id)
    );
    store.create_aggregation(agg.clone());
    assert_eq!(Ok(()), store.delete_aggregation(&agg.id));
    assert!(store.delete_aggregation(&agg.id).is_err());

    let mut server = SdaServer::new();
    assert!(server.delete_aggregation(&agg.id).is_err());
    let alice = new_agent();
    assert_eq!(
        Err(SdaError::Msg("error in server: No such file or directory (os error 2)".to_string())),
        server.delete_auth_token(&alice.id)
    );
    server.upsert_auth_token(AuthToken { id: alice.id, body: "pw".to_string() });
    assert_eq!(Ok(()), server.delete_auth_token(&alice.id));
    assert!(server.delete_auth_token(&alice.id).is_err());
}

#[test]
fn binary_reads_exactly_the_encodings() {
    let b = Binary(vec![1, 2, 3, 250]);
    assert_eq!(Ok(b.clone()), Binary::from_base64(&b.to_base64()));
    // not the canonical encoding of any bytes: refused
    assert!(Binary::from_base64("AQIDBB==").is_err());
    assert!(Binary::from_base64("AQID+g=").is_err());
}
