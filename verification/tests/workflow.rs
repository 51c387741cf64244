use sda::byte_arrays::{B32, B64};
use sda::crypto::{
    AdditiveEncryptionScheme, Encryption, EncryptionKey, LinearMaskingScheme,
    LinearSecretSharingScheme, Signature, VerificationKey,
};
use sda::errors::SdaError;
use sda::helpers::{Labelled, Signed};
use sda::ids::{AgentId, AggregationId, ClerkingJobId, EncryptionKeyId, ParticipationId, SnapshotId, VerificationKeyId};
use sda::resources::{
    Agent, Aggregation, ClerkingResult, Committee, Participation, SignedEncryptionKey, Snapshot,
};
use sda::server::SdaServer;
use sda::service::SdaServerService;

fn new_agent() -> Agent {
    Agent {
        id: AgentId::default(),
        verification_key: Labelled {
            id: VerificationKeyId::default(),
            body: VerificationKey::Sodium(B32::default()),
        },
    }
}

fn new_full_agent(service: &mut SdaServerService) -> (Agent, SignedEncryptionKey) {
    let ag = new_agent();
    service.create_agent(&ag, ag).unwrap();
    let key: SignedEncryptionKey = Signed {
        body: Labelled {
            id: EncryptionKeyId::default(),
            body: EncryptionKey::Sodium(B32::default()),
        },
        signer: ag.id,
        signature: Signature::Sodium(B64::default()),
    };
    service.create_encryption_key(&ag, key.clone()).unwrap();
    (ag, key)
}

fn aggregation(recipient: &Agent, key: &SignedEncryptionKey, masking: LinearMaskingScheme) -> Aggregation {
    Aggregation {
        id: AggregationId::random(),
        title: "bar".into(),
        vector_dimension: 2,
        modulus: 13,
        recipient: recipient.id,
        recipient_key: key.body.id,
        masking_scheme: masking,
        committee_sharing_scheme: LinearSecretSharingScheme::Additive { share_count: 2, modulus: 13 },
        recipient_encryption_scheme: AdditiveEncryptionScheme::Sodium,
        committee_encryption_scheme: AdditiveEncryptionScheme::Sodium,
    }
}

/// A service with a recipient, two clerks forming the committee of an
/// aggregation, and three participants.
fn setup(masking: LinearMaskingScheme, with_mask: bool) -> (SdaServerService, Agent, Vec<Agent>, Aggregation) {
    let mut service = SdaServerService(SdaServer::new());
    let (recipient, key) = new_full_agent(&mut service);
    let clerks: Vec<Agent> = (0..2).map(|_| new_full_agent(&mut service).0).collect();
    let agg = aggregation(&recipient, &key, masking);
    service.create_aggregation(&recipient, agg.clone()).unwrap();
    let committee = Committee {
        aggregation: agg.id,
        clerks_and_keys: clerks.iter().map(|c| (c.id, EncryptionKeyId::random())).collect(),
    };
    service.create_committee(&recipient, committee).unwrap();
    for p in 0..3u8 {
        let (participant, _) = new_full_agent(&mut service);
        let participation = Participation {
            id: ParticipationId::random(),
            participant: participant.id,
            aggregation: agg.id,
            recipient_encryption: if with_mask { Some(Encryption::Sodium(vec![100 + p])) } else { None },
            clerk_encryptions: clerks
                .iter()
                .enumerate()
                .map(|(ci, c)| (c.id, Encryption::Sodium(vec![ci as u8, p])))
                .collect(),
        };
        service.create_participation(&participant, participation).unwrap();
    }
    (service, recipient, clerks, agg)
}

#[test]
fn clerking_is_for_the_clerk_and_results_for_the_recipient() {
    let (mut service, recipient, clerks, agg) = setup(LinearMaskingScheme::NoMask, false);
    let snapshot = Snapshot { id: SnapshotId::random(), aggregation: agg.id };
    service.create_snapshot(&recipient, &snapshot).unwrap();

    // someone else may not pull a clerk's job
    assert_eq!(Err(SdaError::PermissionDenied), service.get_clerking_job(&clerks[1], &clerks[0].id));
    let job = service.get_clerking_job(&clerks[0], &clerks[0].id).unwrap().unwrap().clone();
    // the first clerk's share of each participation, in participation id order
    let mut seen: Vec<Vec<u8>> = job
        .encryptions
        .iter()
        .map(|e| {
            let Encryption::Sodium(data) = e;
            data.clone()
        })
        .collect();
    seen.sort();
    assert_eq!(vec![vec![0, 0], vec![0, 1], vec![0, 2]], seen);

    // nothing to fetch before enough clerks answered
    assert_eq!(Ok(None), service.get_snapshot_result(&recipient, &agg.id, &snapshot.id));
    assert_eq!(
        Err(SdaError::PermissionDenied),
        service.get_snapshot_result(&clerks[0], &agg.id, &snapshot.id)
    );

    let result = ClerkingResult { job: job.id, clerk: clerks[0].id, encryption: Encryption::Sodium(vec![7]) };
    // only the clerk may file its result
    assert_eq!(Err(SdaError::PermissionDenied), service.create_clerking_result(&clerks[1], result.clone()));
    service.create_clerking_result(&clerks[0], result.clone()).unwrap();
    // a result is filed once
    assert_eq!(
        Err(SdaError::Msg("error in server: Job not found".to_string())),
        service.create_clerking_result(&clerks[0], result.clone())
    );
    // a job that was never queued
    let unknown = ClerkingResult { job: ClerkingJobId::random(), ..result.clone() };
    assert_eq!(
        Err(SdaError::Msg("error in server: Job not found".to_string())),
        service.create_clerking_result(&clerks[0], unknown)
    );

    let status = service.get_aggregation_status(&recipient, &agg.id).unwrap().unwrap();
    assert_eq!(1, status.snapshots[0].number_of_clerking_results);
    assert!(!status.snapshots[0].result_ready);

    let job1 = service.get_clerking_job(&clerks[1], &clerks[1].id).unwrap().unwrap().clone();
    service
        .create_clerking_result(
            &clerks[1],
            ClerkingResult { job: job1.id, clerk: clerks[1].id, encryption: Encryption::Sodium(vec![8]) },
        )
        .unwrap();
    let status = service.get_aggregation_status(&recipient, &agg.id).unwrap().unwrap();
    assert!(status.snapshots[0].result_ready);

    let result = service.get_snapshot_result(&recipient, &agg.id, &snapshot.id).unwrap().unwrap();
    assert_eq!(snapshot.id, result.snapshot);
    assert_eq!(3, result.number_of_participations);
    assert_eq!(2, result.clerk_encryptions.len());
    assert_eq!(None, result.recipient_encryptions);
}

#[test]
fn masked_snapshot_records_recipient_encryptions() {
    let (mut service, recipient, clerks, agg) = setup(LinearMaskingScheme::Full { modulus: 13 }, true);
    let snapshot = Snapshot { id: SnapshotId::random(), aggregation: agg.id };
    service.create_snapshot(&recipient, &snapshot).unwrap();
    for c in clerks.iter() {
        let job = service.get_clerking_job(c, &c.id).unwrap().unwrap().clone();
        service
            .create_clerking_result(c, ClerkingResult { job: job.id, clerk: c.id, encryption: Encryption::Sodium(vec![1]) })
            .unwrap();
    }
    let result = service.get_snapshot_result(&recipient, &agg.id, &snapshot.id).unwrap().unwrap();
    let mut masks = result.recipient_encryptions.unwrap();
    masks.sort_by(|a, b| {
        let (Encryption::Sodium(x), Encryption::Sodium(y)) = (a, b);
        x.cmp(y)
    });
    assert_eq!(
        vec![
            Encryption::Sodium(vec![100]),
            Encryption::Sodium(vec![101]),
            Encryption::Sodium(vec![102])
        ],
        masks
    );
}

#[test]
fn masked_snapshot_needs_recipient_encryptions() {
    let (mut service, recipient, _clerks, agg) = setup(LinearMaskingScheme::Full { modulus: 13 }, false);
    let snapshot = Snapshot { id: SnapshotId::random(), aggregation: agg.id };
    assert_eq!(
        Err(SdaError::Msg(
            "error in server: participation should have had a recipient encryption".to_string()
        )),
        service.create_snapshot(&recipient, &snapshot)
    );
}

#[test]
fn snapshot_needs_a_committee_and_the_recipient() {
    let mut service = SdaServerService(SdaServer::new());
    let (recipient, key) = new_full_agent(&mut service);
    let agg = aggregation(&recipient, &key, LinearMaskingScheme::NoMask);
    service.create_aggregation(&recipient, agg.clone()).unwrap();
    let snapshot = Snapshot { id: SnapshotId::random(), aggregation: agg.id };
    let (other, _) = new_full_agent(&mut service);
    assert_eq!(Err(SdaError::PermissionDenied), service.create_snapshot(&other, &snapshot));
    assert_eq!(
        Err(SdaError::Msg("error in server: lost committee".to_string())),
        service.create_snapshot(&recipient, &snapshot)
    );
    let missing = Snapshot { id: SnapshotId::random(), aggregation: AggregationId::random() };
    assert_eq!(
        Err(SdaError::Msg("No aggregation found".to_string())),
        service.create_snapshot(&recipient, &missing)
    );
}

#[test]
fn recipient_only_operations() {
    let (mut service, recipient, clerks, agg) = setup(LinearMaskingScheme::NoMask, false);
    assert_eq!(Err(SdaError::PermissionDenied), service.suggest_committee(&clerks[0], &agg.id));
    assert_eq!(Err(SdaError::PermissionDenied), service.get_aggregation_status(&clerks[0], &agg.id).map(|_| ()));
    assert_eq!(Err(SdaError::PermissionDenied), service.delete_aggregation(&clerks[0], &agg.id));
    let other = AggregationId::random();
    assert_eq!(
        Err(SdaError::Msg("No aggregation found".to_string())),
        service.delete_aggregation(&recipient, &other)
    );
    let status = service.get_aggregation_status(&recipient, &agg.id).unwrap().unwrap();
    assert_eq!(3, status.number_of_participations);
    service.delete_aggregation(&recipient, &agg.id).unwrap();
    assert!(service.get_aggregation(&recipient, &agg.id).unwrap().is_none());
}
