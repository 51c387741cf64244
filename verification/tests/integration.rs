use sda::byte_arrays::{B32, B64};
use sda::crypto::{
    AdditiveEncryptionScheme, Encryption, EncryptionKey, LinearMaskingScheme,
    LinearSecretSharingScheme, Signature, VerificationKey,
};
use sda::errors::SdaError;
use sda::helpers::{Labelled, Signed};
use sda::ids::{AgentId, AggregationId, EncryptionKeyId, ParticipationId, SnapshotId, VerificationKeyId};
use sda::resources::{
    Agent, Aggregation, AuthToken, ClerkingResult, Committee, Participation, Profile,
    SignedEncryptionKey, Snapshot, SnapshotStatus,
};
use sda::server::SdaServer;
use sda::service::{SdaBaseService, SdaServerService};

fn with_service<F: Fn(&mut SdaServerService)>(f: F) {
    let mut service = SdaServerService(SdaServer::new());
    f(&mut service)
}

fn new_agent() -> Agent {
    Agent {
        id: AgentId::default(),
        verification_key: Labelled {
            id: VerificationKeyId::default(),
            body: VerificationKey::Sodium(B32::default()),
        },
    }
}

fn new_key_for_agent(alice: &Agent) -> SignedEncryptionKey {
    Signed {
        body: Labelled {
            id: EncryptionKeyId::default(),
            body: EncryptionKey::Sodium(B32::default()),
        },
        signer: alice.id,
        signature: Signature::Sodium(B64::default()),
    }
}

fn new_full_agent(service: &mut SdaServerService) -> (Agent, SignedEncryptionKey) {
    let ag = new_agent();
    service.create_agent(&ag, ag).unwrap();
    let key = new_key_for_agent(&ag);
    service.create_encryption_key(&ag, key.clone()).unwrap();
    (ag, key)
}

fn small_aggregation(recipient: &AgentId, recipient_key: &EncryptionKeyId) -> Aggregation {
    Aggregation {
        id: AggregationId::default(),
        title: "foo".into(),
        vector_dimension: 4,
        modulus: 13,
        recipient: *recipient,
        recipient_key: *recipient_key,
        masking_scheme: LinearMaskingScheme::NoMask,
        committee_sharing_scheme: LinearSecretSharingScheme::Additive {
            share_count: 3,
            modulus: 13,
        },
        recipient_encryption_scheme: AdditiveEncryptionScheme::Sodium,
        committee_encryption_scheme: AdditiveEncryptionScheme::Sodium,
    }
}

#[test]
pub fn crud_ping() {
    with_service(|ctx| {
        ctx.ping().unwrap();
        ctx.ping().unwrap();
        ctx.ping().unwrap();
    });
}

#[test]
pub fn crud_agent_crud() {
    with_service(|ctx| {
        let alice = new_agent();
        ctx.create_agent(&alice, alice).unwrap();
        let clone = ctx.get_agent(&alice, &alice.id).unwrap();
        assert_eq!(Some(&alice), clone);

        let bob = ctx.get_agent(&alice, &AgentId::default()).unwrap();
        assert!(bob.is_none());
    });
}

#[test]
pub fn crud_profile_crud() {
    with_service(|ctx| {
        let alice = new_agent();

        ctx.create_agent(&alice, alice).unwrap();
        let no_profile = ctx.get_profile(&alice, &alice.id).unwrap();
        assert!(no_profile.is_none());

        let alice_profile = Profile {
            owner: alice.id,
            name: Some("alice".into()),
            ..Profile::default()
        };
        ctx.upsert_profile(&alice, alice_profile.clone()).unwrap();

        let clone = ctx.get_profile(&alice, &alice.id).unwrap();
        assert_eq!(Some(&alice_profile), clone);

        let still_alice_profile = Profile {
            owner: alice.id,
            name: Some("still alice".into()),
            ..Profile::default()
        };
        ctx.upsert_profile(&alice, still_alice_profile.clone()).unwrap();

        let clone = ctx.get_profile(&alice, &alice.id).unwrap();
        assert_eq!(Some(&still_alice_profile), clone);
    });
}

#[test]
pub fn profile_acl() {
    with_service(|ctx| {
        let alice = new_agent();
        let bob = new_agent();
        ctx.create_agent(&bob, bob).unwrap();

        let alice_fake_profile = Profile {
            owner: alice.id,
            name: Some("bob".into()),
            ..Profile::default()
        };

        let denied = ctx.upsert_profile(&bob, alice_fake_profile);
        match denied {
            Err(SdaError::PermissionDenied) => {}
            e => panic!("unexpected result: {:?}", e),
        }
    });
}

#[test]
pub fn crud_encryption_key_crud() {
    with_service(|ctx| {
        let alice = new_agent();
        let bob = new_agent();
        ctx.create_agent(&alice, alice).unwrap();
        ctx.create_agent(&bob, bob).unwrap();

        let alice_key: SignedEncryptionKey = Signed {
            body: Labelled {
                id: EncryptionKeyId::default(),
                body: EncryptionKey::Sodium(B32::default()),
            },
            signer: alice.id,
            signature: Signature::Sodium(B64::default()),
        };
        ctx.create_encryption_key(&alice, alice_key.clone()).unwrap();
        let still_alice = ctx.get_encryption_key(&bob, &alice_key.body.id).unwrap();
        assert_eq!(Some(&alice_key), still_alice);
    });
}

#[test]
pub fn crud_auth_tokens_crud() {
    with_service(|ctx| {
        let alice = new_agent();
        let alice_token = AuthToken {
            id: alice.id,
            body: "tok".into(),
        };
        assert!(ctx.0.check_auth_token(&alice_token).is_err());
        ctx.0.create_agent(alice).unwrap();
        ctx.0.upsert_auth_token(alice_token.clone());
        assert!(ctx.0.check_auth_token(&alice_token).is_ok());
        let alice_token_new = AuthToken {
            id: alice.id,
            body: "token".into(),
        };
        assert!(ctx.0.check_auth_token(&alice_token_new).is_err());
        ctx.0.upsert_auth_token(alice_token_new.clone());
        assert!(ctx.0.check_auth_token(&alice_token_new).is_ok());
        assert!(ctx.0.check_auth_token(&alice_token).is_err());
        ctx.0.delete_auth_token(&alice.id).unwrap();
        assert!(ctx.0.check_auth_token(&alice_token_new).is_err());
        assert!(ctx.0.check_auth_token(&alice_token).is_err());
    });
}

#[test]
pub fn aggregation_crud() {
    with_service(|ctx| {
        let alice = new_agent();
        ctx.create_agent(&alice, alice).unwrap();
        let alice_key = new_key_for_agent(&alice);
        assert_eq!(0, ctx.list_aggregations(&alice, None, None).unwrap().len());
        let agg = Aggregation {
            id: AggregationId::default(),
            title: "foo".into(),
            vector_dimension: 4,
            modulus: 13,
            recipient: alice.id,
            recipient_key: alice_key.body.id,
            masking_scheme: LinearMaskingScheme::NoMask,
            committee_sharing_scheme: LinearSecretSharingScheme::Additive {
                share_count: 3,
                modulus: 13,
            },
            recipient_encryption_scheme: AdditiveEncryptionScheme::Sodium,
            committee_encryption_scheme: AdditiveEncryptionScheme::Sodium,
        };
        ctx.create_aggregation(&alice, agg.clone()).unwrap();
        assert_eq!(0, ctx.list_aggregations(&alice, Some("bar"), None).unwrap().len());
        assert_eq!(1, ctx.list_aggregations(&alice, Some("foo"), None).unwrap().len());
        assert_eq!(1, ctx.list_aggregations(&alice, Some("oo"), None).unwrap().len());

        assert_eq!(
            0,
            ctx.list_aggregations(&alice, None, Some(&new_agent().id)).unwrap().len()
        );
        assert_eq!(1, ctx.list_aggregations(&alice, None, Some(&alice.id)).unwrap().len());

        let agg2 = ctx.get_aggregation(&alice, &agg.id).unwrap();
        assert_eq!(Some(&agg), agg2);

        ctx.delete_aggregation(&alice, &agg.id).unwrap();
        assert!(ctx.get_aggregation(&alice, &agg.id).unwrap().is_none());
    });
}

#[test]
pub fn committee() {
    with_service(|ctx| {
        let agents: Vec<(Agent, SignedEncryptionKey)> = (0..10).map(|_| new_full_agent(ctx)).collect();
        let (alice, alice_key) = new_full_agent(ctx);
        let agg = small_aggregation(&alice.id, &alice_key.body.id);
        ctx.create_aggregation(&alice, agg.clone()).unwrap();
        let candidates = ctx.suggest_committee(&alice, &agg.id).unwrap();
        assert_eq!(agents.len() + 1, candidates.len());

        let clerks = &candidates[0..agg.committee_sharing_scheme.output_size()];

        let committee = Committee {
            aggregation: agg.id,
            clerks_and_keys: clerks.iter().map(|cc| (cc.id, cc.keys[0])).collect(),
        };
        ctx.create_committee(&alice, committee.clone()).unwrap();
        let committee_again = ctx.get_committee(&alice, &agg.id).unwrap();
        assert_eq!(Some(&committee), committee_again);
    });
}

#[test]
pub fn full_mocked_loop() {
    with_service(|ctx| {
        let agents: Vec<(Agent, SignedEncryptionKey)> = (0..20).map(|_| new_full_agent(ctx)).collect();
        let (ref alice, ref alice_key) = agents[0];
        let agg = small_aggregation(&alice.id, &alice_key.body.id);
        ctx.create_aggregation(&alice, agg.clone()).unwrap();
        let candidates = ctx.suggest_committee(&alice, &agg.id).unwrap();
        assert_eq!(agents.len(), candidates.len());

        let clerks = &candidates[0..agg.committee_sharing_scheme.output_size()];

        let committee = Committee {
            aggregation: agg.id,
            clerks_and_keys: clerks.iter().map(|cc| (cc.id, cc.keys[0])).collect(),
        };
        ctx.create_committee(&alice, committee.clone()).unwrap();
        let committee_again = ctx.get_committee(&alice, &agg.id).unwrap();
        assert_eq!(Some(&committee), committee_again);

        let participants: Vec<(Agent, SignedEncryptionKey)> = (0..100).map(|_| new_full_agent(ctx)).collect();
        for (pi, p) in participants.iter().enumerate() {
            let participation = Participation {
                id: ParticipationId::random(),
                participant: p.0.id,
                aggregation: agg.id,
                recipient_encryption: None,
                clerk_encryptions: clerks
                    .iter()
                    .enumerate()
                    .map(|(ci, c)| (c.id, Encryption::Sodium(vec![ci as u8, pi as u8])))
                    .collect(),
            };
            ctx.create_participation(&p.0, participation).unwrap();
        }

        let status = ctx.get_aggregation_status(&alice, &agg.id).unwrap().unwrap();
        assert_eq!(agg.id, status.aggregation);
        assert_eq!(participants.len(), status.number_of_participations);
        assert_eq!(0, status.snapshots.len());
        let snapshot = Snapshot {
            id: SnapshotId::random(),
            aggregation: agg.id,
        };
        assert!(ctx.0.fits_committee(&snapshot));
        ctx.create_snapshot(&alice, &snapshot).unwrap();

        let status = ctx.get_aggregation_status(&alice, &agg.id).unwrap().unwrap();
        assert_eq!(agg.id, status.aggregation);
        assert_eq!(participants.len(), status.number_of_participations);
        assert_eq!(1, status.snapshots.len());
        assert_eq!(
            vec![SnapshotStatus {
                id: snapshot.id,
                number_of_clerking_results: 0,
                result_ready: false,
            }],
            status.snapshots
        );

        for (ci, c) in clerks.iter().enumerate() {
            let agent = agents.iter().find(|a| a.0.id == c.id).unwrap();
            let job = ctx.get_clerking_job(&agent.0, &c.id).unwrap().unwrap().clone();
            assert_eq!(snapshot.id, job.snapshot);
            for enc in job.encryptions.iter() {
                let &Encryption::Sodium(ref data) = enc;
                assert_eq!(ci as u8, data[0]);
            }

            ctx.create_clerking_result(
                &agent.0,
                ClerkingResult {
                    job: job.id,
                    clerk: c.id,
                    encryption: Encryption::Sodium(vec![ci as u8]),
                },
            )
            .unwrap();
        }

        let status = ctx.get_aggregation_status(&alice, &agg.id).unwrap().unwrap();
        assert_eq!(agg.id, status.aggregation);
        assert_eq!(participants.len(), status.number_of_participations);
        assert_eq!(1, status.snapshots.len());
        assert_eq!(
            vec![SnapshotStatus {
                id: snapshot.id,
                number_of_clerking_results: clerks.len(),
                result_ready: true,
            }],
            status.snapshots
        );

        for c in clerks.iter() {
            let agent = agents.iter().find(|a| a.0.id == c.id).unwrap();
            let job = ctx.get_clerking_job(&agent.0, &c.id).unwrap();
            assert!(job.is_none());
        }

        let final_result = ctx.get_snapshot_result(&alice, &agg.id, &snapshot.id).unwrap().unwrap();
        assert_eq!(3, final_result.clerk_encryptions.len());
        for (ci, c) in clerks.iter().enumerate() {
            let agent = agents.iter().find(|a| a.0.id == c.id).unwrap();
            let Encryption::Sodium(ref enc) = final_result
                .clerk_encryptions
                .iter()
                .find(|enc| enc.clerk == agent.0.id)
                .unwrap()
                .encryption;
            assert_eq!(enc, &vec![ci as u8]);
        }
    });
}
