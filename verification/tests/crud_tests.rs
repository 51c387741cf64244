use sda::byte_arrays::{B32, B64};
use sda::crypto::{EncryptionKey, Signature, VerificationKey};
use sda::errors::SdaError;
use sda::helpers::{Labelled, Signed};
use sda::ids::{AgentId, EncryptionKeyId, VerificationKeyId};
use sda::resources::{Agent, AuthToken, Profile, SignedEncryptionKey};
use sda::server::SdaServer;
use sda::service::{SdaBaseService, SdaServerService};

fn tmp_server() -> SdaServerService {
    SdaServerService(SdaServer::new())
}

fn new_agent() -> Agent {
    Agent {
        id: AgentId::default(),
        verification_key: Labelled {
            id: VerificationKeyId::default(),
            body: VerificationKey::Sodium(B32::default()),
        },
    }
}

#[test]
pub fn crud_tests_ping() {
    let service = tmp_server();
    service.ping().unwrap();
}

#[test]
pub fn crud_tests_agent_crud() {
    let mut service = tmp_server();
    let alice = new_agent();

    service.create_agent(&alice, alice).unwrap();
    let clone = service.get_agent(&alice, &alice.id).unwrap();
    assert_eq!(Some(&alice), clone);

    let bob = service.get_agent(&alice, &AgentId::default()).unwrap();
    assert!(bob.is_none());
}

#[test]
pub fn crud_tests_profile_crud() {
    let mut service = tmp_server();
    let alice = new_agent();

    service.create_agent(&alice, alice).unwrap();
    let no_profile = service.get_profile(&alice, &alice.id).unwrap();
    assert!(no_profile.is_none());

    let alice_profile = Profile {
        owner: alice.id,
        name: Some("alice".into()),
        ..Profile::default()
    };
    service.upsert_profile(&alice, alice_profile.clone()).unwrap();

    let clone = service.get_profile(&alice, &alice.id).unwrap();
    assert_eq!(Some(&alice_profile), clone);

    let still_alice_profile = Profile {
        owner: alice.id,
        name: Some("still alice".into()),
        ..Profile::default()
    };
    service.upsert_profile(&alice, still_alice_profile.clone()).unwrap();

    let clone = service.get_profile(&alice, &alice.id).unwrap();
    assert_eq!(Some(&still_alice_profile), clone);
}

#[test]
pub fn profile_crud_acl() {
    let mut service = tmp_server();
    let alice = new_agent();
    let bob = new_agent();
    let alice_fake_profile = Profile {
        owner: alice.id,
        name: Some("bob".into()),
        ..Profile::default()
    };

    let denied = service.upsert_profile(&bob, alice_fake_profile);
    match denied {
        Err(SdaError::PermissionDenied) => {}
        e => panic!("unexpected result: {:?}", e),
    }
}

#[test]
pub fn crud_tests_encryption_key_crud() {
    let mut service = tmp_server();
    let alice = new_agent();
    let bob = new_agent();
    service.create_agent(&alice, alice).unwrap();

    let alice_key: SignedEncryptionKey = Signed {
        body: Labelled {
            id: EncryptionKeyId::default(),
            body: EncryptionKey::Sodium(B32::default()),
        },
        signer: alice.id,
        signature: Signature::Sodium(B64::default()),
    };

    service.create_encryption_key(&alice, alice_key.clone()).unwrap();
    let still_alice = service.get_encryption_key(&bob, &alice_key.body.id).unwrap();
    assert_eq!(Some(&alice_key), still_alice);
}

#[test]
pub fn crud_tests_auth_tokens_crud() {
    let mut service = tmp_server();
    let alice = new_agent();
    let alice_token = AuthToken {
        id: alice.id,
        body: "tok".into(),
    };
    assert_eq!(
        Err(SdaError::InvalidCredentials),
        service.0.check_auth_token(&alice_token)
    );
    service.create_agent(&alice, alice).unwrap();
    service.0.upsert_auth_token(alice_token.clone());
    assert!(service.0.check_auth_token(&alice_token).is_ok());
    let alice_token_new = AuthToken {
        id: alice.id,
        body: "token".into(),
    };
    assert!(service.0.check_auth_token(&alice_token_new).is_err());
    service.0.upsert_auth_token(alice_token_new.clone());
    assert!(service.0.check_auth_token(&alice_token_new).is_ok());
    assert!(service.0.check_auth_token(&alice_token).is_err());
    service.0.delete_auth_token(&alice.id).unwrap();
    assert!(service.0.check_auth_token(&alice_token_new).is_err());
    assert!(service.0.check_auth_token(&alice_token).is_err());
}

#[test]
fn agent_creation_refuses_a_different_agent_under_a_known_id() {
    let mut service = tmp_server();
    let alice = new_agent();
    service.create_agent(&alice, alice).unwrap();
    // the same agent again is accepted
    service.create_agent(&alice, alice).unwrap();
    let impostor = Agent {
        verification_key: Labelled {
            id: VerificationKeyId::default(),
            body: VerificationKey::Sodium(B32([1; 32])),
        },
        ..alice
    };
    match service.create_agent(&impostor, impostor) {
        Err(SdaError::Msg(msg)) => assert!(msg.starts_with("error in server: "), "{}", msg),
        e => panic!("unexpected result: {:?}", e),
    }
    assert_eq!(Some(&alice), service.get_agent(&alice, &alice.id).unwrap());
}

#[test]
fn agent_creation_is_for_the_agent_itself() {
    let mut service = tmp_server();
    let alice = new_agent();
    let bob = new_agent();
    assert_eq!(Err(SdaError::PermissionDenied), service.create_agent(&bob, alice));
    assert!(service.get_agent(&bob, &alice.id).unwrap().is_none());
}

#[test]
fn checking_a_token_of_an_unknown_agent() {
    let mut service = tmp_server();
    let ghost = new_agent();
    let token = AuthToken {
        id: ghost.id,
        body: "secret".into(),
    };
    service.0.upsert_auth_token(token.clone());
    match service.0.check_auth_token(&token) {
        Err(SdaError::Msg(msg)) => assert_eq!("Agent not found", msg),
        e => panic!("unexpected result: {:?}", e),
    }
}
