use sda::byte_arrays::B32;
use sda::crypto::VerificationKey;
use sda::errors::SdaError;
use sda::helpers::Labelled;
use sda::http::{auth_token, caller, error_status, register_agent, remove_scheme, trim, Registration};
use sda::ids::{AgentId, AggregationId, ClerkingJobId, EncryptionKeyId, SnapshotId, VerificationKeyId};
use sda::resources::{Agent, AuthToken};
use sda::routes::{route, text_eq, Route};
use sda::server::SdaServer;
use sda::service::SdaServerService;

fn new_agent() -> Agent {
    Agent {
        id: AgentId::default(),
        verification_key: Labelled {
            id: VerificationKeyId::default(),
            body: VerificationKey::Sodium(B32::default()),
        },
    }
}

fn basic(raw: &str) -> String {
    format!("Basic {}", data_encoding::base64::encode(raw.as_bytes()))
}

#[test]
fn test_auth_token() {
    let alice = Agent {
        id: AgentId::default(),
        verification_key: Labelled {
            id: VerificationKeyId::default(),
            body: VerificationKey::Sodium(B32::default()),
        },
    };
    let secret = "s0m3_s3cr3t_t0k3n";
    let authorization_raw = format!("{}:{}", alice.id.to_string(), secret);
    let header = format!("Basic {}", data_encoding::base64::encode(authorization_raw.as_bytes()));
    let req = rouille::Request::fake_http(
        "GET",
        "/",
        vec![("Authorization".into(), header)],
        vec![],
    );
    let auth_token = auth_token(req.header("Authorization")).unwrap();
    assert_eq!(
        AuthToken {
            id: alice.id,
            body: secret.to_string(),
        },
        auth_token
    );
}

fn message(res: Result<AuthToken, SdaError>) -> String {
    match res {
        Err(SdaError::Msg(m)) => m,
        other => panic!("unexpected result: {:?}", other),
    }
}

#[test]
fn auth_token_refusals() {
    assert_eq!("Mandatory Authorization header", message(auth_token(None)));
    assert_eq!("Basic Authorization required", message(auth_token(Some("Bearer abc"))));
    assert_eq!("Basic Authorization required", message(auth_token(Some("basic abc"))));
    let bad = message(auth_token(Some("Basic ***")));
    assert!(bad.starts_with("Invalid Auth header (base64: "), "{}", bad);
    assert!(bad.ends_with(")"), "{}", bad);
    let not_utf8 = format!("Basic {}", data_encoding::base64::encode(&[0xff, 0xfe, 0x3a]));
    assert_eq!("Invalid Auth header(not utf8)", message(auth_token(Some(&not_utf8))));
    assert_eq!("Invalid Auth header", message(auth_token(Some(&basic("no-colon-here")))));
    assert_eq!("unparseable uuid not-a-uuid", message(auth_token(Some(&basic("not-a-uuid:pw")))));
}

#[test]
fn auth_token_reading_details() {
    let id = AgentId::random();
    // white space around the header is ignored
    let padded = format!("  {}\t", basic(&format!("{}:pw", id.to_string())));
    assert_eq!(
        AuthToken { id, body: "pw".to_string() },
        auth_token(Some(&padded)).unwrap()
    );
    // the password stops at the next colon
    let extra = basic(&format!("{}:first:second", id.to_string()));
    assert_eq!(
        AuthToken { id, body: "first".to_string() },
        auth_token(Some(&extra)).unwrap()
    );
    // an empty password is a password
    let empty = basic(&format!("{}:", id.to_string()));
    assert_eq!(
        AuthToken { id, body: String::new() },
        auth_token(Some(&empty)).unwrap()
    );
}

#[test]
fn trimming_and_scheme_removal() {
    assert_eq!("a b", trim(" \t a b \n"));
    assert_eq!("", trim("   "));
    assert_eq!("abc", trim("abc"));
    assert_eq!("Basic QUJD", trim("Basic QUJD"));
    assert_eq!("x\u{200B}", trim("\u{3000}\u{85}x\u{200B}\u{2028}\u{A0}"));
    assert_eq!("xyz", remove_scheme("Basic xyz"));
    assert_eq!("xyzw", remove_scheme("Basic xyzBasic w"));
    assert_eq!("Basicxyz", remove_scheme("Basicxyz"));
    assert!(text_eq("same", "same"));
    assert!(!text_eq("same", "sane"));
    assert!(!text_eq("same", "sam"));
}

#[test]
fn error_statuses() {
    assert_eq!(401, error_status(&SdaError::InvalidCredentials));
    assert_eq!(403, error_status(&SdaError::PermissionDenied));
    assert_eq!(400, error_status(&SdaError::Invalid("x".into())));
    assert_eq!(500, error_status(&SdaError::Msg("x".into())));
}

#[test]
fn registration_then_authentication() {
    let mut service = SdaServerService(SdaServer::new());
    let alice = new_agent();
    let token = AuthToken { id: alice.id, body: "secret".to_string() };
    let header = basic(&format!("{}:secret", alice.id.to_string()));

    assert_eq!(Err(SdaError::InvalidCredentials), caller(&service.0, Some(&header)));
    assert_eq!(Ok(Registration::Registered), register_agent(&mut service, token.clone(), alice));
    assert_eq!(Ok(alice), caller(&service.0, Some(&header)));

    let wrong = basic(&format!("{}:guess", alice.id.to_string()));
    assert_eq!(Err(SdaError::InvalidCredentials), caller(&service.0, Some(&wrong)));
    assert_eq!(
        Err(SdaError::Msg("Mandatory Authorization header".to_string())),
        caller(&service.0, None)
    );

    let bob = new_agent();
    assert_eq!(Ok(Registration::InconsistentIds), register_agent(&mut service, token, bob));
    assert!(service.0.get_agent(&bob.id).is_none());
}

#[test]
fn routes_of_the_service() {
    let a = AgentId::random();
    let g = AggregationId::random();
    let s = SnapshotId::random();
    let j = ClerkingJobId::random();
    let k = EncryptionKeyId::random();
    assert_eq!(Some(Route::Ping), route("GET", "/v1/ping"));
    assert_eq!(Some(Route::Ping), route("GET", "/v1/ping?x=1"));
    assert_eq!(None, route("POST", "/v1/ping"));
    assert_eq!(None, route("GET", "/v1/ping/"));
    assert_eq!(None, route("GET", "v1/ping"));
    assert_eq!(Some(Route::GetAgent(a)), route("GET", &format!("/v1/agents/{}", a.to_string())));
    assert_eq!(Some(Route::CreateAgent), route("POST", "/v1/agents/me"));
    assert_eq!(None, route("GET", "/v1/agents/me"));
    assert_eq!(
        Some(Route::GetProfile(a)),
        route("GET", &format!("/v1/agents/{}/profile", a.to_string()))
    );
    assert_eq!(Some(Route::UpsertProfile), route("POST", "/v1/agents/me/profile"));
    assert_eq!(
        Some(Route::GetEncryptionKey(k)),
        route("GET", &format!("/v1/agents/any/keys/{}", k.to_string()))
    );
    assert_eq!(Some(Route::CreateEncryptionKey), route("POST", "/v1/agents/me/keys"));
    assert_eq!(Some(Route::CreateAggregation), route("POST", "/v1/aggregations"));
    assert_eq!(Some(Route::ListAggregations), route("GET", "/v1/aggregations?title=foo"));
    assert_eq!(
        Some(Route::GetAggregation(g)),
        route("GET", &format!("/v1/aggregations/{}", g.to_string()))
    );
    assert_eq!(
        Some(Route::DeleteAggregation(g)),
        route("DELETE", &format!("/v1/aggregations/{}", g.to_string()))
    );
    assert_eq!(
        Some(Route::SuggestCommittee(g)),
        route("GET", &format!("/v1/aggregations/{}/committee/suggestions", g.to_string()))
    );
    assert_eq!(Some(Route::CreateCommittee), route("POST", "/v1/aggregations/implied/committee"));
    assert_eq!(
        Some(Route::GetCommittee(g)),
        route("GET", &format!("/v1/aggregations/{}/committee", g.to_string()))
    );
    assert_eq!(Some(Route::CreateParticipation), route("POST", "/v1/aggregations/participations"));
    assert_eq!(
        Some(Route::GetAggregationStatus(g)),
        route("GET", &format!("/v1/aggregations/{}/status", g.to_string()))
    );
    assert_eq!(Some(Route::CreateSnapshot), route("POST", "/v1/aggregations/implied/snapshot"));
    assert_eq!(Some(Route::GetClerkingJob), route("GET", "/v1/aggregations/any/jobs"));
    assert_eq!(
        Some(Route::CreateClerkingResult(j)),
        route("POST", &format!("/v1/aggregations/implied/jobs/{}/result", j.to_string()))
    );
    assert_eq!(
        Some(Route::GetSnapshotResult(g, s)),
        route(
            "GET",
            &format!("/v1/aggregations/{}/snapshots/{}/result", g.to_string(), s.to_string())
        )
    );
    assert_eq!(None, route("GET", "/v1/aggregations/not-an-id"));
    assert_eq!(None, route("GET", "/v2/ping"));
}

#[test]
fn route_identifiers_are_percent_decoded_where_typed() {
    let a = AgentId::random();
    let text = a.to_string();
    // an encoded first digit: the typed agent segment is decoded first
    let encoded = format!("%{:02X}{}", text.as_bytes()[0], &text[1..]);
    assert_eq!(Some(Route::GetAgent(a)), route("GET", &format!("/v1/agents/{}", encoded)));
    // the untyped job segment is not
    assert_eq!(
        None,
        route("POST", &format!("/v1/aggregations/implied/jobs/{}/result", encoded))
    );
}
