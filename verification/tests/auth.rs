use sda::ids::AgentId;
use sda::resources::AuthToken;
use sda::stores::AuthStore;
use sda::table::Table;

const FOO: u128 = 0xf00;

fn token() -> AuthToken {
    AuthToken {
        id: AgentId::random(),
        body: "token".to_string(),
    }
}

#[test]
fn auth_delete() {
    let token = token();
    let mut store = AuthStore::new();
    store.upsert_auth_token(token.clone());
    store.get_auth_token(&token.id).unwrap();
    store.delete_auth_token(&token.id).unwrap();
    assert!(store.get_auth_token(&token.id).is_none());
}

#[test]
fn auth_delete_raw() {
    let token = token();
    let mut store: Table<AuthToken> = Table::new();
    store.upsert(FOO, token.clone());
    store.get(FOO).unwrap();
    store.remove(FOO).unwrap();
    assert!(store.get(FOO).is_none());
}

#[test]
fn auth_tokens_delete() {
    let token = token();
    let mut store = AuthStore::new();
    store.upsert_auth_token(token.clone());
    assert_eq!(Some(&token), store.get_auth_token(&token.id));
    store.delete_auth_token(&token.id).unwrap();
    assert_eq!(None, store.get_auth_token(&token.id));
}

#[test]
fn auth_tokens_delete_raw() {
    let token = token();
    let mut store: Table<AuthToken> = Table::new();
    store.upsert(FOO, token.clone());
    assert_eq!(Some(&token), store.get(FOO));
    assert_eq!(Some(token), store.remove(FOO));
    assert!(store.get(FOO).is_none());
}

#[test]
fn tokens_of_other_agents_stay() {
    let a = token();
    let b = AuthToken {
        id: AgentId::random(),
        body: "other".to_string(),
    };
    let mut store = AuthStore::new();
    store.upsert_auth_token(a.clone());
    store.upsert_auth_token(b.clone());
    store.delete_auth_token(&a.id).unwrap();
    assert_eq!(Some(&b), store.get_auth_token(&b.id));
    let replaced = AuthToken {
        id: b.id,
        body: "again".to_string(),
    };
    store.upsert_auth_token(replaced.clone());
    assert_eq!(Some(&replaced), store.get_auth_token(&b.id));
}
