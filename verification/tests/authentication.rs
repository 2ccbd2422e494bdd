use microblog::authentication::Backend;
use microblog::authentication::session_valid;
use microblog::param::LoginCredentials;
use microblog::param::RegisterCredentials;
use microblog::routes::login_retry_url;
use microblog::routes::post_login_url;
use microblog::routes::register_retry_url;
use microblog::store::Store;
use microblog::store::StoreError;

fn register_creds(username: &str, email: &str, password: &str) -> RegisterCredentials {
    RegisterCredentials {
        email: email.to_string(),
        username: username.to_string(),
        password: password.to_string(),
        next: None,
    }
}

fn login_creds(username: &str, password: &str) -> LoginCredentials {
    LoginCredentials { username: username.to_string(), password: password.to_string(), next: None }
}

#[test]
fn register_then_login_succeeds() {
    let mut backend = Backend::new(Store::new());
    let creds = backend
        .register(&register_creds("alice", "a@x.com", "pw1"))
        .expect("fresh registration succeeds");
    assert_eq!(creds.username, "alice");
    assert_eq!(creds.password, "pw1");
    let user = backend.authenticate(&creds).expect("the registered credentials authenticate");
    assert_eq!(user.id, 1);
    assert_eq!(user.username, "alice");
    assert_eq!(user.email, "a@x.com");
    assert_ne!(user.password, "pw1", "the stored password is a hash, not the plaintext");
}

#[test]
fn wrong_password_is_rejected_without_error() {
    let mut backend = Backend::new(Store::new());
    backend.register(&register_creds("alice", "a@x.com", "pw1")).expect("registration succeeds");
    assert!(backend.authenticate(&login_creds("alice", "wrong")).is_none());
    assert!(backend.authenticate(&login_creds("alice", "")).is_none());
    assert!(backend.authenticate(&login_creds("alice", "pw1")).is_some());
}

#[test]
fn unknown_username_is_rejected() {
    let mut backend = Backend::new(Store::new());
    assert!(backend.authenticate(&login_creds("alice", "pw1")).is_none());
    backend.register(&register_creds("alice", "a@x.com", "pw1")).expect("registration succeeds");
    assert!(backend.authenticate(&login_creds("bob", "pw1")).is_none());
}

#[test]
fn duplicate_registration_conflicts() {
    let mut backend = Backend::new(Store::new());
    assert!(backend.register(&register_creds("alice", "a@x.com", "pw1")).is_some());
    // same username, different email
    assert!(backend.register(&register_creds("alice", "b@x.com", "pw2")).is_none());
    // different username, same email
    assert!(backend.register(&register_creds("bob", "a@x.com", "pw2")).is_none());
    // the losing attempts created nothing: the original account still logs in
    assert!(backend.authenticate(&login_creds("alice", "pw1")).is_some());
    assert!(backend.authenticate(&login_creds("alice", "pw2")).is_none());
    assert!(backend.authenticate(&login_creds("bob", "pw2")).is_none());
}

#[test]
fn store_surfaces_conflict_as_typed_error() {
    let mut store = Store::new();
    store.insert_user("alice", "a@x.com", "hash-one".to_string()).expect("first insert succeeds");
    let err = store
        .insert_user("alice", "b@x.com", "hash-two".to_string())
        .expect_err("the uniqueness violation is surfaced");
    assert_eq!(err, StoreError::Conflict);
}

#[test]
fn session_hash_is_bound_to_stored_hash() {
    let mut backend = Backend::new(Store::new());
    let creds = backend
        .register(&register_creds("alice", "a@x.com", "pw1"))
        .expect("registration succeeds");
    let user = backend.authenticate(&creds).expect("authentication succeeds");
    let hash = user.session_auth_hash().to_string();
    assert_eq!(hash, user.password, "the session is bound to the stored hash itself");
    assert!(session_valid(&user, &hash));
    assert!(!session_valid(&user, "some-stale-hash"), "a stale hash is rejected");
    // a different account stores a different hash, so its sessions differ
    let creds2 = backend
        .register(&register_creds("bob", "b@x.com", "pw1"))
        .expect("registration succeeds");
    let user2 = backend.authenticate(&creds2).expect("authentication succeeds");
    assert!(!session_valid(&user2, &hash), "another account's session hash is stale here");
}

#[test]
fn get_user_returns_display_projection() {
    let mut backend = Backend::new(Store::new());
    backend.register(&register_creds("alice", "a@x.com", "pw1")).expect("registration succeeds");
    let display = backend.get_user("alice").expect("the account exists");
    assert_eq!(display.id, 1);
    assert_eq!(display.username, "alice");
    assert_eq!(display.display_name, "");
    assert_eq!(display.bio, "");
    assert!(backend.get_user("bob").is_none());
}

#[test]
fn get_user_by_id_resolves_sessions() {
    let mut backend = Backend::new(Store::new());
    backend.register(&register_creds("alice", "a@x.com", "pw1")).expect("registration succeeds");
    backend.register(&register_creds("bob", "b@x.com", "pw2")).expect("registration succeeds");
    let alice = backend.get_user_by_id(1).expect("id 1 exists");
    assert_eq!(alice.username, "alice");
    let bob = backend.get_user_by_id(2).expect("id 2 exists");
    assert_eq!(bob.username, "bob");
    assert!(backend.get_user_by_id(3).is_none());
    assert!(backend.get_user_by_id(0).is_none());
    assert!(backend.get_user_by_id(-1).is_none());
}

#[test]
fn follow_errors_are_typed() {
    let mut store = Store::new();
    store.insert_user("alice", "a@x.com", "h1".to_string()).expect("insert succeeds");
    store.insert_user("bob", "b@x.com", "h2".to_string()).expect("insert succeeds");
    assert_eq!(store.insert_follow(1, 9), Err(StoreError::NotFound));
    assert_eq!(store.insert_follow(9, 1), Err(StoreError::NotFound));
    assert_eq!(store.insert_follow(1, 2), Ok(()));
    assert_eq!(store.insert_follow(1, 2), Err(StoreError::Conflict));
    assert!(store.has_follow(1, 2));
    assert!(!store.has_follow(2, 1));
}

#[test]
fn credentials_chain_from_registration() {
    let reg = RegisterCredentials {
        email: "a@x.com".to_string(),
        username: "alice".to_string(),
        password: "pw1".to_string(),
        next: Some("/somewhere".to_string()),
    };
    let login = LoginCredentials::from(&reg);
    assert_eq!(login.username, "alice");
    assert_eq!(login.password, "pw1");
    assert_eq!(login.next.as_deref(), Some("/somewhere"));
}

#[test]
fn flow_redirect_urls() {
    assert_eq!(login_retry_url(&None), "/login");
    assert_eq!(login_retry_url(&Some("/dash".to_string())), "/login?next=/dash");
    assert_eq!(register_retry_url(&None), "/register");
    assert_eq!(register_retry_url(&Some("/x".to_string())), "/register?next=/x");
    assert_eq!(post_login_url(&None), "/dash");
    assert_eq!(post_login_url(&Some("/profile".to_string())), "/profile");
}
