use violetear::auth::{login, logout, register, resolve, Login, Register};
use violetear::db::Database;
use violetear::error::ApiError;
use violetear::models::{Token, User};

const NOW: i64 = 1_700_000_000;

fn store() -> Database {
    Database::with_hash_cost(4)
}

fn fresh_token(db: &Database) -> String {
    format!("{:032x}", db.next_id)
}

fn signup(db: &mut Database, request: &Register) -> Result<String, ApiError> {
    let t = fresh_token(db);
    register(db, request, &t, NOW)
}

fn signin(db: &mut Database, request: &Login) -> Result<String, ApiError> {
    let t = fresh_token(db);
    login(db, request, &t, NOW)
}

fn reg(name: &str, password: &str) -> Register {
    Register { username: name.to_string(), password: password.to_string() }
}

fn creds(name: &str, password: &str) -> Login {
    Login { username: name.to_string(), password: password.to_string() }
}

#[test]
fn register_then_resolve_gives_the_user() {
    let mut db = store();
    let token = signup(&mut db, &reg("alice", "s3cret")).unwrap();
    let user = resolve(&db, Some(token.as_str())).unwrap();
    assert_eq!(user.username, "alice");
    assert_eq!(user.rank, 0);
    assert_ne!(user.hashed_password, "s3cret");
}

#[test]
fn register_issues_lowercase_hex_token() {
    let mut db = store();
    let token = signup(&mut db, &reg("alice", "pw")).unwrap();
    assert_eq!(token.len(), 32);
    assert!(token.chars().all(|c| c.is_ascii_digit() || ('a'..='f').contains(&c)));
}

#[test]
fn register_duplicate_username_conflicts_without_new_rows() {
    let mut db = store();
    signup(&mut db, &reg("alice", "one")).unwrap();
    let users = db.users.len();
    let tokens = db.tokens.len();
    assert_eq!(signup(&mut db, &reg("alice", "two")), Err(ApiError::Conflict));
    assert_eq!(db.users.len(), users);
    assert_eq!(db.tokens.len(), tokens);
}

#[test]
fn login_with_correct_password_gives_usable_token() {
    let mut db = store();
    let first = signup(&mut db, &reg("bob", "hunter2")).unwrap();
    let second = signin(&mut db, &creds("bob", "hunter2")).unwrap();
    assert_ne!(first, second);
    assert_eq!(resolve(&db, Some(second.as_str())).unwrap().username, "bob");
    assert_eq!(resolve(&db, Some(first.as_str())).unwrap().username, "bob");
}

#[test]
fn login_failures_look_the_same() {
    let mut db = store();
    signup(&mut db, &reg("bob", "hunter2")).unwrap();
    let tokens = db.tokens.len();
    let wrong = signin(&mut db, &creds("bob", "hunter3"));
    let unknown = signin(&mut db, &creds("carol", "hunter2"));
    assert_eq!(wrong, Err(ApiError::Unauthorized));
    assert_eq!(wrong, unknown);
    assert_eq!(db.tokens.len(), tokens);
}

#[test]
fn logout_revokes_only_that_token() {
    let mut db = store();
    let a = signup(&mut db, &reg("dave", "pw")).unwrap();
    let b = signin(&mut db, &creds("dave", "pw")).unwrap();
    assert_eq!(logout(&mut db, Some(a.as_str())), Ok(()));
    assert_eq!(resolve(&db, Some(a.as_str())).err(), Some(ApiError::Unauthenticated));
    assert_eq!(resolve(&db, Some(b.as_str())).unwrap().username, "dave");
    assert_eq!(db.users.len(), 1);
}

#[test]
fn logout_without_or_with_unknown_token_is_unauthorized() {
    let mut db = store();
    signup(&mut db, &reg("erin", "pw")).unwrap();
    assert_eq!(logout(&mut db, None), Err(ApiError::Unauthorized));
    assert_eq!(
        logout(&mut db, Some("0123456789abcdef0123456789abcdef")),
        Err(ApiError::Unauthorized)
    );
    assert_eq!(db.tokens.len(), 1);
}

#[test]
fn resolve_rejects_missing_malformed_and_unknown_tokens() {
    let mut db = store();
    let token = signup(&mut db, &reg("frank", "pw")).unwrap();
    assert_eq!(resolve(&db, None).err(), Some(ApiError::Unauthenticated));
    assert_eq!(resolve(&db, Some("not a token")).err(), Some(ApiError::Unauthenticated));
    let upper = token.to_uppercase();
    if upper != token {
        assert_eq!(resolve(&db, Some(upper.as_str())).err(), Some(ApiError::Unauthenticated));
    }
    assert_eq!(
        resolve(&db, Some("ffffffffffffffffffffffffffffffff")).err(),
        Some(ApiError::Unauthenticated)
    );
}

#[test]
fn user_create_and_lookup() {
    let mut db = store();
    let id = User::create(&mut db, "gina", "pw", 3).unwrap();
    let user = User::by_username(&db, "gina").unwrap();
    assert_eq!(user.id, id);
    assert_eq!(user.rank, 3);
    assert_eq!(User::verify_password(&db, "gina", "pw"), Ok(true));
    assert_eq!(User::verify_password(&db, "gina", "px"), Ok(false));
    assert!(User::verify_password(&db, "nobody", "pw").is_err());
    assert!(User::by_username(&db, "nobody").is_err());
}

#[test]
fn token_generate_requires_existing_user() {
    let mut db = store();
    let value = fresh_token(&db);
    assert!(Token::generate(&mut db, 42, &value, NOW).is_err());
    assert_eq!(db.tokens.len(), 0);
    let id = User::create(&mut db, "hank", "pw", 0).unwrap();
    let value = fresh_token(&db);
    let token = Token::generate(&mut db, id, &value, NOW).unwrap();
    assert_eq!(token, value);
    assert_eq!(db.tokens[0].created_when, NOW);
    assert_eq!(Token::user_by_token(&db, token.as_str()).unwrap().id, id);
    assert_eq!(Token::destroy(&mut db, token.as_str()), Ok(()));
    assert!(Token::user_by_token(&db, token.as_str()).is_err());
}

#[test]
fn register_refuses_bad_or_taken_token_values() {
    let mut db = store();
    let r = register(&mut db, &reg("ivy", "pw"), "NOT-HEX", NOW);
    assert_eq!(r, Err(ApiError::Internal));
    assert_eq!(db.users.len(), 0);
    let t = signup(&mut db, &reg("jack", "pw")).unwrap();
    let again = register(&mut db, &reg("kim", "pw"), &t, NOW);
    assert_eq!(again, Err(ApiError::Internal));
    assert_eq!(db.users.len(), 1);
    assert_eq!(db.tokens.len(), 1);
}

#[test]
fn login_refuses_taken_token_value() {
    let mut db = store();
    let t = signup(&mut db, &reg("lee", "pw")).unwrap();
    assert_eq!(login(&mut db, &creds("lee", "pw"), &t, NOW), Err(ApiError::Internal));
    assert_eq!(login(&mut db, &creds("lee", "bad"), &t, NOW), Err(ApiError::Unauthorized));
    assert_eq!(db.tokens.len(), 1);
}
