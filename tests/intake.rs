use violetear::auth::{register, Register};
use violetear::crypto::{digest_text, file_multihash, is_token_shaped};
use violetear::db::Database;
use violetear::error::ApiError;
use violetear::models::{parse_decimal, Profile};
use violetear::reports::{
    accept_chunk, by_id, create, discard_file, list, split_profile_list, submit_report, ByIdPath,
    CreateQuery, CreateResponse, MAX_SIZE,
};
use violetear::{profiles, routes, tasks};

const HELLO_DIGEST: &str = "1220b94d27b9934d3e08a52e52d7da7dabfac484efe37a5380ee9088f7ace2efcde9";

const NOW: i64 = 1_700_000_000;

fn upload(db: &mut Database, authorization: Option<&str>, q: &CreateQuery, payload: Vec<u8>) -> Result<CreateResponse, ApiError> {
    create(db, authorization, q, payload, NOW)
}

fn store_with_profiles() -> Database {
    let mut db = Database::with_hash_cost(4);
    for name in ["A", "B", "C"] {
        db.insert_profile(name.to_string(), format!("Profile {}", name), "mod".to_string(), None)
            .unwrap();
    }
    db
}

fn user_token(db: &mut Database, name: &str) -> String {
    let t = format!("{:032x}", db.next_id);
    register(db, &Register { username: name.to_string(), password: "pw".to_string() }, &t, NOW).unwrap()
}

fn query(s: &str) -> CreateQuery {
    CreateQuery { profiles: s.to_string() }
}

#[test]
fn duplicate_profiles_fan_out_once() {
    let mut db = store_with_profiles();
    let t = user_token(&mut db, "alice");
    let resp = upload(&mut db, Some(t.as_str()), &query("A,A,B"), b"payload".to_vec()).unwrap();
    assert_eq!(db.reports.len(), 1);
    assert_eq!(db.reports[0].id, resp.report_id);
    assert_eq!(db.tasks.len(), 2);
    let a = Profile::id_for_machine_name(&db, "A").unwrap();
    let b = Profile::id_for_machine_name(&db, "B").unwrap();
    assert_eq!(db.tasks[0].profile_id, a);
    assert_eq!(db.tasks[1].profile_id, b);
    for task in &db.tasks {
        assert_eq!(task.report_id, resp.report_id);
        assert_eq!(task.status, "new");
        assert_eq!(task.completed_when, None);
    }
    assert_eq!(db.work_signals, 1);
    assert_eq!(db.reports[0].created_when, NOW);
    assert!(db.tasks.iter().all(|t| t.created_when == NOW));
    assert!(db.reports[0].file_multihash.starts_with("1220"));
}

#[test]
fn non_adjacent_duplicates_fan_out_once() {
    let mut db = store_with_profiles();
    let t = user_token(&mut db, "alice");
    upload(&mut db, Some(t.as_str()), &query("A,B,A,C,B"), b"x".to_vec()).unwrap();
    assert_eq!(db.tasks.len(), 3);
}

#[test]
fn unknown_profile_rolls_back_everything() {
    let mut db = store_with_profiles();
    let t = user_token(&mut db, "alice");
    let r = upload(&mut db, Some(t.as_str()), &query("A,Z"), b"payload".to_vec());
    assert_eq!(r.err(), Some(ApiError::NotFound));
    assert_eq!(db.reports.len(), 0);
    assert_eq!(db.tasks.len(), 0);
    assert_eq!(db.work_signals, 0);
    assert!(!db.take_work_signal());
}

#[test]
fn oversized_payload_is_rejected_before_writing() {
    let mut db = store_with_profiles();
    let t = user_token(&mut db, "alice");
    let big = vec![0u8; MAX_SIZE + 1];
    let r = upload(&mut db, Some(t.as_str()), &query("A"), big);
    assert_eq!(r.err(), Some(ApiError::PayloadTooLarge));
    assert_eq!(db.reports.len(), 0);
    assert_eq!(db.work_signals, 0);
}

#[test]
fn upload_without_token_is_unauthenticated() {
    let mut db = store_with_profiles();
    let r = upload(&mut db, None, &query("A"), b"x".to_vec());
    assert_eq!(r.err(), Some(ApiError::Unauthenticated));
    assert_eq!(db.reports.len(), 0);
}

#[test]
fn accept_chunk_enforces_ceiling() {
    let mut body: Vec<u8> = Vec::new();
    assert_eq!(accept_chunk(&mut body, b"abc"), Ok(()));
    assert_eq!(accept_chunk(&mut body, b"de"), Ok(()));
    assert_eq!(body, b"abcde".to_vec());
    let mut full = vec![1u8; MAX_SIZE - 1];
    assert_eq!(accept_chunk(&mut full, b"z"), Ok(()));
    assert_eq!(full.len(), MAX_SIZE);
    assert_eq!(accept_chunk(&mut full, b"z"), Err(ApiError::PayloadTooLarge));
    assert_eq!(full.len(), MAX_SIZE);
}

#[test]
fn discard_file_of_another_user_is_not_found() {
    let mut db = store_with_profiles();
    let owner = user_token(&mut db, "alice");
    let other = user_token(&mut db, "mallory");
    let resp = upload(&mut db, Some(owner.as_str()), &query("A"), b"secret".to_vec()).unwrap();
    let path = ByIdPath { report_id: resp.report_id };
    assert_eq!(discard_file(&mut db, Some(other.as_str()), &path), Err(ApiError::NotFound));
    assert_eq!(db.reports[0].file, Some(b"secret".to_vec()));
    let missing = ByIdPath { report_id: 9999 };
    assert_eq!(discard_file(&mut db, Some(owner.as_str()), &missing), Err(ApiError::NotFound));
}

#[test]
fn discard_file_keeps_record_and_digest() {
    let mut db = store_with_profiles();
    let owner = user_token(&mut db, "alice");
    let resp = upload(&mut db, Some(owner.as_str()), &query("A"), b"hello world".to_vec()).unwrap();
    let path = ByIdPath { report_id: resp.report_id };
    assert_eq!(discard_file(&mut db, Some(owner.as_str()), &path), Ok(()));
    let rep = by_id(&db, Some(owner.as_str()), &path).unwrap();
    assert_eq!(rep.file, None);
    assert_eq!(rep.file_multihash, HELLO_DIGEST);
}

#[test]
fn identical_payloads_share_digest_not_id() {
    let mut db = store_with_profiles();
    let t = user_token(&mut db, "alice");
    let first = upload(&mut db, Some(t.as_str()), &query("A"), b"same".to_vec()).unwrap();
    let second = upload(&mut db, Some(t.as_str()), &query("B"), b"same".to_vec()).unwrap();
    assert_ne!(first.report_id, second.report_id);
    assert_eq!(db.reports.len(), 2);
    assert_eq!(db.reports[0].file_multihash, db.reports[1].file_multihash);
}

#[test]
fn successive_submissions_stay_isolated() {
    let mut db = store_with_profiles();
    let t = user_token(&mut db, "alice");
    let first = upload(&mut db, Some(t.as_str()), &query("A,B"), b"one".to_vec()).unwrap();
    let second = upload(&mut db, Some(t.as_str()), &query("C"), b"two".to_vec()).unwrap();
    let p1 = ByIdPath { report_id: first.report_id };
    let p2 = tasks::ByIdPath { report_id: second.report_id };
    let t1 = tasks::list(&db, Some(t.as_str()), &tasks::ByIdPath { report_id: p1.report_id }).unwrap();
    let t2 = tasks::list(&db, Some(t.as_str()), &p2).unwrap();
    assert_eq!(t1.tasks.len(), 2);
    assert_eq!(t2.tasks.len(), 1);
    assert!(t1.tasks.iter().all(|x| x.report_id == first.report_id));
    assert!(t2.tasks.iter().all(|x| x.report_id == second.report_id));
    assert_eq!(by_id(&db, Some(t.as_str()), &p1).unwrap().file, Some(b"one".to_vec()));
    assert_eq!(db.work_signals, 2);
    assert!(db.take_work_signal());
    assert!(db.take_work_signal());
    assert!(!db.take_work_signal());
}

#[test]
fn lists_are_scoped_to_the_caller() {
    let mut db = store_with_profiles();
    let a = user_token(&mut db, "alice");
    let b = user_token(&mut db, "bob");
    upload(&mut db, Some(a.as_str()), &query("A"), b"1".to_vec()).unwrap();
    let rb = upload(&mut db, Some(b.as_str()), &query("B"), b"2".to_vec()).unwrap();
    upload(&mut db, Some(a.as_str()), &query("C"), b"3".to_vec()).unwrap();
    let mine = list(&db, Some(a.as_str())).unwrap();
    assert_eq!(mine.reports.len(), 2);
    assert_eq!(list(&db, Some(b.as_str())).unwrap().reports.len(), 1);
    assert_eq!(list(&db, None).err().unwrap(), ApiError::Unauthenticated);
    let theirs = tasks::ByIdPath { report_id: rb.report_id };
    assert_eq!(tasks::list(&db, Some(a.as_str()), &theirs).err().unwrap(), ApiError::Unauthorized);
    let missing = tasks::ByIdPath { report_id: 12345 };
    assert_eq!(tasks::list(&db, Some(a.as_str()), &missing).err().unwrap(), ApiError::Unauthorized);
    assert_eq!(tasks::list(&db, None, &theirs).err().unwrap(), ApiError::Unauthenticated);
    assert_eq!(
        by_id(&db, Some(a.as_str()), &ByIdPath { report_id: rb.report_id }).err(),
        Some(ApiError::NotFound)
    );
}

#[test]
fn profile_listing_needs_a_token() {
    let mut db = store_with_profiles();
    assert_eq!(profiles::list(&db, None).err().unwrap(), ApiError::Unauthenticated);
    let t = user_token(&mut db, "alice");
    let resp = profiles::list(&db, Some(t.as_str())).unwrap();
    let names: Vec<&str> = resp.profiles.iter().map(|p| p.machine_name.as_str()).collect();
    assert_eq!(names, vec!["A", "B", "C"]);
}

#[test]
fn duplicate_profile_name_is_refused() {
    let mut db = store_with_profiles();
    assert!(db.insert_profile("A".to_string(), "again".to_string(), "m".to_string(), None).is_err());
    assert_eq!(db.profiles.len(), 3);
}

#[test]
fn submit_report_for_unknown_user_is_unauthenticated() {
    let mut db = store_with_profiles();
    let stranger = violetear::models::User {
        id: 77,
        username: "ghost".to_string(),
        hashed_password: String::new(),
        rank: 0,
    };
    let names = vec!["A".to_string()];
    assert_eq!(submit_report(&mut db, &stranger, b"x".to_vec(), &names, NOW), Err(ApiError::Unauthenticated));
    assert_eq!(db.reports.len(), 0);
}

#[test]
fn split_keeps_empty_pieces() {
    assert_eq!(split_profile_list("A,,B"), vec!["A".to_string(), String::new(), "B".to_string()]);
    assert_eq!(split_profile_list(""), vec![String::new()]);
    assert_eq!(split_profile_list("x"), vec!["x".to_string()]);
    assert_eq!(split_profile_list("a,b,"), vec!["a".to_string(), "b".to_string(), String::new()]);
}

#[test]
fn digest_of_known_payload() {
    assert_eq!(file_multihash(b"hello world"), HELLO_DIGEST);
    assert_eq!(
        file_multihash(b""),
        "1220e3b0c44298fc1c149afbf4c8996fb92427ae41e4649b934ca495991b7852b855"
    );
    assert_eq!(digest_text(&[0x12, 0x20, 0x00, 0xff, 0x0a]), "122000ff0a");
}

#[test]
fn token_shape_check() {
    assert!(is_token_shaped("0123456789abcdef0123456789abcdef"));
    assert!(!is_token_shaped("0123456789ABCDEF0123456789abcdef"));
    assert!(!is_token_shaped("0123456789abcdef"));
    assert!(!is_token_shaped(""));
}

#[test]
fn greeting_and_status_codes() {
    assert_eq!(routes::index(), "You have reached a Violetear Web API.");
    assert_eq!(ApiError::Unauthenticated.status_code(), 401);
    assert_eq!(ApiError::Unauthorized.status_code(), 401);
    assert_eq!(ApiError::Conflict.status_code(), 409);
    assert_eq!(ApiError::NotFound.status_code(), 404);
    assert_eq!(ApiError::PayloadTooLarge.status_code(), 413);
    assert_eq!(ApiError::Internal.status_code(), 500);
}

#[test]
fn profiles_can_be_named_by_identifier() {
    let mut db = store_with_profiles();
    let t = user_token(&mut db, "alice");
    let a = Profile::id_for_machine_name(&db, "A").unwrap();
    let b = Profile::id_for_machine_name(&db, "B").unwrap();
    let q = format!("A,{},{}", a, b);
    upload(&mut db, Some(t.as_str()), &query(&q), b"x".to_vec()).unwrap();
    assert_eq!(db.tasks.len(), 2);
    assert_eq!(db.tasks[0].profile_id, a);
    assert_eq!(db.tasks[1].profile_id, b);
    let r = upload(&mut db, Some(t.as_str()), &query("9999"), b"y".to_vec());
    assert_eq!(r.err(), Some(ApiError::NotFound));
    assert_eq!(db.reports.len(), 1);
}

#[test]
fn resolve_identifier_prefers_machine_name() {
    let mut db = store_with_profiles();
    let c = Profile::id_for_machine_name(&db, "C").unwrap();
    let numeric = db
        .insert_profile(c.to_string(), "named like an id".to_string(), "m".to_string(), None)
        .unwrap();
    assert_eq!(Profile::resolve_identifier(&db, &c.to_string()), Ok(numeric));
    assert_eq!(Profile::resolve_identifier(&db, "A"), Profile::id_for_machine_name(&db, "A"));
    assert!(Profile::resolve_identifier(&db, "nope").is_err());
}

#[test]
fn decimal_parsing() {
    assert_eq!(parse_decimal("0"), Some(0));
    assert_eq!(parse_decimal("42"), Some(42));
    assert_eq!(parse_decimal("007"), Some(7));
    assert_eq!(parse_decimal("9223372036854775807"), Some(i64::MAX));
    assert_eq!(parse_decimal("9223372036854775808"), None);
    assert_eq!(parse_decimal("99999999999999999999"), None);
    assert_eq!(parse_decimal(""), None);
    assert_eq!(parse_decimal("4a"), None);
    assert_eq!(parse_decimal("-1"), None);
}
