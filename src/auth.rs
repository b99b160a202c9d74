use vstd::prelude::*;
use crate::crypto::{bcrypt_accepts, is_token_shaped, is_token_text};
use crate::db::Database;
use crate::error::ApiError;
use crate::models::{Token, User, UserView};

verus! {

/// A registration request.
pub struct Register {
    pub username: String,
    pub password: String,
}

/// A login request.
pub struct Login {
    pub username: String,
    pub password: String,
}

/// Rank given to newly registered users.
pub const NEW_USER_RANK: i32 = 0;

impl Database {
    /// `after` is `self` with one new user named `name`, whose stored hash
    /// bcrypt accepts for `password`, and one new token `tok` for that user.
    pub open spec fn registered(self, after: Database, name: Seq<char>, password: Seq<char>, tok: Seq<char>) -> bool {
        &&& after.users@.len() == self.users@.len() + 1
        &&& after.users@.drop_last() == self.users@
        &&& after.users@.last().username@ == name
        &&& after.users@.last().rank == NEW_USER_RANK
        &&& bcrypt_accepts(password, after.users@.last().hashed_password@)
        &&& after.tokens@.len() == self.tokens@.len() + 1
        &&& after.tokens@.drop_last() == self.tokens@
        &&& after.tokens@.last().token@ == tok
        &&& after.tokens@.last().user_id == after.users@.last().id
        &&& is_token_text(tok)
        &&& after.profiles@ == self.profiles@
        &&& after.reports@ == self.reports@
        &&& after.tasks@ == self.tasks@
        &&& after.work_signals == self.work_signals
        &&& after.hash_cost == self.hash_cost
    }

    /// `after` is `self` with one new token `tok` for the user named `name`.
    pub open spec fn logged_in(self, after: Database, name: Seq<char>, tok: Seq<char>) -> bool {
        &&& after.tokens@.len() == self.tokens@.len() + 1
        &&& after.tokens@.drop_last() == self.tokens@
        &&& after.tokens@.last().token@ == tok
        &&& exists|j: int|
            0 <= j < self.users@.len() && (#[trigger] self.users@[j]).username@ == name && self.users@[j].id
                == after.tokens@.last().user_id
        &&& is_token_text(tok)
        &&& after.users@ == self.users@
        &&& after.profiles@ == self.profiles@
        &&& after.reports@ == self.reports@
        &&& after.tasks@ == self.tasks@
        &&& after.work_signals == self.work_signals
        &&& after.hash_cost == self.hash_cost
    }

    /// `after` is `self` without token `tok`, every other token and every
    /// other row left as it was.
    pub open spec fn revoked(self, after: Database, tok: Seq<char>) -> bool {
        &&& !after.has_token(tok)
        &&& forall|t: Seq<char>| t != tok ==> (after.has_token(t) <==> self.has_token(t))
        &&& forall|t: Seq<char>, u: UserView| t != tok ==> (after.holds_token(t, u) <==> self.holds_token(t, u))
        &&& exists|i: int|
            0 <= i < self.tokens@.len() && self.tokens@[i].token@ == tok && after.tokens@ == self.tokens@.remove(i)
        &&& after.users@ == self.users@
        &&& after.profiles@ == self.profiles@
        &&& after.reports@ == self.reports@
        &&& after.tasks@ == self.tasks@
        &&& after.work_signals == self.work_signals
        &&& after.hash_cost == self.hash_cost
    }

    /// The user that the stored token `tok` belongs to.
    pub open spec fn session_user(self, tok: Seq<char>) -> UserView {
        choose|u: UserView| self.holds_token(tok, u)
    }

    /// A request carries a bearer token that the store knows.
    pub open spec fn authenticated(self, authorization: Option<&str>) -> bool {
        authorization matches Some(t) && self.has_token(t@)
    }

    /// The user behind the bearer token of an authenticated request.
    pub open spec fn caller(self, authorization: Option<&str>) -> UserView {
        match authorization {
            Some(t) => self.session_user(t@),
            None => self.session_user(Seq::empty()),
        }
    }

    /// A stored token belongs to exactly one user.
    pub proof fn lemma_session_user(self, tok: Seq<char>)
        requires
            self.wf(),
            self.has_token(tok),
        ensures
            self.holds_token(tok, self.session_user(tok)),
            forall|u: UserView| self.holds_token(tok, u) ==> u == self.session_user(tok),
            self.has_user_id(self.session_user(tok).id),
    {
        let i = choose|i: int| 0 <= i < self.tokens@.len() && (#[trigger] self.tokens@[i]).token@ == tok;
        assert(self.has_user_id(self.tokens@[i].user_id));
        let j = choose|j: int| 0 <= j < self.users@.len() && (#[trigger] self.users@[j]).id == self.tokens@[i].user_id;
        assert(self.holds_token(tok, self.users@[j]@));
        let s = self.session_user(tok);
        assert forall|u: UserView| self.holds_token(tok, u) implies u == s by {
            assert forall|v: UserView| self.holds_token(tok, v) implies v == self.users@[j]@ by {
                let (a, b) = choose|a: int, b: int|
                    0 <= a < self.tokens@.len() && 0 <= b < self.users@.len() && (#[trigger] self.tokens@[a]).token@
                        == tok && (#[trigger] self.users@[b]).id == self.tokens@[a].user_id && self.users@[b]@ == v;
                if a != i {
                    assert(self.tokens@[a].token@ != self.tokens@[i].token@);
                }
                if b < j {
                    assert(self.users@[b].id < self.users@[j].id);
                } else if b > j {
                    assert(self.users@[j].id < self.users@[b].id);
                }
            }
        }
        let (a, b) = choose|a: int, b: int|
            0 <= a < self.tokens@.len() && 0 <= b < self.users@.len() && (#[trigger] self.tokens@[a]).token@
                == tok && (#[trigger] self.users@[b]).id == self.tokens@[a].user_id && self.users@[b]@ == s;
        assert(self.users@[b].id == s.id);
    }

    /// A store with the same rows and a later identifier counter is well formed too.
    pub proof fn lemma_wf_same_rows(a: Database, b: Database)
        requires
            a.wf(),
            b.same_tables(a),
            a.next_id <= b.next_id,
        ensures
            b.wf(),
    {
        assert forall|id: i64| a.has_user_id(id) implies b.has_user_id(id) by {
            let j = choose|j: int| 0 <= j < a.users@.len() && (#[trigger] a.users@[j]).id == id;
            assert(b.users@[j] == a.users@[j]);
        }
        assert forall|id: i64| a.has_report_id(id) implies b.has_report_id(id) by {
            let j = choose|j: int| 0 <= j < a.reports@.len() && (#[trigger] a.reports@[j]).id == id;
            assert(b.reports@[j] == a.reports@[j]);
        }
        assert forall|id: i64| a.has_profile_id(id) implies b.has_profile_id(id) by {
            let j = choose|j: int| 0 <= j < a.profiles@.len() && (#[trigger] a.profiles@[j]).id == id;
            assert(b.profiles@[j] == a.profiles@[j]);
        }
        assert forall|i: int| 0 <= i < b.tokens@.len() implies b.has_user_id((#[trigger] b.tokens@[i]).user_id) by {
            assert(a.has_user_id(a.tokens@[i].user_id));
        }
        assert forall|i: int| 0 <= i < b.reports@.len() implies b.has_user_id((#[trigger] b.reports@[i]).user_id) by {
            assert(a.has_user_id(a.reports@[i].user_id));
        }
        assert forall|i: int| 0 <= i < b.tasks@.len() implies b.has_report_id((#[trigger] b.tasks@[i]).report_id)
            && b.has_profile_id(b.tasks@[i].profile_id) by {
            assert(a.has_report_id(a.tasks@[i].report_id));
            assert(a.has_profile_id(a.tasks@[i].profile_id));
        }
    }

    /// Every stored token has the shape of a token.
    pub proof fn lemma_stored_token_shaped(self, tok: Seq<char>)
        requires
            self.wf(),
            self.has_token(tok),
        ensures
            is_token_text(tok),
    {
        let i = choose|i: int| 0 <= i < self.tokens@.len() && (#[trigger] self.tokens@[i]).token@ == tok;
        assert(is_token_text(self.tokens@[i].token@));
    }
}

/// Creates an account and logs it in with the session token `token`, issued
/// at `now` (Unix seconds), which it returns.
pub fn register(db: &mut Database, request: &Register, token: &str, now: i64) -> (r: Result<String, ApiError>)
    requires
        old(db).wf(),
    ensures
        final(db).wf(),
        r == Err::<String, ApiError>(ApiError::Conflict) <==> old(db).has_username(request.username@),
        !old(db).has_username(request.username@) && (!is_token_text(token@) || old(db).has_token(token@) || old(
            db,
        ).next_id >= i64::MAX - 1) ==> r == Err::<String, ApiError>(ApiError::Internal),
        r is Ok || r == Err::<String, ApiError>(ApiError::Conflict) || r == Err::<String, ApiError>(
            ApiError::Internal,
        ),
        r is Err ==> final(db).same_rows(*old(db)) && final(db).next_id == old(db).next_id,
        r matches Ok(t) ==> t@ == token@ && old(db).registered(
            *final(db),
            request.username@,
            request.password@,
            token@,
        ),
{
    if db.find_username(request.username.as_str()).is_some() {
        return Err(ApiError::Conflict);
    }
    if !is_token_shaped(token) || db.find_token(token).is_some() || db.next_id >= i64::MAX - 1 {
        return Err(ApiError::Internal);
    }
    let user_id = match User::create(db, request.username.as_str(), request.password.as_str(), NEW_USER_RANK) {
        Ok(id) => id,
        Err(_) => {
            return Err(ApiError::Internal);
        },
    };
    proof {
        assert(db.users@[db.users@.len() - 1].id == user_id);
    }
    match Token::generate(db, user_id, token, now) {
        Ok(t) => Ok(t),
        Err(_) => {
            proof {
                assert(false);
            }
            Err(ApiError::Internal)
        },
    }
}

/// Opens a session for `request.username` with the token `token`, issued
/// at `now`, if the password matches.
///
/// An unknown username and a wrong password give the same error.
pub fn login(db: &mut Database, request: &Login, token: &str, now: i64) -> (r: Result<String, ApiError>)
    requires
        old(db).wf(),
    ensures
        final(db).wf(),
        r == Err::<String, ApiError>(ApiError::Unauthorized) <==> !old(db).password_accepted(
            request.username@,
            request.password@,
        ),
        r is Ok <==> old(db).password_accepted(request.username@, request.password@) && is_token_text(token@)
            && !old(db).has_token(token@) && old(db).next_id < i64::MAX,
        r is Ok || r == Err::<String, ApiError>(ApiError::Unauthorized) || r == Err::<String, ApiError>(
            ApiError::Internal,
        ),
        r is Err ==> final(db).same_rows(*old(db)) && final(db).next_id == old(db).next_id,
        r matches Ok(t) ==> t@ == token@ && old(db).logged_in(*final(db), request.username@, token@),
{
    match User::verify_password(db, request.username.as_str(), request.password.as_str()) {
        Ok(true) => {},
        _ => {
            return Err(ApiError::Unauthorized);
        },
    }
    let user = match User::by_username(db, request.username.as_str()) {
        Ok(u) => u,
        Err(_) => {
            return Err(ApiError::Internal);
        },
    };
    proof {
        let j = choose|j: int| 0 <= j < db.users@.len() && db.users@[j]@ == user@;
        assert(db.users@[j].username@ == request.username@);
        assert(db.has_user_id(user.id));
    }
    match Token::generate(db, user.id, token, now) {
        Ok(t) => Ok(t),
        Err(_) => Err(ApiError::Internal),
    }
}

/// Revokes the token in `authorization`; other tokens stay valid.
pub fn logout(db: &mut Database, authorization: Option<&str>) -> (r: Result<(), ApiError>)
    requires
        old(db).wf(),
    ensures
        final(db).wf(),
        r is Ok <==> (authorization matches Some(t) && old(db).has_token(t@)),
        r is Err ==> r == Err::<(), ApiError>(ApiError::Unauthorized) && final(db).same_rows(*old(db))
            && final(db).next_id == old(db).next_id,
        r is Ok ==> (authorization matches Some(t) && old(db).revoked(*final(db), t@)),
{
    let token = match authorization {
        Some(t) => t,
        None => {
            return Err(ApiError::Unauthorized);
        },
    };
    if Token::user_by_token(db, token).is_err() {
        return Err(ApiError::Unauthorized);
    }
    let _ = Token::destroy(db, token);
    Ok(())
}

/// The user that the bearer token in `authorization` identifies.
pub fn resolve(db: &Database, authorization: Option<&str>) -> (r: Result<User, ApiError>)
    requires
        db.wf(),
    ensures
        r is Ok <==> (authorization matches Some(t) && db.has_token(t@)),
        r is Err ==> r == Err::<User, ApiError>(ApiError::Unauthenticated),
        r matches Ok(u) ==> (authorization matches Some(t) && db.holds_token(t@, u@)),
        r matches Ok(u) ==> u@ == db.caller(authorization) && db.has_user_id(u.id),
{
    let token = match authorization {
        Some(t) => t,
        None => {
            return Err(ApiError::Unauthenticated);
        },
    };
    if !is_token_shaped(token) {
        proof {
            if db.has_token(token@) {
                db.lemma_stored_token_shaped(token@);
            }
        }
        return Err(ApiError::Unauthenticated);
    }
    match Token::user_by_token(db, token) {
        Ok(u) => {
            proof {
                db.lemma_session_user(token@);
            }
            Ok(u)
        },
        Err(_) => Err(ApiError::Unauthenticated),
    }
}

/// After a registration, the returned token resolves to a user with the
/// registered name.
pub proof fn lemma_register_then_resolve(
    before: Database,
    after: Database,
    name: Seq<char>,
    password: Seq<char>,
    tok: Seq<char>,
)
    requires
        before.wf(),
        after.wf(),
        before.registered(after, name, password, tok),
    ensures
        after.has_token(tok),
        after.session_user(tok).username == name,
{
    let i = after.tokens@.len() - 1;
    let j = after.users@.len() - 1;
    assert(after.tokens@[i].token@ == tok);
    assert(after.holds_token(tok, after.users@[j]@));
    after.lemma_session_user(tok);
}

/// After a registration, logging in with the same name and password is
/// accepted.
pub proof fn lemma_registered_password_accepted(
    before: Database,
    after: Database,
    name: Seq<char>,
    password: Seq<char>,
    tok: Seq<char>,
)
    requires
        before.registered(after, name, password, tok),
    ensures
        after.password_accepted(name, password),
{
    let j = after.users@.len() - 1;
    assert(after.users@[j].username@ == name);
}

/// After a login, the returned token resolves to the user who logged in.
pub proof fn lemma_login_then_resolve(before: Database, after: Database, name: Seq<char>, tok: Seq<char>)
    requires
        before.wf(),
        after.wf(),
        before.logged_in(after, name, tok),
    ensures
        after.has_token(tok),
        after.session_user(tok).username == name,
{
    let i = after.tokens@.len() - 1;
    assert(after.tokens@[i].token@ == tok);
    let j = choose|j: int|
        0 <= j < before.users@.len() && (#[trigger] before.users@[j]).username@ == name && before.users@[j].id
            == after.tokens@.last().user_id;
    assert(after.users@[j] == before.users@[j]);
    assert(after.holds_token(tok, after.users@[j]@));
    after.lemma_session_user(tok);
}

/// After a logout, the revoked token no longer resolves, and every other
/// token resolves to the same user as before.
pub proof fn lemma_logout_then_resolve(before: Database, after: Database, tok: Seq<char>, other: Seq<char>)
    requires
        before.wf(),
        after.wf(),
        before.revoked(after, tok),
        other != tok,
    ensures
        !after.has_token(tok),
        after.has_token(other) == before.has_token(other),
        before.has_token(other) ==> after.session_user(other) == before.session_user(other),
{
    if before.has_token(other) {
        before.lemma_session_user(other);
        let s = before.session_user(other);
        assert(after.holds_token(other, s));
        after.lemma_session_user(other);
    }
}

} // verus!
