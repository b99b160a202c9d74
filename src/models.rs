use vstd::prelude::*;
use crate::crypto::{
    bcrypt_accepts, bcrypt_hash, bcrypt_verify, file_multihash, is_token_shaped, is_token_text, multihash_text,
    sha256_tag_text,
};
use crate::db::{Database, StoreError};

verus! {

/// What a `User` row holds, as mathematical values.
pub struct UserView {
    pub id: i64,
    pub username: Seq<char>,
    pub hashed_password: Seq<char>,
    pub rank: i32,
}

/// A registered account.
pub struct User {
    pub id: i64,
    pub username: String,
    pub hashed_password: String,
    pub rank: i32,
}

impl View for User {
    type V = UserView;

    open spec fn view(&self) -> UserView {
        UserView {
            id: self.id,
            username: self.username@,
            hashed_password: self.hashed_password@,
            rank: self.rank,
        }
    }
}

impl User {
    /// A copy of this row.
    pub fn duplicate(&self) -> (r: User)
        ensures
            r@ == self@,
    {
        User {
            id: self.id,
            username: self.username.clone(),
            hashed_password: self.hashed_password.clone(),
            rank: self.rank,
        }
    }
}

/// What a `Token` row holds, as mathematical values.
pub struct TokenView {
    pub id: i64,
    pub user_id: i64,
    pub token: Seq<char>,
    pub created_when: i64,
}

/// A bearer token bound to a user; `created_when` is in Unix seconds.
pub struct Token {
    pub id: i64,
    pub user_id: i64,
    pub token: String,
    pub created_when: i64,
}

impl View for Token {
    type V = TokenView;

    open spec fn view(&self) -> TokenView {
        TokenView {
            id: self.id,
            user_id: self.user_id,
            token: self.token@,
            created_when: self.created_when,
        }
    }
}

/// What a `Profile` row holds, as mathematical values.
pub struct ProfileView {
    pub id: i64,
    pub machine_name: Seq<char>,
    pub human_name: Seq<char>,
    pub module: Seq<char>,
    pub config: Option<Seq<char>>,
}

/// A kind of processing that a report can undergo; `config` is JSON text.
pub struct Profile {
    pub id: i64,
    pub machine_name: String,
    pub human_name: String,
    pub module: String,
    pub config: Option<String>,
}

pub open spec fn opt_string_view(s: Option<String>) -> Option<Seq<char>> {
    match s {
        Some(t) => Some(t@),
        None => None,
    }
}

fn duplicate_opt_string(s: &Option<String>) -> (r: Option<String>)
    ensures
        opt_string_view(r) == opt_string_view(*s),
{
    match s {
        Some(t) => Some(t.clone()),
        None => None,
    }
}

impl View for Profile {
    type V = ProfileView;

    open spec fn view(&self) -> ProfileView {
        ProfileView {
            id: self.id,
            machine_name: self.machine_name@,
            human_name: self.human_name@,
            module: self.module@,
            config: opt_string_view(self.config),
        }
    }
}

impl Profile {
    /// A copy of this row.
    pub fn duplicate(&self) -> (r: Profile)
        ensures
            r@ == self@,
    {
        Profile {
            id: self.id,
            machine_name: self.machine_name.clone(),
            human_name: self.human_name.clone(),
            module: self.module.clone(),
            config: duplicate_opt_string(&self.config),
        }
    }
}

/// What a `Report` row holds, as mathematical values.
pub struct ReportView {
    pub id: i64,
    pub user_id: i64,
    pub created_when: i64,
    pub file_multihash: Seq<char>,
    pub file: Option<Seq<u8>>,
}

/// An uploaded payload with its content digest; `file` is `None` once discarded.
pub struct Report {
    pub id: i64,
    pub user_id: i64,
    pub created_when: i64,
    pub file_multihash: String,
    pub file: Option<Vec<u8>>,
}

pub open spec fn opt_bytes_view(b: Option<Vec<u8>>) -> Option<Seq<u8>> {
    match b {
        Some(v) => Some(v@),
        None => None,
    }
}

fn duplicate_bytes(b: &Vec<u8>) -> (r: Vec<u8>)
    ensures
        r@ == b@,
{
    let mut r: Vec<u8> = Vec::with_capacity(b.len());
    let mut i: usize = 0;
    while i < b.len()
        invariant
            i <= b@.len(),
            r@ == b@.subrange(0, i as int),
        decreases b@.len() - i,
    {
        r.push(b[i]);
        i = i + 1;
    }
    r
}

impl View for Report {
    type V = ReportView;

    open spec fn view(&self) -> ReportView {
        ReportView {
            id: self.id,
            user_id: self.user_id,
            created_when: self.created_when,
            file_multihash: self.file_multihash@,
            file: opt_bytes_view(self.file),
        }
    }
}

impl Report {
    /// A copy of this row.
    pub fn duplicate(&self) -> (r: Report)
        ensures
            r@ == self@,
    {
        Report {
            id: self.id,
            user_id: self.user_id,
            created_when: self.created_when,
            file_multihash: self.file_multihash.clone(),
            file: match &self.file {
                Some(b) => Some(duplicate_bytes(b)),
                None => None,
            },
        }
    }
}

/// What a `Task` row holds, as mathematical values.
pub struct TaskView {
    pub id: i64,
    pub report_id: i64,
    pub profile_id: i64,
    pub created_when: i64,
    pub completed_when: Option<i64>,
    pub status: Seq<char>,
}

/// One unit of processing: a report under one profile.
pub struct Task {
    pub id: i64,
    pub report_id: i64,
    pub profile_id: i64,
    pub created_when: i64,
    pub completed_when: Option<i64>,
    pub status: String,
}

impl View for Task {
    type V = TaskView;

    open spec fn view(&self) -> TaskView {
        TaskView {
            id: self.id,
            report_id: self.report_id,
            profile_id: self.profile_id,
            created_when: self.created_when,
            completed_when: self.completed_when,
            status: self.status@,
        }
    }
}

impl Task {
    /// A copy of this row.
    pub fn duplicate(&self) -> (r: Task)
        ensures
            r@ == self@,
    {
        Task {
            id: self.id,
            report_id: self.report_id,
            profile_id: self.profile_id,
            created_when: self.created_when,
            completed_when: self.completed_when,
            status: self.status.clone(),
        }
    }
}

/// The reports among `rows` that belong to `user_id`, in table order.
pub open spec fn reports_of(rows: Seq<Report>, user_id: i64) -> Seq<ReportView>
    decreases rows.len(),
{
    if rows.len() == 0 {
        Seq::empty()
    } else if rows.last().user_id == user_id {
        reports_of(rows.drop_last(), user_id).push(rows.last()@)
    } else {
        reports_of(rows.drop_last(), user_id)
    }
}

/// The tasks among `rows` that belong to report `report_id`, in table order.
pub open spec fn tasks_of(rows: Seq<Task>, report_id: i64) -> Seq<TaskView>
    decreases rows.len(),
{
    if rows.len() == 0 {
        Seq::empty()
    } else if rows.last().report_id == report_id {
        tasks_of(rows.drop_last(), report_id).push(rows.last()@)
    } else {
        tasks_of(rows.drop_last(), report_id)
    }
}

pub open spec fn report_views(rows: Seq<Report>) -> Seq<ReportView> {
    rows.map_values(|r: Report| r@)
}

pub open spec fn task_views(rows: Seq<Task>) -> Seq<TaskView> {
    rows.map_values(|t: Task| t@)
}

pub open spec fn profile_views(rows: Seq<Profile>) -> Seq<ProfileView> {
    rows.map_values(|p: Profile| p@)
}

/// The status that every new task starts with.
pub open spec fn initial_status() -> Seq<char> {
    "new"@
}

pub open spec fn is_digit(c: char) -> bool {
    '0' <= c && c <= '9'
}

pub open spec fn digit_value(c: char) -> int {
    (c as u32) - ('0' as u32)
}

/// The value of a string of decimal digits, most significant first.
pub open spec fn decimal_value(s: Seq<char>) -> int
    decreases s.len(),
{
    if s.len() == 0 {
        0
    } else {
        decimal_value(s.drop_last()) * 10 + digit_value(s.last())
    }
}

/// A non-empty string of decimal digits.
pub open spec fn is_decimal(s: Seq<char>) -> bool {
    s.len() > 0 && forall|i: int| 0 <= i < s.len() ==> is_digit(#[trigger] s[i])
}

/// Appending digits never makes a decimal value smaller.
pub proof fn lemma_decimal_grows(s: Seq<char>, n: int)
    requires
        0 <= n <= s.len(),
        forall|i: int| 0 <= i < s.len() ==> is_digit(#[trigger] s[i]),
    ensures
        decimal_value(s) >= decimal_value(s.subrange(0, n)),
        decimal_value(s) >= 0,
    decreases s.len(),
{
    if s.len() == 0 {
        assert(s.subrange(0, n) =~= s);
    } else {
        let t = s.drop_last();
        assert forall|i: int| 0 <= i < t.len() implies is_digit(#[trigger] t[i]) by {
            assert(t[i] == s[i]);
        }
        assert(is_digit(s[s.len() - 1]));
        if n == s.len() {
            assert(s.subrange(0, n) =~= s);
            lemma_decimal_grows(t, 0);
        } else {
            lemma_decimal_grows(t, n);
            assert(t.subrange(0, n) =~= s.subrange(0, n));
        }
    }
}

/// The value of `s` when it is a decimal numeral that fits in an `i64`.
pub fn parse_decimal(s: &str) -> (r: Option<i64>)
    ensures
        r is Some <==> is_decimal(s@) && decimal_value(s@) <= i64::MAX,
        r matches Some(v) ==> v == decimal_value(s@),
{
    let n = s.unicode_len();
    if n == 0 {
        return None;
    }
    let mut v: i64 = 0;
    let mut i: usize = 0;
    while i < n
        invariant
            n == s@.len(),
            i <= n,
            forall|k: int| 0 <= k < i ==> is_digit(#[trigger] s@[k]),
            v == decimal_value(s@.subrange(0, i as int)),
            v >= 0,
        decreases n - i,
    {
        let c = s.get_char(i);
        let ghost pre = s@.subrange(0, i + 1);
        proof {
            assert(pre.drop_last() =~= s@.subrange(0, i as int));
            assert(pre.last() == c);
        }
        if !('0' <= c && c <= '9') {
            return None;
        }
        let d: i64 = ((c as u32) - ('0' as u32)) as i64;
        if v > 922337203685477580 || (v == 922337203685477580 && d > 7) {
            proof {
                assert(decimal_value(pre) == v * 10 + d);
                assert(v * 10 + d > i64::MAX) by (nonlinear_arith)
                    requires
                        v > 922337203685477580 || (v == 922337203685477580 && d > 7),
                        0 <= d <= 9,
                ;
                let rest = s@;
                if forall|k: int| 0 <= k < rest.len() ==> is_digit(#[trigger] rest[k]) {
                    lemma_decimal_grows(rest, i + 1);
                }
            }
            return None;
        }
        proof {
            assert(v * 10 + d <= i64::MAX) by (nonlinear_arith)
                requires
                    v <= 922337203685477580,
                    v < 922337203685477580 || d <= 7,
                    0 <= d <= 9,
            ;
        }
        v = v * 10 + d;
        i = i + 1;
    }
    proof {
        assert(s@.subrange(0, n as int) =~= s@);
    }
    Some(v)
}

impl User {
    /// Whether `password` matches the stored hash of the user named `username`.
    pub fn verify_password(db: &Database, username: &str, password: &str) -> (r: Result<bool, StoreError>)
        requires
            db.wf(),
        ensures
            r is Err <==> !db.has_username(username@),
            r is Err ==> r == Err::<bool, StoreError>(StoreError::NotFound),
            r matches Ok(b) ==> b == db.password_accepted(username@, password@),
    {
        let j = match db.find_username(username) {
            Some(j) => j,
            None => {
                return Err(StoreError::NotFound);
            },
        };
        let b = bcrypt_verify(password, db.users[j].hashed_password.as_str());
        proof {
            if !b {
                assert forall|k: int|
                    0 <= k < db.users@.len() && (#[trigger] db.users@[k]).username@ == username@ implies !bcrypt_accepts(
                    password@,
                    db.users@[k].hashed_password@,
                ) by {
                    if k != j {
                        assert(db.users@[k].username@ != db.users@[j as int].username@);
                    }
                }
            }
        }
        Ok(b)
    }

    /// The user named `username`.
    pub fn by_username(db: &Database, username: &str) -> (r: Result<User, StoreError>)
        requires
            db.wf(),
        ensures
            r is Err <==> !db.has_username(username@),
            r is Err ==> r == Err::<User, StoreError>(StoreError::NotFound),
            r matches Ok(u) ==> u.username@ == username@ && exists|j: int|
                0 <= j < db.users@.len() && db.users@[j]@ == u@,
    {
        match db.find_username(username) {
            Some(j) => Ok(db.users[j].duplicate()),
            None => Err(StoreError::NotFound),
        }
    }

    /// Registers `username` with a salted hash of `password`.
    pub fn create(db: &mut Database, username: &str, password: &str, rank: i32) -> (r: Result<i64, StoreError>)
        requires
            old(db).wf(),
        ensures
            final(db).wf(),
            r == Err::<i64, StoreError>(StoreError::UniqueViolation) <==> old(db).has_username(username@),
            r is Ok || r == Err::<i64, StoreError>(StoreError::UniqueViolation) || r == Err::<i64, StoreError>(
                StoreError::Unavailable,
            ),
            !old(db).has_username(username@) && old(db).next_id == i64::MAX ==> r == Err::<i64, StoreError>(
                StoreError::Unavailable,
            ),
            r is Err ==> final(db).same_rows(*old(db)) && final(db).next_id == old(db).next_id,
            r matches Ok(id) ==> {
                &&& id == old(db).next_id
                &&& final(db).next_id == id + 1
                &&& final(db).users@.len() == old(db).users@.len() + 1
                &&& final(db).users@.drop_last() == old(db).users@
                &&& final(db).users@.last().id == id
                &&& final(db).users@.last().username@ == username@
                &&& final(db).users@.last().rank == rank
                &&& bcrypt_accepts(password@, final(db).users@.last().hashed_password@)
                &&& final(db).tokens@ == old(db).tokens@
                &&& final(db).profiles@ == old(db).profiles@
                &&& final(db).reports@ == old(db).reports@
                &&& final(db).tasks@ == old(db).tasks@
                &&& final(db).work_signals == old(db).work_signals
                &&& final(db).hash_cost == old(db).hash_cost
            },
    {
        if db.find_username(username).is_some() {
            return Err(StoreError::UniqueViolation);
        }
        if db.next_id == i64::MAX {
            return Err(StoreError::Unavailable);
        }
        let hashed = match bcrypt_hash(password, db.hash_cost) {
            Some(h) => h,
            None => {
                return Err(StoreError::Unavailable);
            },
        };
        db.insert_user(username.to_owned(), hashed, rank)
    }
}

impl Token {
    /// Issues the session token `value` for `user_id`, created at `now`
    /// (Unix seconds), and returns it.
    pub fn generate(db: &mut Database, user_id: i64, value: &str, now: i64) -> (r: Result<String, StoreError>)
        requires
            old(db).wf(),
        ensures
            final(db).wf(),
            r == Err::<String, StoreError>(StoreError::CheckViolation) <==> !is_token_text(value@),
            r == Err::<String, StoreError>(StoreError::ForeignKeyViolation) <==> is_token_text(value@) && !old(
                db,
            ).has_user_id(user_id),
            r == Err::<String, StoreError>(StoreError::UniqueViolation) <==> is_token_text(value@) && old(
                db,
            ).has_user_id(user_id) && old(db).has_token(value@),
            r == Err::<String, StoreError>(StoreError::Unavailable) <==> is_token_text(value@) && old(
                db,
            ).has_user_id(user_id) && !old(db).has_token(value@) && old(db).next_id == i64::MAX,
            r is Ok <==> is_token_text(value@) && old(db).has_user_id(user_id) && !old(db).has_token(value@)
                && old(db).next_id < i64::MAX,
            r is Err ==> final(db).same_rows(*old(db)) && final(db).next_id == old(db).next_id,
            r matches Ok(t) ==> {
                &&& t@ == value@
                &&& final(db).next_id == old(db).next_id + 1
                &&& final(db).tokens@.len() == old(db).tokens@.len() + 1
                &&& final(db).tokens@.drop_last() == old(db).tokens@
                &&& final(db).tokens@.last().id == old(db).next_id
                &&& final(db).tokens@.last().user_id == user_id
                &&& final(db).tokens@.last().token@ == value@
                &&& final(db).tokens@.last().created_when == now
                &&& final(db).users@ == old(db).users@
                &&& final(db).profiles@ == old(db).profiles@
                &&& final(db).reports@ == old(db).reports@
                &&& final(db).tasks@ == old(db).tasks@
                &&& final(db).work_signals == old(db).work_signals
                &&& final(db).hash_cost == old(db).hash_cost
            },
    {
        if !is_token_shaped(value) {
            return Err(StoreError::CheckViolation);
        }
        match db.insert_token(user_id, value.to_owned(), now) {
            Ok(_) => Ok(value.to_owned()),
            Err(e) => Err(e),
        }
    }

    /// Revokes the token `token`; other tokens stay valid.
    pub fn destroy(db: &mut Database, token: &str) -> (r: Result<(), StoreError>)
        requires
            old(db).wf(),
        ensures
            r is Ok,
            final(db).wf(),
            !final(db).has_token(token@),
            forall|t: Seq<char>| t != token@ ==> (final(db).has_token(t) <==> old(db).has_token(t)),
            forall|t: Seq<char>, u: UserView|
                t != token@ ==> (final(db).holds_token(t, u) <==> old(db).holds_token(t, u)),
            old(db).has_token(token@) ==> exists|i: int|
                0 <= i < old(db).tokens@.len() && old(db).tokens@[i].token@ == token@
                    && final(db).tokens@ == old(db).tokens@.remove(i),
            !old(db).has_token(token@) ==> final(db).tokens@ == old(db).tokens@,
            final(db).users@ == old(db).users@,
            final(db).profiles@ == old(db).profiles@,
            final(db).reports@ == old(db).reports@,
            final(db).tasks@ == old(db).tasks@,
            final(db).next_id == old(db).next_id,
            final(db).work_signals == old(db).work_signals,
            final(db).hash_cost == old(db).hash_cost,
    {
        db.delete_token(token);
        Ok(())
    }

    /// The user that `token` belongs to.
    pub fn user_by_token(db: &Database, token: &str) -> (r: Result<User, StoreError>)
        requires
            db.wf(),
        ensures
            r is Err <==> !db.has_token(token@),
            r is Err ==> r == Err::<User, StoreError>(StoreError::NotFound),
            r matches Ok(u) ==> db.holds_token(token@, u@),
    {
        let i = match db.find_token(token) {
            Some(i) => i,
            None => {
                return Err(StoreError::NotFound);
            },
        };
        let owner = db.tokens[i].user_id;
        match db.find_user_id(owner) {
            Some(j) => {
                let u = db.users[j].duplicate();
                proof {
                    assert(db.tokens@[i as int].token@ == token@);
                    assert(db.users@[j as int].id == db.tokens@[i as int].user_id);
                }
                Ok(u)
            },
            None => {
                proof {
                    assert(db.has_user_id(db.tokens@[i as int].user_id));
                }
                Err(StoreError::NotFound)
            },
        }
    }
}

impl Profile {
    /// Every profile, in table order.
    pub fn list(db: &Database) -> (r: Vec<Profile>)
        ensures
            profile_views(r@) == profile_views(db.profiles@),
    {
        let mut out: Vec<Profile> = Vec::new();
        let mut k: usize = 0;
        while k < db.profiles.len()
            invariant
                k <= db.profiles@.len(),
                profile_views(out@) == profile_views(db.profiles@.subrange(0, k as int)),
            decreases db.profiles@.len() - k,
        {
            let p = db.profiles[k].duplicate();
            let ghost prev = out@;
            out.push(p);
            proof {
                assert(profile_views(out@) =~= profile_views(prev).push(p@));
                assert(profile_views(db.profiles@.subrange(0, k + 1)) =~= profile_views(
                    db.profiles@.subrange(0, k as int),
                ).push(db.profiles@[k as int]@));
            }
            k = k + 1;
        }
        proof {
            assert(db.profiles@.subrange(0, k as int) =~= db.profiles@);
        }
        out
    }

    /// The identifier of the profile whose machine name is `machine_name`.
    pub fn id_for_machine_name(db: &Database, machine_name: &str) -> (r: Result<i64, StoreError>)
        requires
            db.wf(),
        ensures
            r is Err <==> !db.has_profile(machine_name@),
            r is Err ==> r == Err::<i64, StoreError>(StoreError::NotFound),
            r matches Ok(id) ==> id == db.profile_id_for(machine_name@),
    {
        match db.find_profile(machine_name) {
            Some(k) => {
                proof {
                    let c = db.profile_index_for(machine_name@);
                    assert(0 <= c < db.profiles@.len());
                    if c != k {
                        assert(db.profiles@[c].machine_name@ != db.profiles@[k as int].machine_name@);
                    }
                }
                Ok(db.profiles[k].id)
            },
            None => Err(StoreError::NotFound),
        }
    }
}

impl Profile {
    /// The identifier of the profile that `ident` picks: the one with that
    /// machine name, or else the one whose identifier `ident` spells in decimal.
    pub fn resolve_identifier(db: &Database, ident: &str) -> (r: Result<i64, StoreError>)
        requires
            db.wf(),
        ensures
            r is Err <==> !db.names_profile(ident@),
            r is Err ==> r == Err::<i64, StoreError>(StoreError::NotFound),
            r matches Ok(id) ==> id == db.profile_id_of(ident@),
    {
        match Profile::id_for_machine_name(db, ident) {
            Ok(id) => Ok(id),
            Err(_) => match parse_decimal(ident) {
                Some(v) => match db.find_profile_id(v) {
                    Some(_) => Ok(v),
                    None => Err(StoreError::NotFound),
                },
                None => Err(StoreError::NotFound),
            },
        }
    }
}

impl Report {
    /// The reports that belong to `user_id`, in table order.
    pub fn list_for_user(db: &Database, user_id: i64) -> (r: Vec<Report>)
        ensures
            report_views(r@) == reports_of(db.reports@, user_id),
    {
        let mut out: Vec<Report> = Vec::new();
        let mut k: usize = 0;
        while k < db.reports.len()
            invariant
                k <= db.reports@.len(),
                report_views(out@) == reports_of(db.reports@.subrange(0, k as int), user_id),
            decreases db.reports@.len() - k,
        {
            proof {
                assert(db.reports@.subrange(0, k + 1).drop_last() =~= db.reports@.subrange(0, k as int));
            }
            if db.reports[k].user_id == user_id {
                let rep = db.reports[k].duplicate();
                let ghost prev = out@;
                out.push(rep);
                proof {
                    assert(report_views(out@) =~= report_views(prev).push(rep@));
                }
            }
            k = k + 1;
        }
        proof {
            assert(db.reports@.subrange(0, k as int) =~= db.reports@);
        }
        out
    }

    /// Stores `file` for `user_id` under its content digest, created at `now`.
    pub fn create(db: &mut Database, user_id: i64, file: Vec<u8>, now: i64) -> (r: Result<i64, StoreError>)
        requires
            old(db).wf(),
        ensures
            final(db).wf(),
            r == Err::<i64, StoreError>(StoreError::ForeignKeyViolation) <==> !old(db).has_user_id(user_id),
            r == Err::<i64, StoreError>(StoreError::Unavailable) <==> old(db).has_user_id(user_id)
                && old(db).next_id == i64::MAX,
            r is Ok <==> old(db).has_user_id(user_id) && old(db).next_id < i64::MAX,
            r is Err ==> final(db).same_rows(*old(db)) && final(db).next_id == old(db).next_id,
            r matches Ok(id) ==> {
                &&& id == old(db).next_id
                &&& final(db).next_id == id + 1
                &&& final(db).reports@.len() == old(db).reports@.len() + 1
                &&& final(db).reports@.drop_last() == old(db).reports@
                &&& final(db).reports@.last().id == id
                &&& final(db).reports@.last().user_id == user_id
                &&& final(db).reports@.last().file_multihash@ == multihash_text(file@)
                &&& final(db).reports@.last().file_multihash@.subrange(0, 4) == sha256_tag_text()
                &&& final(db).reports@.last().created_when == now
                &&& final(db).reports@.last()@.file == Some(file@)
                &&& final(db).users@ == old(db).users@
                &&& final(db).tokens@ == old(db).tokens@
                &&& final(db).profiles@ == old(db).profiles@
                &&& final(db).tasks@ == old(db).tasks@
                &&& final(db).work_signals == old(db).work_signals
                &&& final(db).hash_cost == old(db).hash_cost
            },
    {
        let digest = file_multihash(file.as_slice());
        db.insert_report(user_id, now, digest, file)
    }

    /// The report `report_id`, provided that `user_id` owns it.
    pub fn by_id_check_user(db: &Database, report_id: i64, user_id: i64) -> (r: Result<Report, StoreError>)
        requires
            db.wf(),
        ensures
            r is Err <==> !db.owns_report(user_id, report_id),
            r is Err ==> r == Err::<Report, StoreError>(StoreError::NotFound),
            r matches Ok(rep) ==> exists|k: int|
                0 <= k < db.reports@.len() && db.reports@[k]@ == rep@ && rep.id == report_id && rep.user_id
                    == user_id,
    {
        let k = match db.find_report(report_id) {
            Some(k) => k,
            None => {
                return Err(StoreError::NotFound);
            },
        };
        if db.reports[k].user_id != user_id {
            proof {
                assert forall|m: int| 0 <= m < db.reports@.len() && (#[trigger] db.reports@[m]).id == report_id
                    implies db.reports@[m].user_id != user_id by {
                    if m < k {
                        assert(db.reports@[m].id < db.reports@[k as int].id);
                    } else if m > k {
                        assert(db.reports@[k as int].id < db.reports@[m].id);
                    }
                }
            }
            return Err(StoreError::NotFound);
        }
        Ok(db.reports[k].duplicate())
    }

    /// Discards the payload of report `report_id` if `user_id` owns it.
    pub fn discard_file_check_user(db: &mut Database, user_id: i64, report_id: i64) -> (r: Result<(), StoreError>)
        requires
            old(db).wf(),
        ensures
            final(db).wf(),
            r is Err <==> !old(db).owns_report(user_id, report_id),
            r is Err ==> r == Err::<(), StoreError>(StoreError::NotFound) && final(db).same_rows(*old(db)),
            r is Ok ==> exists|k: int|
                0 <= k < old(db).reports@.len() && old(db).reports@[k].id == report_id
                    && old(db).reports@[k].user_id == user_id && final(db).reports@.len()
                    == old(db).reports@.len() && (forall|m: int|
                    0 <= m < old(db).reports@.len() && m != k ==> final(db).reports@[m]
                        == old(db).reports@[m]) && final(db).reports@[k]@ == (ReportView {
                    file: None,
                    ..old(db).reports@[k]@
                }),
            final(db).users@ == old(db).users@,
            final(db).tokens@ == old(db).tokens@,
            final(db).profiles@ == old(db).profiles@,
            final(db).tasks@ == old(db).tasks@,
            final(db).next_id == old(db).next_id,
            final(db).work_signals == old(db).work_signals,
            final(db).hash_cost == old(db).hash_cost,
    {
        db.clear_report_file(user_id, report_id)
    }
}

impl Task {
    /// The tasks of report `report_id`, in table order.
    pub fn list_for_report(db: &Database, report_id: i64) -> (r: Vec<Task>)
        ensures
            task_views(r@) == tasks_of(db.tasks@, report_id),
    {
        let mut out: Vec<Task> = Vec::new();
        let mut k: usize = 0;
        while k < db.tasks.len()
            invariant
                k <= db.tasks@.len(),
                task_views(out@) == tasks_of(db.tasks@.subrange(0, k as int), report_id),
            decreases db.tasks@.len() - k,
        {
            proof {
                assert(db.tasks@.subrange(0, k + 1).drop_last() =~= db.tasks@.subrange(0, k as int));
            }
            if db.tasks[k].report_id == report_id {
                let t = db.tasks[k].duplicate();
                let ghost prev = out@;
                out.push(t);
                proof {
                    assert(task_views(out@) =~= task_views(prev).push(t@));
                }
            }
            k = k + 1;
        }
        proof {
            assert(db.tasks@.subrange(0, k as int) =~= db.tasks@);
        }
        out
    }

    /// Queues report `report_id` for profile `profile_id` with the initial
    /// status, created at `now`.
    pub fn create(db: &mut Database, report_id: i64, profile_id: i64, now: i64) -> (r: Result<i64, StoreError>)
        requires
            old(db).wf(),
        ensures
            final(db).wf(),
            r == Err::<i64, StoreError>(StoreError::ForeignKeyViolation) <==> !old(db).has_report_id(report_id)
                || !old(db).has_profile_id(profile_id),
            r == Err::<i64, StoreError>(StoreError::UniqueViolation) <==> old(db).has_report_id(report_id)
                && old(db).has_profile_id(profile_id) && old(db).has_task(report_id, profile_id),
            r == Err::<i64, StoreError>(StoreError::Unavailable) <==> old(db).has_report_id(report_id)
                && old(db).has_profile_id(profile_id) && !old(db).has_task(report_id, profile_id)
                && old(db).next_id == i64::MAX,
            r is Ok <==> old(db).has_report_id(report_id) && old(db).has_profile_id(profile_id)
                && !old(db).has_task(report_id, profile_id) && old(db).next_id < i64::MAX,
            r is Err ==> final(db).same_rows(*old(db)) && final(db).next_id == old(db).next_id,
            r matches Ok(id) ==> {
                &&& id == old(db).next_id
                &&& final(db).next_id == id + 1
                &&& final(db).tasks@.len() == old(db).tasks@.len() + 1
                &&& final(db).tasks@.drop_last() == old(db).tasks@
                &&& final(db).tasks@.last().id == id
                &&& final(db).tasks@.last().report_id == report_id
                &&& final(db).tasks@.last().profile_id == profile_id
                &&& final(db).tasks@.last().completed_when is None
                &&& final(db).tasks@.last().created_when == now
                &&& final(db).tasks@.last().status@ == initial_status()
                &&& final(db).users@ == old(db).users@
                &&& final(db).tokens@ == old(db).tokens@
                &&& final(db).profiles@ == old(db).profiles@
                &&& final(db).reports@ == old(db).reports@
                &&& final(db).work_signals == old(db).work_signals
                &&& final(db).hash_cost == old(db).hash_cost
            },
    {
        db.insert_task(report_id, profile_id, now, "new".to_owned())
    }
}

} // verus!
