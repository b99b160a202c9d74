use vstd::prelude::*;
use crate::crypto::{is_token_text, DEFAULT_HASH_COST, MAX_HASH_COST, MIN_HASH_COST};
use crate::models::{decimal_value, is_decimal, Profile, Report, Task, Token, User};

verus! {

/// Failures of the storage layer, before they are classified for callers.
#[derive(Debug, Clone, Copy, PartialEq, Eq, Structural)]
pub enum StoreError {
    /// No row matched.
    NotFound,
    /// A unique key would be duplicated.
    UniqueViolation,
    /// A row would refer to one that does not exist.
    ForeignKeyViolation,
    /// The store cannot complete the write (identifiers exhausted, no randomness).
    Unavailable,
    /// A value has a shape that its column does not admit.
    CheckViolation,
}

/// The transactional store: one table per entity and a counter of
/// work-available signals that have not yet been delivered to workers.
///
/// Every operation either applies all of its writes or none of them.
pub struct Database {
    pub users: Vec<User>,
    pub tokens: Vec<Token>,
    pub profiles: Vec<Profile>,
    pub reports: Vec<Report>,
    pub tasks: Vec<Task>,
    /// The identifier that the next inserted row receives.
    pub next_id: i64,
    /// Signals raised by committed submissions and not yet taken.
    pub work_signals: u64,
    /// bcrypt work factor for new password hashes.
    pub hash_cost: u32,
}

impl Database {
    pub open spec fn has_user_id(self, id: i64) -> bool {
        exists|j: int| 0 <= j < self.users@.len() && (#[trigger] self.users@[j]).id == id
    }

    pub open spec fn has_username(self, name: Seq<char>) -> bool {
        exists|j: int| 0 <= j < self.users@.len() && (#[trigger] self.users@[j]).username@ == name
    }

    pub open spec fn has_token(self, tok: Seq<char>) -> bool {
        exists|i: int| 0 <= i < self.tokens@.len() && (#[trigger] self.tokens@[i]).token@ == tok
    }

    /// `tok` is a stored token and `u` is the user it belongs to.
    pub open spec fn holds_token(self, tok: Seq<char>, u: crate::models::UserView) -> bool {
        exists|i: int, j: int|
            0 <= i < self.tokens@.len() && 0 <= j < self.users@.len() && (#[trigger] self.tokens@[i]).token@
                == tok && (#[trigger] self.users@[j]).id == self.tokens@[i].user_id && self.users@[j]@ == u
    }

    pub open spec fn has_profile(self, name: Seq<char>) -> bool {
        exists|k: int|
            0 <= k < self.profiles@.len() && (#[trigger] self.profiles@[k]).machine_name@ == name
    }

    pub open spec fn has_profile_id(self, id: i64) -> bool {
        exists|k: int| 0 <= k < self.profiles@.len() && (#[trigger] self.profiles@[k]).id == id
    }

    pub open spec fn has_report_id(self, id: i64) -> bool {
        exists|k: int| 0 <= k < self.reports@.len() && (#[trigger] self.reports@[k]).id == id
    }

    /// A report with id `report_id` exists and belongs to `user_id`.
    pub open spec fn owns_report(self, user_id: i64, report_id: i64) -> bool {
        exists|k: int|
            0 <= k < self.reports@.len() && (#[trigger] self.reports@[k]).id == report_id
                && self.reports@[k].user_id == user_id
    }

    /// A task exists for report `report_id` under profile `profile_id`.
    pub open spec fn has_task(self, report_id: i64, profile_id: i64) -> bool {
        exists|i: int|
            0 <= i < self.tasks@.len() && (#[trigger] self.tasks@[i]).report_id == report_id
                && self.tasks@[i].profile_id == profile_id
    }

    /// The user named `name` exists and bcrypt accepts `password` for them.
    pub open spec fn password_accepted(self, name: Seq<char>, password: Seq<char>) -> bool {
        exists|j: int|
            0 <= j < self.users@.len() && (#[trigger] self.users@[j]).username@ == name
                && crate::crypto::bcrypt_accepts(password, self.users@[j].hashed_password@)
    }

    /// The row of the profile whose machine name is `name`.
    pub open spec fn profile_index_for(self, name: Seq<char>) -> int {
        choose|k: int| 0 <= k < self.profiles@.len() && (#[trigger] self.profiles@[k]).machine_name@ == name
    }

    /// The identifier of the profile whose machine name is `name`.
    pub open spec fn profile_id_for(self, name: Seq<char>) -> i64 {
        self.profiles@[self.profile_index_for(name)].id
    }

    /// `ident` picks a profile: by machine name, or else as the decimal
    /// numeral of a profile's identifier.
    pub open spec fn names_profile(self, ident: Seq<char>) -> bool {
        self.has_profile(ident) || (is_decimal(ident) && decimal_value(ident) <= i64::MAX
            && self.has_profile_id(decimal_value(ident) as i64))
    }

    /// The identifier of the profile that `ident` picks.
    pub open spec fn profile_id_of(self, ident: Seq<char>) -> i64 {
        if self.has_profile(ident) {
            self.profile_id_for(ident)
        } else {
            decimal_value(ident) as i64
        }
    }

    pub open spec fn users_wf(self) -> bool {
        &&& forall|i: int, j: int|
            0 <= i < j < self.users@.len() ==> (#[trigger] self.users@[i]).id < (#[trigger] self.users@[j]).id
        &&& forall|i: int| 0 <= i < self.users@.len() ==> 1 <= (#[trigger] self.users@[i]).id < self.next_id
        &&& forall|i: int, j: int|
            0 <= i < self.users@.len() && 0 <= j < self.users@.len() && i != j
                ==> (#[trigger] self.users@[i]).username@ != (#[trigger] self.users@[j]).username@
    }

    pub open spec fn tokens_wf(self) -> bool {
        &&& forall|i: int, j: int|
            0 <= i < j < self.tokens@.len() ==> (#[trigger] self.tokens@[i]).id < (#[trigger] self.tokens@[j]).id
        &&& forall|i: int| 0 <= i < self.tokens@.len() ==> 1 <= (#[trigger] self.tokens@[i]).id < self.next_id
        &&& forall|i: int, j: int|
            0 <= i < self.tokens@.len() && 0 <= j < self.tokens@.len() && i != j
                ==> (#[trigger] self.tokens@[i]).token@ != (#[trigger] self.tokens@[j]).token@
        &&& forall|i: int| 0 <= i < self.tokens@.len() ==> is_token_text((#[trigger] self.tokens@[i]).token@)
        &&& forall|i: int| 0 <= i < self.tokens@.len() ==> self.has_user_id((#[trigger] self.tokens@[i]).user_id)
    }

    pub open spec fn profiles_wf(self) -> bool {
        &&& forall|i: int, j: int|
            0 <= i < j < self.profiles@.len() ==> (#[trigger] self.profiles@[i]).id < (#[trigger] self.profiles@[j]).id
        &&& forall|i: int| 0 <= i < self.profiles@.len() ==> 1 <= (#[trigger] self.profiles@[i]).id < self.next_id
        &&& forall|i: int, j: int|
            0 <= i < self.profiles@.len() && 0 <= j < self.profiles@.len() && i != j
                ==> (#[trigger] self.profiles@[i]).machine_name@ != (#[trigger] self.profiles@[j]).machine_name@
    }

    pub open spec fn reports_wf(self) -> bool {
        &&& forall|i: int, j: int|
            0 <= i < j < self.reports@.len() ==> (#[trigger] self.reports@[i]).id < (#[trigger] self.reports@[j]).id
        &&& forall|i: int| 0 <= i < self.reports@.len() ==> 1 <= (#[trigger] self.reports@[i]).id < self.next_id
        &&& forall|i: int| 0 <= i < self.reports@.len() ==> self.has_user_id((#[trigger] self.reports@[i]).user_id)
    }

    pub open spec fn tasks_wf(self) -> bool {
        &&& forall|i: int, j: int|
            0 <= i < j < self.tasks@.len() ==> (#[trigger] self.tasks@[i]).id < (#[trigger] self.tasks@[j]).id
        &&& forall|i: int| 0 <= i < self.tasks@.len() ==> 1 <= (#[trigger] self.tasks@[i]).id < self.next_id
        &&& forall|i: int| 0 <= i < self.tasks@.len() ==> self.has_report_id((#[trigger] self.tasks@[i]).report_id)
        &&& forall|i: int| 0 <= i < self.tasks@.len() ==> self.has_profile_id((#[trigger] self.tasks@[i]).profile_id)
        &&& forall|i: int, j: int|
            0 <= i < self.tasks@.len() && 0 <= j < self.tasks@.len() && i != j
                ==> !((#[trigger] self.tasks@[i]).report_id == (#[trigger] self.tasks@[j]).report_id
                && self.tasks@[i].profile_id == self.tasks@[j].profile_id)
    }

    /// The store's invariant: increasing identifiers below `next_id`, unique
    /// usernames, token values and profile names, at most one task per report
    /// and profile, and every reference pointing at an existing row.
    pub open spec fn wf(self) -> bool {
        &&& 1 <= self.next_id
        &&& MIN_HASH_COST <= self.hash_cost <= MAX_HASH_COST
        &&& self.users_wf()
        &&& self.tokens_wf()
        &&& self.profiles_wf()
        &&& self.reports_wf()
        &&& self.tasks_wf()
    }

    /// Both stores hold the same rows and hash passwords alike.
    pub open spec fn same_tables(self, other: Database) -> bool {
        &&& self.users@ == other.users@
        &&& self.tokens@ == other.tokens@
        &&& self.profiles@ == other.profiles@
        &&& self.reports@ == other.reports@
        &&& self.tasks@ == other.tasks@
        &&& self.hash_cost == other.hash_cost
    }

    /// Both stores hold the same rows and the same pending signals.
    pub open spec fn same_rows(self, other: Database) -> bool {
        &&& self.same_tables(other)
        &&& self.work_signals == other.work_signals
    }

    /// An empty store hashing passwords at bcrypt's usual work factor.
    pub fn new() -> (r: Database)
        ensures
            r.wf(),
            r.users@.len() == 0,
            r.tokens@.len() == 0,
            r.profiles@.len() == 0,
            r.reports@.len() == 0,
            r.tasks@.len() == 0,
            r.work_signals == 0,
            r.hash_cost == DEFAULT_HASH_COST,
    {
        Database::with_hash_cost(DEFAULT_HASH_COST)
    }

    /// An empty store hashing passwords at work factor `cost`.
    pub fn with_hash_cost(cost: u32) -> (r: Database)
        requires
            MIN_HASH_COST <= cost <= MAX_HASH_COST,
        ensures
            r.wf(),
            r.users@.len() == 0,
            r.tokens@.len() == 0,
            r.profiles@.len() == 0,
            r.reports@.len() == 0,
            r.tasks@.len() == 0,
            r.work_signals == 0,
            r.hash_cost == cost,
    {
        Database {
            users: Vec::new(),
            tokens: Vec::new(),
            profiles: Vec::new(),
            reports: Vec::new(),
            tasks: Vec::new(),
            next_id: 1,
            work_signals: 0,
            hash_cost: cost,
        }
    }

    /// Takes one pending work-available signal, if any.
    pub fn take_work_signal(&mut self) -> (r: bool)
        ensures
            r == (old(self).work_signals > 0),
            final(self).work_signals == if r { (old(self).work_signals - 1) as u64 } else { 0 },
            final(self).users@ == old(self).users@,
            final(self).tokens@ == old(self).tokens@,
            final(self).profiles@ == old(self).profiles@,
            final(self).reports@ == old(self).reports@,
            final(self).tasks@ == old(self).tasks@,
            final(self).next_id == old(self).next_id,
            final(self).hash_cost == old(self).hash_cost,
    {
        if self.work_signals > 0 {
            self.work_signals = self.work_signals - 1;
            true
        } else {
            false
        }
    }

    /// Appending rows, or rewriting a report's payload, keeps every
    /// identifier and name that the store already knew.
    pub proof fn lemma_rows_kept(old_db: Database, new_db: Database)
        requires
            old_db.users@.len() <= new_db.users@.len(),
            forall|j: int| 0 <= j < old_db.users@.len() ==> new_db.users@[j] == old_db.users@[j],
            old_db.profiles@.len() <= new_db.profiles@.len(),
            forall|j: int| 0 <= j < old_db.profiles@.len() ==> new_db.profiles@[j] == old_db.profiles@[j],
            old_db.reports@.len() <= new_db.reports@.len(),
            forall|j: int|
                0 <= j < old_db.reports@.len() ==> (#[trigger] new_db.reports@[j]).id == old_db.reports@[j].id
                    && new_db.reports@[j].user_id == old_db.reports@[j].user_id,
        ensures
            forall|id: i64| old_db.has_user_id(id) ==> new_db.has_user_id(id),
            forall|n: Seq<char>| old_db.has_username(n) ==> new_db.has_username(n),
            forall|id: i64| old_db.has_profile_id(id) ==> new_db.has_profile_id(id),
            forall|n: Seq<char>| old_db.has_profile(n) ==> new_db.has_profile(n),
            forall|id: i64| old_db.has_report_id(id) ==> new_db.has_report_id(id),
            forall|u: i64, id: i64| old_db.owns_report(u, id) ==> new_db.owns_report(u, id),
    {
        assert forall|id: i64| old_db.has_user_id(id) implies new_db.has_user_id(id) by {
            let j = choose|j: int| 0 <= j < old_db.users@.len() && (#[trigger] old_db.users@[j]).id == id;
            assert(new_db.users@[j] == old_db.users@[j]);
        }
        assert forall|n: Seq<char>| old_db.has_username(n) implies new_db.has_username(n) by {
            let j = choose|j: int| 0 <= j < old_db.users@.len() && (#[trigger] old_db.users@[j]).username@ == n;
            assert(new_db.users@[j] == old_db.users@[j]);
        }
        assert forall|id: i64| old_db.has_profile_id(id) implies new_db.has_profile_id(id) by {
            let j = choose|j: int| 0 <= j < old_db.profiles@.len() && (#[trigger] old_db.profiles@[j]).id == id;
            assert(new_db.profiles@[j] == old_db.profiles@[j]);
        }
        assert forall|n: Seq<char>| old_db.has_profile(n) implies new_db.has_profile(n) by {
            let j = choose|j: int|
                0 <= j < old_db.profiles@.len() && (#[trigger] old_db.profiles@[j]).machine_name@ == n;
            assert(new_db.profiles@[j] == old_db.profiles@[j]);
        }
        assert forall|id: i64| old_db.has_report_id(id) implies new_db.has_report_id(id) by {
            let j = choose|j: int| 0 <= j < old_db.reports@.len() && (#[trigger] old_db.reports@[j]).id == id;
            assert(new_db.reports@[j].id == old_db.reports@[j].id);
        }
        assert forall|u: i64, id: i64| old_db.owns_report(u, id) implies new_db.owns_report(u, id) by {
            let j = choose|j: int|
                0 <= j < old_db.reports@.len() && (#[trigger] old_db.reports@[j]).id == id
                    && old_db.reports@[j].user_id == u;
            assert(new_db.reports@[j].id == old_db.reports@[j].id);
        }
    }

    /// Adds a token row for `user_id` holding `value`.
    pub fn insert_token(&mut self, user_id: i64, value: String, created_when: i64) -> (r: Result<i64, StoreError>)
        requires
            old(self).wf(),
            is_token_text(value@),
        ensures
            final(self).wf(),
            r == Err::<i64, StoreError>(StoreError::ForeignKeyViolation) <==> !old(self).has_user_id(user_id),
            r == Err::<i64, StoreError>(StoreError::UniqueViolation) <==> old(self).has_user_id(user_id)
                && old(self).has_token(value@),
            r == Err::<i64, StoreError>(StoreError::Unavailable) <==> old(self).has_user_id(user_id)
                && !old(self).has_token(value@) && old(self).next_id == i64::MAX,
            r is Ok <==> old(self).has_user_id(user_id) && !old(self).has_token(value@) && old(self).next_id
                < i64::MAX,
            r is Err ==> final(self).same_rows(*old(self)) && final(self).next_id == old(self).next_id,
            r matches Ok(id) ==> {
                &&& id == old(self).next_id
                &&& final(self).next_id == id + 1
                &&& final(self).tokens@.len() == old(self).tokens@.len() + 1
                &&& final(self).tokens@.drop_last() == old(self).tokens@
                &&& final(self).tokens@.last()@ == (crate::models::TokenView {
                    id,
                    user_id,
                    token: value@,
                    created_when,
                })
                &&& final(self).users@ == old(self).users@
                &&& final(self).profiles@ == old(self).profiles@
                &&& final(self).reports@ == old(self).reports@
                &&& final(self).tasks@ == old(self).tasks@
                &&& final(self).work_signals == old(self).work_signals
                &&& final(self).hash_cost == old(self).hash_cost
            },
    {
        let owner = self.find_user_id(user_id);
        let uj = match owner {
            Some(j) => j,
            None => {
                return Err(StoreError::ForeignKeyViolation);
            },
        };
        if self.find_token(value.as_str()).is_some() {
            return Err(StoreError::UniqueViolation);
        }
        if self.next_id == i64::MAX {
            return Err(StoreError::Unavailable);
        }
        let id = self.next_id;
        let ghost before = *self;
        self.tokens.push(Token { id, user_id, token: value, created_when });
        self.next_id = id + 1;
        proof {
            assert(self.tokens@.drop_last() == before.tokens@);
            assert(self.users@ == before.users@);
            Database::lemma_rows_kept(before, *self);
            assert(self.users@[uj as int].id == user_id);
            assert forall|i: int| 0 <= i < self.tokens@.len() implies self.has_user_id(
                (#[trigger] self.tokens@[i]).user_id,
            ) by {
                if i < before.tokens@.len() {
                    assert(self.tokens@[i] == before.tokens@[i]);
                    assert(before.has_user_id(before.tokens@[i].user_id));
                }
            }
            assert forall|i: int, j: int|
                0 <= i < self.tokens@.len() && 0 <= j < self.tokens@.len() && i != j implies
                (#[trigger] self.tokens@[i]).token@ != (#[trigger] self.tokens@[j]).token@ by {
                if i < before.tokens@.len() && j < before.tokens@.len() {
                    assert(self.tokens@[i] == before.tokens@[i]);
                    assert(self.tokens@[j] == before.tokens@[j]);
                } else if i < before.tokens@.len() {
                    assert(self.tokens@[i] == before.tokens@[i]);
                } else {
                    assert(self.tokens@[j] == before.tokens@[j]);
                }
            }
            assert forall|m: int| 0 <= m < self.reports@.len() implies self.has_user_id(
                (#[trigger] self.reports@[m]).user_id,
            ) by {
                assert(before.has_user_id(before.reports@[m].user_id));
            }
            assert forall|m: int| 0 <= m < self.tasks@.len() implies self.has_report_id(
                (#[trigger] self.tasks@[m]).report_id,
            ) && self.has_profile_id(self.tasks@[m].profile_id) by {
                assert(before.has_report_id(before.tasks@[m].report_id));
                assert(before.has_profile_id(before.tasks@[m].profile_id));
            }
        }
        Ok(id)
    }

    /// Adds a user row.
    pub fn insert_user(&mut self, username: String, hashed_password: String, rank: i32) -> (r: Result<
        i64,
        StoreError,
    >)
        requires
            old(self).wf(),
        ensures
            final(self).wf(),
            r == Err::<i64, StoreError>(StoreError::UniqueViolation) <==> old(self).has_username(username@),
            r == Err::<i64, StoreError>(StoreError::Unavailable) <==> !old(self).has_username(username@)
                && old(self).next_id == i64::MAX,
            r is Ok <==> !old(self).has_username(username@) && old(self).next_id < i64::MAX,
            r is Err ==> final(self).same_rows(*old(self)) && final(self).next_id == old(self).next_id,
            r matches Ok(id) ==> {
                &&& id == old(self).next_id
                &&& final(self).next_id == id + 1
                &&& final(self).users@.len() == old(self).users@.len() + 1
                &&& final(self).users@.drop_last() == old(self).users@
                &&& final(self).users@.last()@ == (crate::models::UserView {
                    id,
                    username: username@,
                    hashed_password: hashed_password@,
                    rank,
                })
                &&& final(self).tokens@ == old(self).tokens@
                &&& final(self).profiles@ == old(self).profiles@
                &&& final(self).reports@ == old(self).reports@
                &&& final(self).tasks@ == old(self).tasks@
                &&& final(self).work_signals == old(self).work_signals
                &&& final(self).hash_cost == old(self).hash_cost
            },
    {
        if self.find_username(username.as_str()).is_some() {
            return Err(StoreError::UniqueViolation);
        }
        if self.next_id == i64::MAX {
            return Err(StoreError::Unavailable);
        }
        let id = self.next_id;
        let ghost before = *self;
        self.users.push(User { id, username, hashed_password, rank });
        self.next_id = id + 1;
        proof {
            assert(self.users@.drop_last() == before.users@);
            Database::lemma_rows_kept(before, *self);
            assert forall|i: int, j: int|
                0 <= i < self.users@.len() && 0 <= j < self.users@.len() && i != j implies
                (#[trigger] self.users@[i]).username@ != (#[trigger] self.users@[j]).username@ by {
                if i < before.users@.len() && j < before.users@.len() {
                    assert(self.users@[i] == before.users@[i]);
                    assert(self.users@[j] == before.users@[j]);
                } else if i < before.users@.len() {
                    assert(self.users@[i] == before.users@[i]);
                } else {
                    assert(self.users@[j] == before.users@[j]);
                }
            }
            assert forall|i: int| 0 <= i < self.tokens@.len() implies self.has_user_id(
                (#[trigger] self.tokens@[i]).user_id,
            ) by {
                assert(before.has_user_id(before.tokens@[i].user_id));
            }
            assert forall|m: int| 0 <= m < self.reports@.len() implies self.has_user_id(
                (#[trigger] self.reports@[m]).user_id,
            ) by {
                assert(before.has_user_id(before.reports@[m].user_id));
            }
            assert forall|m: int| 0 <= m < self.tasks@.len() implies self.has_report_id(
                (#[trigger] self.tasks@[m]).report_id,
            ) && self.has_profile_id(self.tasks@[m].profile_id) by {
                assert(before.has_report_id(before.tasks@[m].report_id));
                assert(before.has_profile_id(before.tasks@[m].profile_id));
            }
        }
        Ok(id)
    }

    /// Adds a profile row; `config` is JSON text.
    pub fn insert_profile(
        &mut self,
        machine_name: String,
        human_name: String,
        module: String,
        config: Option<String>,
    ) -> (r: Result<i64, StoreError>)
        requires
            old(self).wf(),
        ensures
            final(self).wf(),
            r == Err::<i64, StoreError>(StoreError::UniqueViolation) <==> old(self).has_profile(machine_name@),
            r == Err::<i64, StoreError>(StoreError::Unavailable) <==> !old(self).has_profile(machine_name@)
                && old(self).next_id == i64::MAX,
            r is Ok <==> !old(self).has_profile(machine_name@) && old(self).next_id < i64::MAX,
            r is Err ==> final(self).same_rows(*old(self)) && final(self).next_id == old(self).next_id,
            r matches Ok(id) ==> {
                &&& id == old(self).next_id
                &&& final(self).next_id == id + 1
                &&& final(self).profiles@.len() == old(self).profiles@.len() + 1
                &&& final(self).profiles@.drop_last() == old(self).profiles@
                &&& final(self).profiles@.last()@ == (crate::models::ProfileView {
                    id,
                    machine_name: machine_name@,
                    human_name: human_name@,
                    module: module@,
                    config: crate::models::opt_string_view(config),
                })
                &&& final(self).users@ == old(self).users@
                &&& final(self).tokens@ == old(self).tokens@
                &&& final(self).reports@ == old(self).reports@
                &&& final(self).tasks@ == old(self).tasks@
                &&& final(self).work_signals == old(self).work_signals
                &&& final(self).hash_cost == old(self).hash_cost
            },
    {
        if self.find_profile(machine_name.as_str()).is_some() {
            return Err(StoreError::UniqueViolation);
        }
        if self.next_id == i64::MAX {
            return Err(StoreError::Unavailable);
        }
        let id = self.next_id;
        let ghost before = *self;
        self.profiles.push(Profile { id, machine_name, human_name, module, config });
        self.next_id = id + 1;
        proof {
            assert(self.profiles@.drop_last() == before.profiles@);
            Database::lemma_rows_kept(before, *self);
            assert forall|i: int, j: int|
                0 <= i < self.profiles@.len() && 0 <= j < self.profiles@.len() && i != j implies
                (#[trigger] self.profiles@[i]).machine_name@ != (#[trigger] self.profiles@[j]).machine_name@ by {
                if i < before.profiles@.len() && j < before.profiles@.len() {
                    assert(self.profiles@[i] == before.profiles@[i]);
                    assert(self.profiles@[j] == before.profiles@[j]);
                } else if i < before.profiles@.len() {
                    assert(self.profiles@[i] == before.profiles@[i]);
                } else {
                    assert(self.profiles@[j] == before.profiles@[j]);
                }
            }
            assert forall|i: int| 0 <= i < self.tokens@.len() implies self.has_user_id(
                (#[trigger] self.tokens@[i]).user_id,
            ) by {
                assert(before.has_user_id(before.tokens@[i].user_id));
            }
            assert forall|m: int| 0 <= m < self.reports@.len() implies self.has_user_id(
                (#[trigger] self.reports@[m]).user_id,
            ) by {
                assert(before.has_user_id(before.reports@[m].user_id));
            }
            assert forall|m: int| 0 <= m < self.tasks@.len() implies self.has_report_id(
                (#[trigger] self.tasks@[m]).report_id,
            ) && self.has_profile_id(self.tasks@[m].profile_id) by {
                assert(before.has_report_id(before.tasks@[m].report_id));
                assert(before.has_profile_id(before.tasks@[m].profile_id));
            }
        }
        Ok(id)
    }

    /// Adds a report row holding `file`, addressed by `file_multihash`.
    pub fn insert_report(&mut self, user_id: i64, created_when: i64, file_multihash: String, file: Vec<u8>) -> (r:
        Result<i64, StoreError>)
        requires
            old(self).wf(),
        ensures
            final(self).wf(),
            r == Err::<i64, StoreError>(StoreError::ForeignKeyViolation) <==> !old(self).has_user_id(user_id),
            r == Err::<i64, StoreError>(StoreError::Unavailable) <==> old(self).has_user_id(user_id)
                && old(self).next_id == i64::MAX,
            r is Ok <==> old(self).has_user_id(user_id) && old(self).next_id < i64::MAX,
            r is Err ==> final(self).same_rows(*old(self)) && final(self).next_id == old(self).next_id,
            r matches Ok(id) ==> {
                &&& id == old(self).next_id
                &&& final(self).next_id == id + 1
                &&& final(self).reports@.len() == old(self).reports@.len() + 1
                &&& final(self).reports@.drop_last() == old(self).reports@
                &&& final(self).reports@.last()@ == (crate::models::ReportView {
                    id,
                    user_id,
                    created_when,
                    file_multihash: file_multihash@,
                    file: Some(file@),
                })
                &&& final(self).users@ == old(self).users@
                &&& final(self).tokens@ == old(self).tokens@
                &&& final(self).profiles@ == old(self).profiles@
                &&& final(self).tasks@ == old(self).tasks@
                &&& final(self).work_signals == old(self).work_signals
                &&& final(self).hash_cost == old(self).hash_cost
            },
    {
        let owner = self.find_user_id(user_id);
        let uj = match owner {
            Some(j) => j,
            None => {
                return Err(StoreError::ForeignKeyViolation);
            },
        };
        if self.next_id == i64::MAX {
            return Err(StoreError::Unavailable);
        }
        let id = self.next_id;
        let ghost before = *self;
        self.reports.push(Report { id, user_id, created_when, file_multihash, file: Some(file) });
        self.next_id = id + 1;
        proof {
            assert(self.reports@.drop_last() == before.reports@);
            assert forall|j: int| 0 <= j < before.reports@.len() implies (#[trigger] self.reports@[j]).id
                == before.reports@[j].id && self.reports@[j].user_id == before.reports@[j].user_id by {
                assert(self.reports@[j] == before.reports@[j]);
            }
            Database::lemma_rows_kept(before, *self);
            assert(self.users@[uj as int].id == user_id);
            assert forall|i: int| 0 <= i < self.tokens@.len() implies self.has_user_id(
                (#[trigger] self.tokens@[i]).user_id,
            ) by {
                assert(before.has_user_id(before.tokens@[i].user_id));
            }
            assert forall|m: int| 0 <= m < self.reports@.len() implies self.has_user_id(
                (#[trigger] self.reports@[m]).user_id,
            ) by {
                if m < before.reports@.len() {
                    assert(self.reports@[m] == before.reports@[m]);
                    assert(before.has_user_id(before.reports@[m].user_id));
                }
            }
            assert forall|m: int| 0 <= m < self.tasks@.len() implies self.has_report_id(
                (#[trigger] self.tasks@[m]).report_id,
            ) && self.has_profile_id(self.tasks@[m].profile_id) by {
                assert(before.has_report_id(before.tasks@[m].report_id));
                assert(before.has_profile_id(before.tasks@[m].profile_id));
            }
        }
        Ok(id)
    }

    /// Adds a task row for report `report_id` under profile `profile_id`.
    pub fn insert_task(&mut self, report_id: i64, profile_id: i64, created_when: i64, status: String) -> (r: Result<
        i64,
        StoreError,
    >)
        requires
            old(self).wf(),
        ensures
            final(self).wf(),
            r == Err::<i64, StoreError>(StoreError::ForeignKeyViolation) <==> !old(self).has_report_id(report_id)
                || !old(self).has_profile_id(profile_id),
            r == Err::<i64, StoreError>(StoreError::UniqueViolation) <==> old(self).has_report_id(report_id)
                && old(self).has_profile_id(profile_id) && old(self).has_task(report_id, profile_id),
            r == Err::<i64, StoreError>(StoreError::Unavailable) <==> old(self).has_report_id(report_id)
                && old(self).has_profile_id(profile_id) && !old(self).has_task(report_id, profile_id)
                && old(self).next_id == i64::MAX,
            r is Ok <==> old(self).has_report_id(report_id) && old(self).has_profile_id(profile_id)
                && !old(self).has_task(report_id, profile_id) && old(self).next_id < i64::MAX,
            r is Err ==> final(self).same_rows(*old(self)) && final(self).next_id == old(self).next_id,
            r matches Ok(id) ==> {
                &&& id == old(self).next_id
                &&& final(self).next_id == id + 1
                &&& final(self).tasks@.len() == old(self).tasks@.len() + 1
                &&& final(self).tasks@.drop_last() == old(self).tasks@
                &&& final(self).tasks@.last()@ == (crate::models::TaskView {
                    id,
                    report_id,
                    profile_id,
                    created_when,
                    completed_when: None,
                    status: status@,
                })
                &&& final(self).users@ == old(self).users@
                &&& final(self).tokens@ == old(self).tokens@
                &&& final(self).profiles@ == old(self).profiles@
                &&& final(self).reports@ == old(self).reports@
                &&& final(self).work_signals == old(self).work_signals
                &&& final(self).hash_cost == old(self).hash_cost
            },
    {
        let rk = match self.find_report(report_id) {
            Some(k) => k,
            None => {
                return Err(StoreError::ForeignKeyViolation);
            },
        };
        let pk = match self.find_profile_id(profile_id) {
            Some(k) => k,
            None => {
                return Err(StoreError::ForeignKeyViolation);
            },
        };
        if self.find_task(report_id, profile_id).is_some() {
            return Err(StoreError::UniqueViolation);
        }
        if self.next_id == i64::MAX {
            return Err(StoreError::Unavailable);
        }
        let id = self.next_id;
        let ghost before = *self;
        self.tasks.push(
            Task { id, report_id, profile_id, created_when, completed_when: None, status },
        );
        self.next_id = id + 1;
        proof {
            assert(self.tasks@.drop_last() == before.tasks@);
            Database::lemma_rows_kept(before, *self);
            assert(self.reports@[rk as int].id == report_id);
            assert(self.profiles@[pk as int].id == profile_id);
            assert forall|i: int| 0 <= i < self.tokens@.len() implies self.has_user_id(
                (#[trigger] self.tokens@[i]).user_id,
            ) by {
                assert(before.has_user_id(before.tokens@[i].user_id));
            }
            assert forall|m: int| 0 <= m < self.reports@.len() implies self.has_user_id(
                (#[trigger] self.reports@[m]).user_id,
            ) by {
                assert(before.has_user_id(before.reports@[m].user_id));
            }
            assert forall|m: int| 0 <= m < self.tasks@.len() implies self.has_report_id(
                (#[trigger] self.tasks@[m]).report_id,
            ) && self.has_profile_id(self.tasks@[m].profile_id) by {
                if m < before.tasks@.len() {
                    assert(self.tasks@[m] == before.tasks@[m]);
                    assert(before.has_report_id(before.tasks@[m].report_id));
                    assert(before.has_profile_id(before.tasks@[m].profile_id));
                }
            }
            assert forall|i: int, j: int|
                0 <= i < self.tasks@.len() && 0 <= j < self.tasks@.len() && i != j implies !((#[trigger] self.tasks@[i]).report_id
                == (#[trigger] self.tasks@[j]).report_id && self.tasks@[i].profile_id == self.tasks@[j].profile_id) by {
                if i < before.tasks@.len() && j < before.tasks@.len() {
                    assert(self.tasks@[i] == before.tasks@[i]);
                    assert(self.tasks@[j] == before.tasks@[j]);
                } else if i < before.tasks@.len() {
                    assert(self.tasks@[i] == before.tasks@[i]);
                } else {
                    assert(self.tasks@[j] == before.tasks@[j]);
                }
            }
        }
        Ok(id)
    }

    /// Removes the token row holding `tok`, if there is one.
    pub fn delete_token(&mut self, tok: &str)
        requires
            old(self).wf(),
        ensures
            final(self).wf(),
            !final(self).has_token(tok@),
            forall|t: Seq<char>| t != tok@ ==> (final(self).has_token(t) <==> old(self).has_token(t)),
            forall|t: Seq<char>, u: crate::models::UserView|
                t != tok@ ==> (final(self).holds_token(t, u) <==> old(self).holds_token(t, u)),
            old(self).has_token(tok@) ==> exists|i: int|
                0 <= i < old(self).tokens@.len() && old(self).tokens@[i].token@ == tok@
                    && final(self).tokens@ == old(self).tokens@.remove(i),
            !old(self).has_token(tok@) ==> final(self).tokens@ == old(self).tokens@,
            final(self).users@ == old(self).users@,
            final(self).profiles@ == old(self).profiles@,
            final(self).reports@ == old(self).reports@,
            final(self).tasks@ == old(self).tasks@,
            final(self).next_id == old(self).next_id,
            final(self).work_signals == old(self).work_signals,
            final(self).hash_cost == old(self).hash_cost,
    {
        let found = self.find_token(tok);
        match found {
            None => {},
            Some(i) => {
                let ghost before = *self;
                let _gone = self.tokens.remove(i);
                proof {
                    Database::lemma_rows_kept(before, *self);
                    assert forall|k: int| 0 <= k < self.tokens@.len() implies #[trigger] self.tokens@[k]
                        == before.tokens@[if k < i { k } else { k + 1 }] by {}
                    assert forall|a: int, b: int| 0 <= a < b < self.tokens@.len() implies (#[trigger] self.tokens@[a]).id
                        < (#[trigger] self.tokens@[b]).id by {
                        let a0 = if a < i { a } else { a + 1 };
                        let b0 = if b < i { b } else { b + 1 };
                        assert(before.tokens@[a0].id < before.tokens@[b0].id);
                    }
                    assert forall|a: int, b: int|
                        0 <= a < self.tokens@.len() && 0 <= b < self.tokens@.len() && a != b implies (#[trigger] self.tokens@[a]).token@
                        != (#[trigger] self.tokens@[b]).token@ by {
                        let a0 = if a < i { a } else { a + 1 };
                        let b0 = if b < i { b } else { b + 1 };
                        assert(before.tokens@[a0].token@ != before.tokens@[b0].token@);
                    }
                    assert forall|a: int| 0 <= a < self.tokens@.len() implies self.has_user_id(
                        (#[trigger] self.tokens@[a]).user_id,
                    ) && is_token_text(self.tokens@[a].token@) && 1 <= self.tokens@[a].id < self.next_id by {
                        let a0 = if a < i { a } else { a + 1 };
                        assert(before.has_user_id(before.tokens@[a0].user_id));
                    }
                    assert(!self.has_token(tok@)) by {
                        if self.has_token(tok@) {
                            let a = choose|a: int| 0 <= a < self.tokens@.len() && (#[trigger] self.tokens@[a]).token@ == tok@;
                            let a0 = if a < i { a } else { a + 1 };
                            assert(before.tokens@[a0].token@ != before.tokens@[i as int].token@);
                        }
                    }
                    assert forall|t: Seq<char>| t != tok@ implies (self.has_token(t) <==> before.has_token(t)) by {
                        if before.has_token(t) {
                            let a0 = choose|a: int| 0 <= a < before.tokens@.len() && (#[trigger] before.tokens@[a]).token@ == t;
                            let a = if a0 < i { a0 } else { a0 - 1 };
                            assert(self.tokens@[a] == before.tokens@[a0]);
                        }
                        if self.has_token(t) {
                            let a = choose|a: int| 0 <= a < self.tokens@.len() && (#[trigger] self.tokens@[a]).token@ == t;
                            let a0 = if a < i { a } else { a + 1 };
                            assert(before.tokens@[a0] == self.tokens@[a]);
                        }
                    }
                    assert forall|t: Seq<char>, u: crate::models::UserView| t != tok@ implies (self.holds_token(t, u)
                        <==> before.holds_token(t, u)) by {
                        if before.holds_token(t, u) {
                            let (a0, j) = choose|a: int, j: int|
                                0 <= a < before.tokens@.len() && 0 <= j < before.users@.len()
                                    && (#[trigger] before.tokens@[a]).token@ == t && (#[trigger] before.users@[j]).id
                                    == before.tokens@[a].user_id && before.users@[j]@ == u;
                            let a = if a0 < i { a0 } else { a0 - 1 };
                            assert(self.tokens@[a] == before.tokens@[a0]);
                            assert(self.users@[j] == before.users@[j]);
                        }
                        if self.holds_token(t, u) {
                            let (a, j) = choose|a: int, j: int|
                                0 <= a < self.tokens@.len() && 0 <= j < self.users@.len()
                                    && (#[trigger] self.tokens@[a]).token@ == t && (#[trigger] self.users@[j]).id
                                    == self.tokens@[a].user_id && self.users@[j]@ == u;
                            let a0 = if a < i { a } else { a + 1 };
                            assert(before.tokens@[a0] == self.tokens@[a]);
                            assert(self.users@[j] == before.users@[j]);
                        }
                    }
                }
            },
        }
    }

    /// Clears the payload of report `report_id` if `user_id` owns it; the
    /// record and its digest stay.
    pub fn clear_report_file(&mut self, user_id: i64, report_id: i64) -> (r: Result<(), StoreError>)
        requires
            old(self).wf(),
        ensures
            final(self).wf(),
            r is Err <==> !old(self).owns_report(user_id, report_id),
            r is Err ==> r == Err::<(), StoreError>(StoreError::NotFound) && final(self).same_rows(*old(self)),
            r is Ok ==> exists|k: int|
                0 <= k < old(self).reports@.len() && old(self).reports@[k].id == report_id
                    && old(self).reports@[k].user_id == user_id && final(self).reports@.len()
                    == old(self).reports@.len() && (forall|m: int|
                    0 <= m < old(self).reports@.len() && m != k ==> final(self).reports@[m]
                        == old(self).reports@[m]) && final(self).reports@[k]@ == (crate::models::ReportView {
                    file: None,
                    ..old(self).reports@[k]@
                }),
            final(self).users@ == old(self).users@,
            final(self).tokens@ == old(self).tokens@,
            final(self).profiles@ == old(self).profiles@,
            final(self).tasks@ == old(self).tasks@,
            final(self).next_id == old(self).next_id,
            final(self).work_signals == old(self).work_signals,
            final(self).hash_cost == old(self).hash_cost,
    {
        let k = match self.find_report(report_id) {
            Some(k) => k,
            None => {
                return Err(StoreError::NotFound);
            },
        };
        if self.reports[k].user_id != user_id {
            proof {
                assert forall|m: int| 0 <= m < self.reports@.len() && (#[trigger] self.reports@[m]).id == report_id
                    implies self.reports@[m].user_id != user_id by {
                    if m != k {
                        if m < k {
                            assert(self.reports@[m].id < self.reports@[k as int].id);
                        } else {
                            assert(self.reports@[k as int].id < self.reports@[m].id);
                        }
                    }
                }
            }
            return Err(StoreError::NotFound);
        }
        let ghost before = *self;
        let mut rep = self.reports.remove(k);
        rep.file = None;
        self.reports.insert(k, rep);
        proof {
            assert forall|m: int| 0 <= m < before.reports@.len() && m != k implies #[trigger] self.reports@[m]
                == before.reports@[m] by {}
            assert forall|j: int| 0 <= j < before.reports@.len() implies (#[trigger] self.reports@[j]).id
                == before.reports@[j].id && self.reports@[j].user_id == before.reports@[j].user_id by {}
            Database::lemma_rows_kept(before, *self);
            assert forall|m: int| 0 <= m < self.reports@.len() implies self.has_user_id(
                (#[trigger] self.reports@[m]).user_id,
            ) by {
                assert(before.has_user_id(before.reports@[m].user_id));
            }
            assert forall|m: int| 0 <= m < self.tasks@.len() implies self.has_report_id(
                (#[trigger] self.tasks@[m]).report_id,
            ) && self.has_profile_id(self.tasks@[m].profile_id) by {
                assert(before.has_report_id(before.tasks@[m].report_id));
                assert(before.has_profile_id(before.tasks@[m].profile_id));
            }
            assert forall|i: int| 0 <= i < self.tokens@.len() implies self.has_user_id(
                (#[trigger] self.tokens@[i]).user_id,
            ) by {
                assert(before.has_user_id(before.tokens@[i].user_id));
            }
        }
        Ok(())
    }

    /// Index of the task for report `report_id` under profile `profile_id`.
    pub fn find_task(&self, report_id: i64, profile_id: i64) -> (r: Option<usize>)
        ensures
            r matches Some(i) ==> i < self.tasks@.len() && self.tasks@[i as int].report_id == report_id
                && self.tasks@[i as int].profile_id == profile_id,
            r is None ==> !self.has_task(report_id, profile_id),
    {
        let mut i: usize = 0;
        while i < self.tasks.len()
            invariant
                i <= self.tasks@.len(),
                forall|m: int|
                    0 <= m < i ==> !((#[trigger] self.tasks@[m]).report_id == report_id && self.tasks@[m].profile_id
                        == profile_id),
            decreases self.tasks@.len() - i,
        {
            if self.tasks[i].report_id == report_id && self.tasks[i].profile_id == profile_id {
                return Some(i);
            }
            i = i + 1;
        }
        None
    }

    /// Index of the user named `name`.
    pub fn find_username(&self, name: &str) -> (r: Option<usize>)
        ensures
            r matches Some(j) ==> j < self.users@.len() && self.users@[j as int].username@ == name@,
            r is None ==> !self.has_username(name@),
    {
        let key = name.to_owned();
        let mut j: usize = 0;
        while j < self.users.len()
            invariant
                key@ == name@,
                j <= self.users@.len(),
                forall|k: int| 0 <= k < j ==> (#[trigger] self.users@[k]).username@ != name@,
            decreases self.users@.len() - j,
        {
            if self.users[j].username == key {
                return Some(j);
            }
            j = j + 1;
        }
        None
    }

    /// Index of the user with identifier `id`.
    pub fn find_user_id(&self, id: i64) -> (r: Option<usize>)
        ensures
            r matches Some(j) ==> j < self.users@.len() && self.users@[j as int].id == id,
            r is None ==> !self.has_user_id(id),
    {
        let mut j: usize = 0;
        while j < self.users.len()
            invariant
                j <= self.users@.len(),
                forall|k: int| 0 <= k < j ==> (#[trigger] self.users@[k]).id != id,
            decreases self.users@.len() - j,
        {
            if self.users[j].id == id {
                return Some(j);
            }
            j = j + 1;
        }
        None
    }

    /// Index of the token row holding `tok`.
    pub fn find_token(&self, tok: &str) -> (r: Option<usize>)
        ensures
            r matches Some(i) ==> i < self.tokens@.len() && self.tokens@[i as int].token@ == tok@,
            r is None ==> !self.has_token(tok@),
    {
        let key = tok.to_owned();
        let mut i: usize = 0;
        while i < self.tokens.len()
            invariant
                key@ == tok@,
                i <= self.tokens@.len(),
                forall|k: int| 0 <= k < i ==> (#[trigger] self.tokens@[k]).token@ != tok@,
            decreases self.tokens@.len() - i,
        {
            if self.tokens[i].token == key {
                return Some(i);
            }
            i = i + 1;
        }
        None
    }

    /// Index of the profile whose machine name is `name`.
    pub fn find_profile(&self, name: &str) -> (r: Option<usize>)
        ensures
            r matches Some(k) ==> k < self.profiles@.len() && self.profiles@[k as int].machine_name@ == name@,
            r is None ==> !self.has_profile(name@),
    {
        let key = name.to_owned();
        let mut k: usize = 0;
        while k < self.profiles.len()
            invariant
                key@ == name@,
                k <= self.profiles@.len(),
                forall|m: int| 0 <= m < k ==> (#[trigger] self.profiles@[m]).machine_name@ != name@,
            decreases self.profiles@.len() - k,
        {
            if self.profiles[k].machine_name == key {
                return Some(k);
            }
            k = k + 1;
        }
        None
    }

    /// Index of the profile with identifier `id`.
    pub fn find_profile_id(&self, id: i64) -> (r: Option<usize>)
        ensures
            r matches Some(k) ==> k < self.profiles@.len() && self.profiles@[k as int].id == id,
            r is None ==> !self.has_profile_id(id),
    {
        let mut k: usize = 0;
        while k < self.profiles.len()
            invariant
                k <= self.profiles@.len(),
                forall|m: int| 0 <= m < k ==> (#[trigger] self.profiles@[m]).id != id,
            decreases self.profiles@.len() - k,
        {
            if self.profiles[k].id == id {
                return Some(k);
            }
            k = k + 1;
        }
        None
    }

    /// Index of the report with identifier `id`.
    pub fn find_report(&self, id: i64) -> (r: Option<usize>)
        ensures
            r matches Some(k) ==> k < self.reports@.len() && self.reports@[k as int].id == id,
            r is None ==> !self.has_report_id(id),
    {
        let mut k: usize = 0;
        while k < self.reports.len()
            invariant
                k <= self.reports@.len(),
                forall|m: int| 0 <= m < k ==> (#[trigger] self.reports@[m]).id != id,
            decreases self.reports@.len() - k,
        {
            if self.reports[k].id == id {
                return Some(k);
            }
            k = k + 1;
        }
        None
    }
}

} // verus!
