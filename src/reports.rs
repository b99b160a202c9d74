use vstd::prelude::*;
use vstd::string::*;
use crate::auth::resolve;
use crate::crypto::{multihash_text, sha256_tag_text};
use crate::db::Database;
use crate::error::ApiError;
use crate::models::{initial_status, report_views, reports_of, tasks_of, Profile, Report, ReportView, Task, User};

verus! {

/// Largest accepted upload, in bytes (100 MiB).
pub const MAX_SIZE: usize = 104857600;

/// The pieces of `s` between commas, empty pieces included, as `str::split(',')` gives them.
pub open spec fn split_commas(s: Seq<char>) -> Seq<Seq<char>>
    decreases s.len(),
{
    if s.len() == 0 {
        seq![Seq::empty()]
    } else {
        let rest = split_commas(s.drop_last());
        if s.last() == ',' {
            rest.push(Seq::empty())
        } else {
            rest.update(rest.len() - 1, rest.last().push(s.last()))
        }
    }
}

pub open spec fn string_views(v: Seq<String>) -> Seq<Seq<char>> {
    v.map_values(|s: String| s@)
}

/// The values of `s` in order of first occurrence, each once.
pub open spec fn distinct_ids(s: Seq<i64>) -> Seq<i64>
    decreases s.len(),
{
    if s.len() == 0 {
        Seq::empty()
    } else {
        let d = distinct_ids(s.drop_last());
        if d.contains(s.last()) {
            d
        } else {
            d.push(s.last())
        }
    }
}

pub open spec fn bumped(n: u64) -> u64 {
    if n < u64::MAX {
        (n + 1) as u64
    } else {
        n
    }
}

impl Database {
    /// Every identifier in `names` picks a profile.
    pub open spec fn knows_profiles(self, names: Seq<Seq<char>>) -> bool {
        forall|i: int| 0 <= i < names.len() ==> self.names_profile(#[trigger] names[i])
    }

    pub open spec fn resolved_ids(self, names: Seq<Seq<char>>) -> Seq<i64> {
        Seq::new(names.len(), |i: int| self.profile_id_of(names[i]))
    }

    /// The profiles that a submission naming `names` fans out to, each once.
    pub open spec fn fan_out(self, names: Seq<Seq<char>>) -> Seq<i64> {
        distinct_ids(self.resolved_ids(names))
    }

    /// `after` is `self` with one new report `report_id` of `user_id` holding
    /// `payload` under its digest, created at `now`, one new task per profile of
    /// `fan_out(names)` in that order, and one more work-available signal.
    pub open spec fn submitted(
        self,
        after: Database,
        user_id: i64,
        payload: Seq<u8>,
        names: Seq<Seq<char>>,
        report_id: i64,
        now: i64,
    ) -> bool {
        let ids = self.fan_out(names);
        let base = self.tasks@.len();
        &&& after.reports@.len() == self.reports@.len() + 1
        &&& after.reports@.drop_last() == self.reports@
        &&& after.reports@.last().id == report_id
        &&& after.reports@.last().user_id == user_id
        &&& after.reports@.last().file_multihash@ == multihash_text(payload)
        &&& after.reports@.last().file_multihash@.subrange(0, 4) == sha256_tag_text()
        &&& after.reports@.last().created_when == now
        &&& after.reports@.last()@.file == Some(payload)
        &&& !self.has_report_id(report_id)
        &&& after.tasks@.len() == base + ids.len()
        &&& after.tasks@.subrange(0, base as int) == self.tasks@
        &&& forall|k: int|
            0 <= k < ids.len() ==> (#[trigger] after.tasks@[base + k]).report_id == report_id
                && after.tasks@[base + k].profile_id == ids[k] && after.tasks@[base + k].status@
                == initial_status() && after.tasks@[base + k].completed_when is None
                && after.tasks@[base + k].created_when == now
        &&& after.users@ == self.users@
        &&& after.tokens@ == self.tokens@
        &&& after.profiles@ == self.profiles@
        &&& after.work_signals == bumped(self.work_signals)
        &&& after.hash_cost == self.hash_cost
    }

    /// A profile picked by an identifier has its identifier in the table.
    pub proof fn lemma_profile_id_of(self, name: Seq<char>)
        requires
            self.names_profile(name),
        ensures
            self.has_profile_id(self.profile_id_of(name)),
    {
        if self.has_profile(name) {
            let k = self.profile_index_for(name);
            assert(0 <= k < self.profiles@.len());
            assert(self.profiles@[k].id == self.profile_id_for(name));
        }
    }
}

/// Splits a comma-separated profile list into its pieces.
pub fn split_profile_list(s: &str) -> (r: Vec<String>)
    ensures
        string_views(r@) == split_commas(s@),
{
    let n = s.unicode_len();
    let mut out: Vec<String> = Vec::new();
    let mut start: usize = 0;
    let mut i: usize = 0;
    proof {
        assert(s@.subrange(0, 0) =~= Seq::<char>::empty());
        assert(string_views(out@) =~= Seq::<Seq<char>>::empty());
        assert(string_views(out@).push(s@.subrange(0, 0)) =~= seq![Seq::<char>::empty()]);
    }
    while i < n
        invariant
            n == s@.len(),
            start <= i <= n,
            string_views(out@).push(s@.subrange(start as int, i as int)) == split_commas(s@.subrange(0, i as int)),
        decreases n - i,
    {
        let c = s.get_char(i);
        let ghost pre = s@.subrange(0, i + 1);
        let ghost prev = out@;
        proof {
            assert(pre.drop_last() =~= s@.subrange(0, i as int));
            assert(pre.last() == c);
        }
        if c == ',' {
            let piece = s.substring_char(start, i).to_owned();
            out.push(piece);
            proof {
                assert(string_views(out@) =~= string_views(prev).push(piece@));
                assert(s@.subrange(i + 1, i + 1) =~= Seq::<char>::empty());
            }
            start = i + 1;
        } else {
            proof {
                let rest = split_commas(pre.drop_last());
                assert(rest == string_views(prev).push(s@.subrange(start as int, i as int)));
                assert(s@.subrange(start as int, i + 1) =~= s@.subrange(start as int, i as int).push(c));
                assert(rest.update(rest.len() - 1, rest.last().push(c)) =~= string_views(prev).push(
                    s@.subrange(start as int, i + 1),
                ));
            }
        }
        i = i + 1;
    }
    let last = s.substring_char(start, n).to_owned();
    let ghost prev = out@;
    out.push(last);
    proof {
        assert(s@.subrange(0, n as int) =~= s@);
        assert(string_views(out@) =~= string_views(prev).push(last@));
    }
    out
}

fn contains_id(ids: &Vec<i64>, id: i64) -> (r: bool)
    ensures
        r == ids@.contains(id),
{
    let mut k: usize = 0;
    while k < ids.len()
        invariant
            k <= ids@.len(),
            forall|m: int| 0 <= m < k ==> ids@[m] != id,
        decreases ids@.len() - k,
    {
        if ids[k] == id {
            proof {
                assert(ids@[k as int] == id);
            }
            return true;
        }
        k = k + 1;
    }
    false
}

/// Appends `chunk` to an upload being received, refusing to grow past `MAX_SIZE`.
pub fn accept_chunk(body: &mut Vec<u8>, chunk: &[u8]) -> (r: Result<(), ApiError>)
    ensures
        r is Err <==> old(body)@.len() + chunk@.len() > MAX_SIZE,
        r is Err ==> r == Err::<(), ApiError>(ApiError::PayloadTooLarge) && final(body)@ == old(body)@,
        r is Ok ==> final(body)@ == old(body)@ + chunk@,
{
    if body.len() > MAX_SIZE || chunk.len() > MAX_SIZE - body.len() {
        return Err(ApiError::PayloadTooLarge);
    }
    let ghost start = body@;
    let mut k: usize = 0;
    while k < chunk.len()
        invariant
            k <= chunk@.len(),
            body@ == start + chunk@.subrange(0, k as int),
        decreases chunk@.len() - k,
    {
        body.push(chunk[k]);
        proof {
            assert(start + chunk@.subrange(0, k + 1) =~= (start + chunk@.subrange(0, k as int)).push(chunk@[k as int]));
        }
        k = k + 1;
    }
    proof {
        assert(chunk@.subrange(0, k as int) =~= chunk@);
    }
    Ok(())
}

/// Stores `payload` for `user` under its content digest and queues one task
/// per distinct profile that `profiles` picks, by machine name or identifier, all or nothing; raises one
/// work-available signal once everything is written, and none otherwise.
/// Every row is stamped with `now` (Unix seconds).
pub fn submit_report(db: &mut Database, user: &User, payload: Vec<u8>, profiles: &Vec<String>, now: i64) -> (r: Result<
    i64,
    ApiError,
>)
    requires
        old(db).wf(),
    ensures
        final(db).wf(),
        r == Err::<i64, ApiError>(ApiError::PayloadTooLarge) <==> payload@.len() > MAX_SIZE,
        r == Err::<i64, ApiError>(ApiError::Unauthenticated) <==> payload@.len() <= MAX_SIZE && !old(
            db,
        ).has_user_id(user.id),
        r == Err::<i64, ApiError>(ApiError::NotFound) <==> payload@.len() <= MAX_SIZE && old(db).has_user_id(
            user.id,
        ) && !old(db).knows_profiles(string_views(profiles@)),
        r == Err::<i64, ApiError>(ApiError::Internal) <==> payload@.len() <= MAX_SIZE && old(db).has_user_id(
            user.id,
        ) && old(db).knows_profiles(string_views(profiles@)) && old(db).next_id + 1 + old(db).fan_out(
            string_views(profiles@),
        ).len() > i64::MAX,
        r is Ok <==> payload@.len() <= MAX_SIZE && old(db).has_user_id(user.id) && old(db).knows_profiles(
            string_views(profiles@),
        ) && old(db).next_id + 1 + old(db).fan_out(string_views(profiles@)).len() <= i64::MAX,
        r is Err ==> final(db).same_rows(*old(db)),
        r matches Ok(id) ==> old(db).submitted(*final(db), user.id, payload@, string_views(profiles@), id, now),
{
    if payload.len() > MAX_SIZE {
        return Err(ApiError::PayloadTooLarge);
    }
    if db.find_user_id(user.id).is_none() {
        return Err(ApiError::Unauthenticated);
    }
    let ghost before = *db;
    let ghost names = string_views(profiles@);
    let ghost rs = before.resolved_ids(names);
    let mut ids: Vec<i64> = Vec::new();
    let mut i: usize = 0;
    proof {
        assert(rs.subrange(0, 0) =~= Seq::<i64>::empty());
    }
    while i < profiles.len()
        invariant
            *db == before,
            before == *old(db),
            before.wf(),
            payload@.len() <= MAX_SIZE,
            before.has_user_id(user.id),
            names == string_views(profiles@),
            rs == before.resolved_ids(names),
            i <= profiles@.len(),
            forall|k: int| 0 <= k < i ==> before.names_profile(#[trigger] names[k]),
            ids@ == distinct_ids(rs.subrange(0, i as int)),
            forall|m: int| 0 <= m < ids@.len() ==> before.has_profile_id(#[trigger] ids@[m]),
            forall|a: int, b: int| 0 <= a < b < ids@.len() ==> (#[trigger] ids@[a]) != (#[trigger] ids@[b]),
            ids@.len() <= i,
        decreases profiles@.len() - i,
    {
        let pid = match Profile::resolve_identifier(db, profiles[i].as_str()) {
            Ok(p) => p,
            Err(_) => {
                proof {
                    assert(names[i as int] == profiles@[i as int]@);
                }
                return Err(ApiError::NotFound);
            },
        };
        proof {
            assert(names[i as int] == profiles@[i as int]@);
            assert(rs.subrange(0, i + 1).drop_last() =~= rs.subrange(0, i as int));
            assert(rs.subrange(0, i + 1).last() == pid);
            before.lemma_profile_id_of(names[i as int]);
        }
        let ghost prev = ids@;
        if !contains_id(&ids, pid) {
            ids.push(pid);
            proof {
                assert forall|a: int, b: int| 0 <= a < b < ids@.len() implies (#[trigger] ids@[a]) != (
                #[trigger] ids@[b]) by {
                    if b == prev.len() {
                        assert(prev[a] == ids@[a]);
                    } else {
                        assert(prev[a] == ids@[a] && prev[b] == ids@[b]);
                    }
                }
            }
        }
        i = i + 1;
    }
    proof {
        assert(rs.subrange(0, i as int) =~= rs);
        assert(ids@ == before.fan_out(names));
    }
    let n = ids.len();
    if (n as u64) >= 9223372036854775806u64 || db.next_id > 9223372036854775806i64 - (n as i64) {
        return Err(ApiError::Internal);
    }
    let ghost pl = payload@;
    let report_id = match Report::create(db, user.id, payload, now) {
        Ok(id) => id,
        Err(_) => {
            proof {
                assert(false);
            }
            return Err(ApiError::Internal);
        },
    };
    let ghost base = before.tasks@.len();
    proof {
        assert(db.reports@[db.reports@.len() - 1].id == report_id);
        assert forall|m: int| 0 <= m < base implies (#[trigger] db.tasks@[m]).report_id != report_id by {
            assert(before.has_report_id(before.tasks@[m].report_id));
            let j = choose|j: int|
                0 <= j < before.reports@.len() && (#[trigger] before.reports@[j]).id == before.tasks@[m].report_id;
            assert(before.reports@[j].id < before.next_id);
        }
        assert(!before.has_report_id(report_id)) by {
            if before.has_report_id(report_id) {
                let j = choose|j: int| 0 <= j < before.reports@.len() && (#[trigger] before.reports@[j]).id == report_id;
                assert(before.reports@[j].id < before.next_id);
            }
        }
        assert(db.tasks@.subrange(0, base as int) =~= before.tasks@);
    }
    let mut k: usize = 0;
    while k < ids.len()
        invariant
            db.wf(),
            before.wf(),
            k <= ids@.len(),
            ids@ == before.fan_out(names),
            forall|m: int| 0 <= m < ids@.len() ==> before.has_profile_id(#[trigger] ids@[m]),
            forall|a: int, b: int| 0 <= a < b < ids@.len() ==> (#[trigger] ids@[a]) != (#[trigger] ids@[b]),
            base == before.tasks@.len(),
            db.tasks@.len() == base + k,
            db.tasks@.subrange(0, base as int) == before.tasks@,
            forall|m: int|
                0 <= m < k ==> (#[trigger] db.tasks@[base + m]).report_id == report_id && db.tasks@[base
                    + m].profile_id == ids@[m] && db.tasks@[base + m].status@ == initial_status()
                    && db.tasks@[base + m].completed_when is None && db.tasks@[base + m].created_when == now,
            forall|m: int| 0 <= m < base ==> (#[trigger] db.tasks@[m]).report_id != report_id,
            report_id == before.next_id,
            db.next_id == report_id + 1 + k,
            report_id + 1 + ids@.len() <= i64::MAX,
            !before.has_report_id(report_id),
            db.reports@.len() == before.reports@.len() + 1,
            db.reports@.drop_last() == before.reports@,
            db.reports@.last().id == report_id,
            db.reports@.last().user_id == user.id,
            db.reports@.last().file_multihash@ == multihash_text(pl),
            db.reports@.last().file_multihash@.subrange(0, 4) == sha256_tag_text(),
            db.reports@.last().created_when == now,
            db.reports@.last()@.file == Some(pl),
            db.users@ == before.users@,
            db.tokens@ == before.tokens@,
            db.profiles@ == before.profiles@,
            db.work_signals == before.work_signals,
            db.hash_cost == before.hash_cost,
        decreases ids@.len() - k,
    {
        let pid = ids[k];
        proof {
            assert(db.reports@[db.reports@.len() - 1].id == report_id);
            assert(db.has_report_id(report_id));
            let w = choose|w: int| 0 <= w < before.profiles@.len() && (#[trigger] before.profiles@[w]).id == pid;
            assert(db.profiles@[w].id == pid);
            assert(!db.has_task(report_id, pid)) by {
                if db.has_task(report_id, pid) {
                    let t = choose|t: int|
                        0 <= t < db.tasks@.len() && (#[trigger] db.tasks@[t]).report_id == report_id
                            && db.tasks@[t].profile_id == pid;
                    if t >= base {
                        let m = t - base;
                        assert(db.tasks@[base + m].profile_id == ids@[m]);
                        assert(ids@[m] != ids@[k as int]);
                    }
                }
            }
        }
        let ghost prev = *db;
        match Task::create(db, report_id, pid, now) {
            Ok(_) => {},
            Err(_) => {
                proof {
                    assert(false);
                }
                return Err(ApiError::Internal);
            },
        }
        proof {
            assert forall|m: int| 0 <= m < base implies (#[trigger] db.tasks@[m]).report_id != report_id by {
                assert(db.tasks@[m] == prev.tasks@[m]);
            }
            assert forall|m: int| 0 <= m < k + 1 implies (#[trigger] db.tasks@[base + m]).report_id == report_id
                && db.tasks@[base + m].profile_id == ids@[m] && db.tasks@[base + m].status@ == initial_status()
                && db.tasks@[base + m].completed_when is None && db.tasks@[base + m].created_when == now by {
                if m < k {
                    assert(db.tasks@[base + m] == prev.tasks@[base + m]);
                }
            }
            assert(db.tasks@.subrange(0, base as int) =~= prev.tasks@.subrange(0, base as int));
        }
        k = k + 1;
    }
    let ghost written = *db;
    if db.work_signals < u64::MAX {
        db.work_signals = db.work_signals + 1;
    }
    proof {
        Database::lemma_wf_same_rows(written, *db);
    }
    Ok(report_id)
}

/// The caller's reports.
pub struct ListResponse {
    pub reports: Vec<Report>,
}

/// The query of an upload: a comma-separated list of profile machine names
/// or identifiers.
pub struct CreateQuery {
    pub profiles: String,
}

/// The identifier of a newly stored report.
pub struct CreateResponse {
    pub report_id: i64,
}

/// A report named in a request path.
pub struct ByIdPath {
    pub report_id: i64,
}

impl Database {
    /// `after` is `self` with the payload of report `report_id` cleared and
    /// everything else, that report's digest included, left as it was.
    pub open spec fn file_discarded(self, after: Database, report_id: i64) -> bool {
        &&& exists|k: int|
            0 <= k < self.reports@.len() && self.reports@[k].id == report_id && after.reports@.len()
                == self.reports@.len() && (forall|m: int|
                0 <= m < self.reports@.len() && m != k ==> after.reports@[m] == self.reports@[m])
                && after.reports@[k]@ == (ReportView { file: None, ..self.reports@[k]@ })
        &&& after.users@ == self.users@
        &&& after.tokens@ == self.tokens@
        &&& after.profiles@ == self.profiles@
        &&& after.tasks@ == self.tasks@
        &&& after.work_signals == self.work_signals
        &&& after.hash_cost == self.hash_cost
    }
}

/// Lists the reports of the caller.
pub fn list(db: &Database, authorization: Option<&str>) -> (r: Result<ListResponse, ApiError>)
    requires
        db.wf(),
    ensures
        r is Ok <==> db.authenticated(authorization),
        r is Err ==> r == Err::<ListResponse, ApiError>(ApiError::Unauthenticated),
        r matches Ok(resp) ==> report_views(resp.reports@) == reports_of(
            db.reports@,
            db.caller(authorization).id,
        ),
{
    let user = match resolve(db, authorization) {
        Ok(u) => u,
        Err(e) => {
            return Err(e);
        },
    };
    Ok(ListResponse { reports: Report::list_for_user(db, user.id) })
}

/// Accepts an upload from the caller at `now` and fans it out to the
/// profiles that `query.profiles` names.
pub fn create(db: &mut Database, authorization: Option<&str>, query: &CreateQuery, payload: Vec<u8>, now: i64) -> (r: Result<
    CreateResponse,
    ApiError,
>)
    requires
        old(db).wf(),
    ensures
        final(db).wf(),
        r == Err::<CreateResponse, ApiError>(ApiError::Unauthenticated) <==> !old(db).authenticated(authorization),
        r == Err::<CreateResponse, ApiError>(ApiError::PayloadTooLarge) <==> old(db).authenticated(authorization)
            && payload@.len() > MAX_SIZE,
        r == Err::<CreateResponse, ApiError>(ApiError::NotFound) <==> old(db).authenticated(authorization)
            && payload@.len() <= MAX_SIZE && !old(db).knows_profiles(split_commas(query.profiles@)),
        r == Err::<CreateResponse, ApiError>(ApiError::Internal) <==> old(db).authenticated(authorization)
            && payload@.len() <= MAX_SIZE && old(db).knows_profiles(split_commas(query.profiles@)) && old(
            db,
        ).next_id + 1 + old(db).fan_out(split_commas(query.profiles@)).len() > i64::MAX,
        r is Ok <==> old(db).authenticated(authorization) && payload@.len() <= MAX_SIZE && old(db).knows_profiles(
            split_commas(query.profiles@),
        ) && old(db).next_id + 1 + old(db).fan_out(split_commas(query.profiles@)).len() <= i64::MAX,
        r is Err ==> final(db).same_rows(*old(db)),
        r matches Ok(resp) ==> old(db).submitted(
            *final(db),
            old(db).caller(authorization).id,
            payload@,
            split_commas(query.profiles@),
            resp.report_id,
            now,
        ),
{
    let user = match resolve(db, authorization) {
        Ok(u) => u,
        Err(e) => {
            return Err(e);
        },
    };
    let names = split_profile_list(query.profiles.as_str());
    match submit_report(db, &user, payload, &names, now) {
        Ok(report_id) => Ok(CreateResponse { report_id }),
        Err(e) => Err(e),
    }
}

/// The caller's report `path.report_id`.
pub fn by_id(db: &Database, authorization: Option<&str>, path: &ByIdPath) -> (r: Result<Report, ApiError>)
    requires
        db.wf(),
    ensures
        r == Err::<Report, ApiError>(ApiError::Unauthenticated) <==> !db.authenticated(authorization),
        r == Err::<Report, ApiError>(ApiError::NotFound) <==> db.authenticated(authorization) && !db.owns_report(
            db.caller(authorization).id,
            path.report_id,
        ),
        r is Ok || r == Err::<Report, ApiError>(ApiError::Unauthenticated) || r == Err::<Report, ApiError>(
            ApiError::NotFound,
        ),
        r matches Ok(rep) ==> rep.id == path.report_id && rep.user_id == db.caller(authorization).id && exists|
            k: int,
        | 0 <= k < db.reports@.len() && db.reports@[k]@ == rep@,
{
    let user = match resolve(db, authorization) {
        Ok(u) => u,
        Err(e) => {
            return Err(e);
        },
    };
    match Report::by_id_check_user(db, path.report_id, user.id) {
        Ok(rep) => Ok(rep),
        Err(_) => Err(ApiError::NotFound),
    }
}

/// Discards the payload of the caller's report `path.report_id`, keeping
/// the record and its digest. A report of another user counts as missing.
pub fn discard_file(db: &mut Database, authorization: Option<&str>, path: &ByIdPath) -> (r: Result<(), ApiError>)
    requires
        old(db).wf(),
    ensures
        final(db).wf(),
        r == Err::<(), ApiError>(ApiError::Unauthenticated) <==> !old(db).authenticated(authorization),
        r == Err::<(), ApiError>(ApiError::NotFound) <==> old(db).authenticated(authorization) && !old(
            db,
        ).owns_report(old(db).caller(authorization).id, path.report_id),
        r is Ok || r == Err::<(), ApiError>(ApiError::Unauthenticated) || r == Err::<(), ApiError>(
            ApiError::NotFound,
        ),
        r is Err ==> final(db).same_rows(*old(db)),
        r is Ok ==> old(db).file_discarded(*final(db), path.report_id),
{
    let user = match resolve(db, authorization) {
        Ok(u) => u,
        Err(e) => {
            return Err(e);
        },
    };
    match Report::discard_file_check_user(db, user.id, path.report_id) {
        Ok(()) => Ok(()),
        Err(_) => Err(ApiError::NotFound),
    }
}

/// Tasks past position `n` that belong to other reports leave the task list
/// of `report_id` as it was.
pub proof fn lemma_tasks_of_unrelated_suffix(s: Seq<Task>, n: int, report_id: i64)
    requires
        0 <= n <= s.len(),
        forall|k: int| n <= k < s.len() ==> (#[trigger] s[k]).report_id != report_id,
    ensures
        tasks_of(s, report_id) == tasks_of(s.subrange(0, n), report_id),
    decreases s.len() - n,
{
    if s.len() == n {
        assert(s.subrange(0, n) =~= s);
    } else {
        let t = s.drop_last();
        assert(s.last() == s[s.len() - 1]);
        assert forall|k: int| n <= k < t.len() implies (#[trigger] t[k]).report_id != report_id by {
            assert(t[k] == s[k]);
        }
        lemma_tasks_of_unrelated_suffix(t, n, report_id);
        assert(t.subrange(0, n) =~= s.subrange(0, n));
    }
}

/// Two submissions of the same bytes give two reports with distinct
/// identifiers and equal digests.
pub proof fn lemma_digest_determinism(
    d0: Database,
    d1: Database,
    d2: Database,
    user1: i64,
    user2: i64,
    payload: Seq<u8>,
    names1: Seq<Seq<char>>,
    names2: Seq<Seq<char>>,
    id1: i64,
    id2: i64,
    now1: i64,
    now2: i64,
)
    requires
        d0.submitted(d1, user1, payload, names1, id1, now1),
        d1.submitted(d2, user2, payload, names2, id2, now2),
    ensures
        id1 != id2,
        d2.reports@.len() == d0.reports@.len() + 2,
        d2.reports@[d2.reports@.len() - 2].id == id1,
        d2.reports@[d2.reports@.len() - 1].id == id2,
        d2.reports@[d2.reports@.len() - 2].file_multihash@ == d2.reports@[d2.reports@.len()
            - 1].file_multihash@,
{
    let k = d1.reports@.len() - 1;
    assert(d1.reports@[k].id == id1);
    assert(d1.has_report_id(id1));
    assert(d2.reports@[k] == d1.reports@[k]);
}

/// A later submission leaves an earlier one intact: the earlier report
/// row, and its task list, are unchanged, and every new task belongs to the
/// later report.
pub proof fn lemma_submissions_isolated(
    d0: Database,
    d1: Database,
    d2: Database,
    user1: i64,
    user2: i64,
    payload1: Seq<u8>,
    payload2: Seq<u8>,
    names1: Seq<Seq<char>>,
    names2: Seq<Seq<char>>,
    id1: i64,
    id2: i64,
    now1: i64,
    now2: i64,
)
    requires
        d0.submitted(d1, user1, payload1, names1, id1, now1),
        d1.submitted(d2, user2, payload2, names2, id2, now2),
    ensures
        id1 != id2,
        d2.reports@[d1.reports@.len() - 1] == d1.reports@[d1.reports@.len() - 1],
        tasks_of(d2.tasks@, id1) == tasks_of(d1.tasks@, id1),
        forall|k: int| d1.tasks@.len() <= k < d2.tasks@.len() ==> (#[trigger] d2.tasks@[k]).report_id == id2,
{
    let k = d1.reports@.len() - 1;
    assert(d1.reports@[k].id == id1);
    assert(d1.has_report_id(id1));
    let base = d1.tasks@.len();
    let ids = d1.fan_out(names2);
    assert forall|k: int| base <= k < d2.tasks@.len() implies (#[trigger] d2.tasks@[k]).report_id == id2 by {
        assert(d2.tasks@[base + (k - base)].report_id == id2);
    }
    lemma_tasks_of_unrelated_suffix(d2.tasks@, base as int, id1);
}

} // verus!
