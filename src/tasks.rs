use vstd::prelude::*;
use crate::auth::resolve;
use crate::db::Database;
use crate::error::ApiError;
use crate::models::{task_views, tasks_of, Report, Task};

verus! {

/// The tasks of one report.
pub struct ListResponse {
    pub tasks: Vec<Task>,
}

/// A report named in a request path.
pub struct ByIdPath {
    pub report_id: i64,
}

/// Lists the tasks of the caller's report `path.report_id`. A report that is
/// missing and one of another user give the same error.
pub fn list(db: &Database, authorization: Option<&str>, path: &ByIdPath) -> (r: Result<ListResponse, ApiError>)
    requires
        db.wf(),
    ensures
        r == Err::<ListResponse, ApiError>(ApiError::Unauthenticated) <==> !db.authenticated(authorization),
        r == Err::<ListResponse, ApiError>(ApiError::Unauthorized) <==> db.authenticated(authorization)
            && !db.owns_report(db.caller(authorization).id, path.report_id),
        r is Ok || r == Err::<ListResponse, ApiError>(ApiError::Unauthenticated) || r == Err::<
            ListResponse,
            ApiError,
        >(ApiError::Unauthorized),
        r matches Ok(resp) ==> task_views(resp.tasks@) == tasks_of(db.tasks@, path.report_id),
{
    let user = match resolve(db, authorization) {
        Ok(u) => u,
        Err(e) => {
            return Err(e);
        },
    };
    let report = match Report::by_id_check_user(db, path.report_id, user.id) {
        Ok(rep) => rep,
        Err(_) => {
            return Err(ApiError::Unauthorized);
        },
    };
    Ok(ListResponse { tasks: Task::list_for_report(db, report.id) })
}

} // verus!
