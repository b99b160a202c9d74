use vstd::prelude::*;
use crate::auth::resolve;
use crate::db::Database;
use crate::error::ApiError;
use crate::models::{profile_views, Profile};

verus! {

/// Every profile.
pub struct ListResponse {
    pub profiles: Vec<Profile>,
}

/// Lists the profiles; reading them still takes a valid token.
pub fn list(db: &Database, authorization: Option<&str>) -> (r: Result<ListResponse, ApiError>)
    requires
        db.wf(),
    ensures
        r is Ok <==> db.authenticated(authorization),
        r is Err ==> r == Err::<ListResponse, ApiError>(ApiError::Unauthenticated),
        r matches Ok(resp) ==> profile_views(resp.profiles@) == profile_views(db.profiles@),
{
    match resolve(db, authorization) {
        Ok(_) => Ok(ListResponse { profiles: Profile::list(db) }),
        Err(e) => Err(e),
    }
}

} // verus!
