//! Types the boundary layer answers requests with, and the capability
//! lookup it calls.

use vstd::prelude::*;

verus! {

use crate::managers::ManagerAuth;
use crate::managers::ManagerResult;
use crate::managers::ManagerState;
use crate::managers::spec_has_token;
use crate::managers::spec_token_state;
use crate::managers::spec_valid_token;

/// The body of an HTTP answer: a status code and a message.
pub struct Response<T> {
    pub code: u16,
    pub msg: T,
}

/// How an operation answers: accepted, turned away for want of capability,
/// or rejected as malformed.
#[derive(Clone, Copy, Debug, PartialEq, Eq, Structural)]
pub enum ApiStatus {
    Success,
    Unauthorized,
    BadRequest,
}

/// Looks up the capability state a token carries.
pub fn get_state(auth: &ManagerAuth, token: &String) -> (r: ManagerResult<ManagerState>)
    requires
        auth.wf(),
    ensures
        (spec_valid_token(token@) && spec_has_token(auth@, token@)) <==> (r matches
        ManagerResult::Accepted(s) && s == spec_token_state(auth@, token@)),
        !(spec_valid_token(token@) && spec_has_token(auth@, token@)) ==> (r matches
        ManagerResult::Rejected(m) && m@ == "Invalid token"@),
{
    auth.get_state(token)
}

} // verus!
