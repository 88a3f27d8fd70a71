//! The capability check every request goes through: a request carries
//! tokens, and exactly one token mapped to an enabled state grants access.
//! The transport layer extracts the header values; the decision is here.

use vstd::prelude::*;

verus! {

use vstd::string::StringExecFns;

use crate::managers::ManagerAuth;
use crate::managers::ManagerResult;
use crate::managers::ManagerState;
use crate::managers::spec_has_token;
use crate::managers::spec_token_state;
use crate::managers::spec_valid_token;

/// A granted capability.
pub struct Authorization {
    pub state: ManagerState,
}

/// Why a request was turned away.
#[derive(Debug)]
pub enum AuthorizationError {
    InvalidToken,
    SomethingWentWrong,
    Other(String),
}

impl AuthorizationError {
    /// The error's message.
    pub fn message(&self) -> (m: String)
        ensures
            m@ == match *self {
                AuthorizationError::InvalidToken => "Invalid token"@,
                AuthorizationError::SomethingWentWrong => "Something went wrong"@,
                AuthorizationError::Other(s) => s@,
            },
    {
        match self {
            AuthorizationError::InvalidToken => String::from_str("Invalid token"),
            AuthorizationError::SomethingWentWrong => String::from_str("Something went wrong"),
            AuthorizationError::Other(s) => s.clone(),
        }
    }
}

/// Decides a request's capability from the authorization tokens it
/// carries: anything but exactly one token is invalid; the one token is
/// looked up; a token mapped to `Disabled` or `Unknown` is turned away;
/// a token the registry rejects surfaces its message.
pub fn authorize(auth: &ManagerAuth, tokens: &Vec<String>) -> (r: Result<
    Authorization,
    AuthorizationError,
>)
    requires
        auth.wf(),
    ensures
        tokens@.len() != 1 ==> (r matches Err(AuthorizationError::InvalidToken)),
        tokens@.len() == 1 ==> {
            let t = tokens@[0]@;
            if spec_valid_token(t) && spec_has_token(auth@, t) {
                let s = spec_token_state(auth@, t);
                if s == ManagerState::Disabled || s == ManagerState::Unknown {
                    r matches Err(AuthorizationError::InvalidToken)
                } else {
                    r matches Ok(a) && a.state == s
                }
            } else {
                r matches Err(AuthorizationError::Other(m)) && m@ == "Invalid token"@
            }
        },
{
    if tokens.len() != 1 {
        return Err(AuthorizationError::InvalidToken);
    }
    match auth.get_state(&tokens[0]) {
        ManagerResult::Accepted(state) => {
            if state == ManagerState::Disabled || state == ManagerState::Unknown {
                return Err(AuthorizationError::InvalidToken);
            }
            Ok(Authorization { state })
        },
        ManagerResult::Rejected(why) => Err(AuthorizationError::Other(String::from_str(why))),
    }
}

} // verus!
