//! Creation of manager tokens: an admin asks for a fresh token with a
//! given state; the token is drawn at random and stored.

use rand::distr::Alphanumeric;
use rand::distr::SampleString;
use vstd::prelude::*;

verus! {

use vstd::string::StringExecFns;

use crate::authorization::Authorization;
use crate::managers::ManagerAuth;
use crate::managers::ManagerState;
use crate::managers::is_alnum_char;
use crate::managers::spec_has_token;
use crate::managers::spec_valid_token;

/// The payload: the stored encoding of the state the new token carries.
pub struct AddManager {
    pub state: u8,
}

/// The answer: the freshly issued token.
pub struct AddManagerResponse {
    pub token: String,
}

/// Relies on rand's `Alphanumeric` distribution with `SampleString`:
/// `sample_string` draws exactly `len` characters, each uniformly from
/// a-z, A-Z and 0-9. Nothing else is assumed of the drawn characters.
#[verifier::external_body]
pub fn random_string(len: usize) -> (s: String)
    ensures
        s@.len() == len as int,
        forall|i: int| 0 <= i < s@.len() ==> is_alnum_char(#[trigger] s@[i]),
{
    Alphanumeric.sample_string(&mut rand::rng(), len)
}

/// Issues a fresh manager token: only an admin may; the token is 32
/// random alphanumeric characters -- a valid token, so a later lookup of
/// it accepts. Success stores the token with the requested state; a drawn
/// token can collide with a stored one, in which case the registry is
/// unchanged and an error message comes back -- but on an empty registry
/// no draw can collide, so there success is owed.
pub fn add_manager(auth: &Authorization, manager: &mut ManagerAuth, data: &AddManager) -> (r:
    Result<AddManagerResponse, String>)
    requires
        old(manager).wf(),
    ensures
        final(manager).wf(),
        auth.state != ManagerState::Admin ==> r is Err && final(manager)@ == old(manager)@,
        r matches Ok(resp) ==> auth.state == ManagerState::Admin && !spec_has_token(
            old(manager)@,
            resp.token@,
        ) && final(manager)@ == old(manager)@.push(
            (resp.token, ManagerState::spec_from_u8(data.state).spec_to_u8()),
        ) && spec_valid_token(resp.token@),
        auth.state == ManagerState::Admin && r is Err ==> final(manager)@ == old(manager)@,
        auth.state == ManagerState::Admin && old(manager)@.len() == 0 ==> r is Ok,
{
    if auth.state != ManagerState::Admin {
        return Err(String::from_str("You must be an admin to perform this action."));
    }
    let token = random_string(32);
    match manager.add_token(&token, ManagerState::from_u8(data.state)) {
        Ok(_) => Ok(AddManagerResponse { token }),
        Err(_) => Err(String::from_str("Couldn't add token")),
    }
}

} // verus!
