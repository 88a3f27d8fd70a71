//! Changing the state a manager token carries. Admin-gated; a token that
//! is not stored is a no-op, as the underlying update is.

use vstd::prelude::*;

verus! {

use crate::authorization::Authorization;
use crate::managers::ManagerAuth;
use crate::managers::ManagerState;
use crate::server::ApiStatus;

/// The payload: the token to change and the stored encoding of its new
/// state.
pub struct ModifyManager {
    pub token: String,
    pub state: u8,
}

/// Sets the state of a stored token: only an admin may; every stored row
/// holding this token takes the new state, and a token that is not stored
/// changes nothing.
pub fn modify_manager(auth: &Authorization, manager: &mut ManagerAuth, data: &ModifyManager) -> (
    st: ApiStatus)
    requires
        old(manager).wf(),
    ensures
        final(manager).wf(),
        auth.state != ManagerState::Admin ==> st == ApiStatus::Unauthorized && final(manager)@
            == old(manager)@,
        auth.state == ManagerState::Admin ==> st == ApiStatus::Success && final(manager)@
            =~= Seq::new(
            old(manager)@.len(),
            |i: int|
                if old(manager)@[i].0@ == data.token@ {
                    (old(manager)@[i].0, ManagerState::spec_from_u8(data.state).spec_to_u8())
                } else {
                    old(manager)@[i]
                },
        ),
{
    if auth.state != ManagerState::Admin {
        return ApiStatus::Unauthorized;
    }
    let _updated = manager.update_state(&data.token, ManagerState::from_u8(data.state));
    ApiStatus::Success
}

} // verus!
