//! The manager-token registry: opaque 32-character alphanumeric tokens,
//! each mapped to a capability state.

use vstd::prelude::*;

verus! {

use vstd::string::StrSliceExecFns;

use crate::StoreError;

/// Result of a manager lookup: the value, or a static message.
pub enum ManagerResult<T> {
    Accepted(T),
    Rejected(&'static str),
}

/// The capability a token carries.
#[derive(Clone, Copy, Debug, PartialEq, Eq, Structural)]
pub enum ManagerState {
    Disabled,
    Enabled,
    Admin,
    Unknown,
}

impl ManagerState {
    /// The stored encoding of a state.
    pub open spec fn spec_to_u8(self) -> u8 {
        match self {
            ManagerState::Disabled => 0,
            ManagerState::Enabled => 1,
            ManagerState::Admin => 2,
            ManagerState::Unknown => 3,
        }
    }

    /// Decodes a stored state; every byte above 2 reads as `Unknown`.
    pub open spec fn spec_from_u8(v: u8) -> ManagerState {
        if v == 0 {
            ManagerState::Disabled
        } else if v == 1 {
            ManagerState::Enabled
        } else if v == 2 {
            ManagerState::Admin
        } else {
            ManagerState::Unknown
        }
    }

    /// Encodes the state for storage.
    pub fn to_u8(self) -> (v: u8)
        ensures
            v == self.spec_to_u8(),
    {
        match self {
            ManagerState::Disabled => 0,
            ManagerState::Enabled => 1,
            ManagerState::Admin => 2,
            ManagerState::Unknown => 3,
        }
    }

    /// Decodes a stored state.
    pub fn from_u8(v: u8) -> (s: ManagerState)
        ensures
            s == ManagerState::spec_from_u8(v),
    {
        if v == 0 {
            ManagerState::Disabled
        } else if v == 1 {
            ManagerState::Enabled
        } else if v == 2 {
            ManagerState::Admin
        } else {
            ManagerState::Unknown
        }
    }
}

/// Where the token table and its two columns live in the backing store.
pub struct TableInfo {
    pub table_name: String,
    pub token_row_name: String,
    pub manager_state_row_name: String,
}

/// A character a token may consist of: ASCII letters and digits.
pub open spec fn is_alnum_char(c: char) -> bool {
    ('0' <= c && c <= '9') || ('A' <= c && c <= 'Z') || ('a' <= c && c <= 'z')
}

/// A valid token: exactly 32 characters, all alphanumeric.
pub open spec fn spec_valid_token(t: Seq<char>) -> bool {
    t.len() == 32 && forall|i: int| 0 <= i < t.len() ==> is_alnum_char(#[trigger] t[i])
}

/// The token `t` is stored.
pub open spec fn spec_has_token(rows: Seq<(String, u8)>, t: Seq<char>) -> bool {
    exists|i: int| 0 <= i < rows.len() && (#[trigger] rows[i]).0@ == t
}

/// The state stored for token `t`, assuming it is stored.
pub open spec fn spec_token_state(rows: Seq<(String, u8)>, t: Seq<char>) -> ManagerState {
    ManagerState::spec_from_u8(rows[choose|i: int| 0 <= i < rows.len() && (#[trigger] rows[i]).0@ == t].1)
}

/// The manager-token registry: each stored token is unique.
pub struct ManagerAuth {
    tokens: Vec<(String, u8)>,
}

impl View for ManagerAuth {
    type V = Seq<(String, u8)>;

    closed spec fn view(&self) -> Seq<(String, u8)> {
        self.tokens@
    }
}

impl ManagerAuth {
    /// The registry invariant: stored tokens are pairwise distinct.
    pub open spec fn wf(&self) -> bool {
        forall|i: int, j: int| #![trigger self@[i], self@[j]]
            0 <= i < j < self@.len() ==> self@[i].0@ != self@[j].0@
    }

    /// An empty registry.
    pub fn new() -> (s: Self)
        ensures
            s@ =~= Seq::<(String, u8)>::empty(),
            s.wf(),
    {
        ManagerAuth { tokens: Vec::new() }
    }

    /// Whether the given token is stored.
    fn contains_token(&self, token: &String) -> (b: bool)
        ensures
            b == spec_has_token(self@, token@),
    {
        let n = self.tokens.len();
        for i in 0..n
            invariant
                n == self@.len(),
                forall|k: int| 0 <= k < i ==> (#[trigger] self@[k]).0@ != token@,
        {
            if self.tokens[i].0 == *token {
                return true;
            }
        }
        false
    }

    /// Stores a fresh token with its state. A token that is already stored
    /// is a key collision and is reported as a conflict, with the registry
    /// unchanged.
    pub fn add_token(&mut self, token: &String, state: ManagerState) -> (r: Result<
        (),
        StoreError,
    >)
        requires
            old(self).wf(),
        ensures
            final(self).wf(),
            spec_has_token(old(self)@, token@) ==> r is Err && final(self)@ == old(self)@,
            !spec_has_token(old(self)@, token@) ==> r is Ok && final(self)@ == old(self)@.push(
                (*token, state.spec_to_u8()),
            ),
    {
        if self.contains_token(token) {
            return Err(StoreError::Conflict);
        }
        let ghost pre = self@;
        self.tokens.push((token.clone(), state.to_u8()));
        proof {
            assert(self@ =~= pre.push((*token, state.spec_to_u8())));
        }
        proof {
            assert forall|i: int, j: int| 0 <= i < j < self@.len() implies (
            #[trigger] self@[i]).0@ != (#[trigger] self@[j]).0@ by {
                if j == self@.len() - 1 {
                    assert(self@[i] == pre[i]);
                    assert(!spec_has_token(pre, token@));
                }
            }
        }
        Ok(())
    }

    /// Sets the state stored for a token; a token that is not stored is a
    /// no-op, as an `UPDATE` with no matching row is.
    pub fn update_state(&mut self, token: &String, state: ManagerState) -> (r: Result<
        (),
        StoreError,
    >)
        requires
            old(self).wf(),
        ensures
            r is Ok,
            final(self).wf(),
            final(self)@ =~= Seq::new(
                old(self)@.len(),
                |i: int|
                    if old(self)@[i].0@ == token@ {
                        (old(self)@[i].0, state.spec_to_u8())
                    } else {
                        old(self)@[i]
                    },
            ),
    {
        let ghost rows0 = self@;
        let n = self.tokens.len();
        for j in 0..n
            invariant
                n == self@.len(),
                self@.len() == rows0.len(),
                forall|k: int| #![trigger self@[k]]
                    0 <= k < j ==> self@[k] == (if rows0[k].0@ == token@ {
                        (rows0[k].0, state.spec_to_u8())
                    } else {
                        rows0[k]
                    }),
                forall|k: int| j <= k < rows0.len() ==> self@[k] == rows0[k],
        {
            if self.tokens[j].0 == *token {
                let t = self.tokens[j].0.clone();
                self.tokens[j] = (t, state.to_u8());
            }
        }
        proof {
            assert forall|i: int, j: int| 0 <= i < j < self@.len() implies (
            #[trigger] self@[i]).0@ != (#[trigger] self@[j]).0@ by {
                assert(self@[i].0@ == rows0[i].0@ && self@[j].0@ == rows0[j].0@);
            }
        }
        Ok(())
    }

    /// Looks a token up. Returns the stored state for a stored,
    /// well-formed token; a token that is not 32 alphanumeric characters,
    /// or is not stored, is reported as invalid.
    pub fn get_state(&self, token: &String) -> (r: ManagerResult<ManagerState>)
        requires
            self.wf(),
        ensures
            (spec_valid_token(token@) && spec_has_token(self@, token@)) <==> (r matches
            ManagerResult::Accepted(s) && s == spec_token_state(self@, token@)),
            !(spec_valid_token(token@) && spec_has_token(self@, token@)) ==> (r matches
            ManagerResult::Rejected(m) && m@ == "Invalid token"@),
    {
        if !valid_token(token) {
            return ManagerResult::Rejected("Invalid token");
        }
        let n = self.tokens.len();
        for i in 0..n
            invariant
                n == self@.len(),
                self.wf(),
                spec_valid_token(token@),
                forall|k: int| 0 <= k < i ==> (#[trigger] self@[k]).0@ != token@,
        {
            if self.tokens[i].0 == *token {
                proof {
                    assert((i as int) < self@.len() && self@[i as int].0@ == token@);
                    assert(spec_has_token(self@, token@));
                    let w = choose|w: int| 0 <= w < self@.len() && (#[trigger] self@[w]).0@
                        == token@;
                    if w < i as int {
                        assert(self@[w].0@ != self@[i as int].0@);
                        assert(false);
                    } else if w > i as int {
                        assert(self@[i as int].0@ != self@[w].0@);
                        assert(false);
                    }
                    assert(spec_token_state(self@, token@) == ManagerState::spec_from_u8(
                        self@[i as int].1,
                    ));
                }
                return ManagerResult::Accepted(ManagerState::from_u8(self.tokens[i].1));
            }
        }
        ManagerResult::Rejected("Invalid token")
    }
}

/// Checks that a token is exactly 32 alphanumeric characters.
pub fn valid_token(token: &String) -> (b: bool)
    ensures
        b == spec_valid_token(token@),
{
    let s: &str = token.as_str();
    let n = s.unicode_len();
    if n != 32 {
        return false;
    }
    for i in 0..n
        invariant
            n == s@.len(),
            s@ == token@,
            forall|k: int| 0 <= k < i ==> is_alnum_char(#[trigger] s@[k]),
    {
        let c = s.get_char(i);
        let u = c as u32;
        let ok = (48 <= u && u <= 57) || (65 <= u && u <= 90) || (97 <= u && u <= 122);
        if !ok {
            return false;
        }
    }
    true
}

} // verus!
