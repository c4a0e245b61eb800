use vstd::prelude::*;
use crate::errors::Error;

verus! {

/// A governance action on a factory, together with its argument values.
///
/// Authorization is bound to the argument: evidence for
/// `SetFeeToSetter(bob)` never authorizes `SetFeeToSetter(carol)`.
#[derive(Clone, Copy, Debug, PartialEq, Eq, Structural)]
pub enum Action {
    SetFeeToSetter(u64),
    SetFeeTo(u64),
    SetFeesEnabled(bool),
}

/// The exact invocation being performed: the address of the contract that is
/// the target of the call, and the action with its arguments.
#[derive(Clone, Copy, Debug, PartialEq, Eq, Structural)]
pub struct Invocation {
    pub target: u64,
    pub action: Action,
}

/// Evidence that `identity` authorized exactly `invocation`. The
/// surrounding environment obtains it from whatever signature scheme it
/// uses; `require_authorization` accepts it only for that identity and that
/// invocation, so a stolen or replayed authorization for another argument
/// value or another target is rejected.
#[derive(Clone, Copy, Debug, PartialEq, Eq, Structural)]
pub struct Authorization {
    pub identity: u64,
    pub invocation: Invocation,
}

/// True when `auth` is evidence that `identity` authorized exactly
/// `invocation`: the identity matches and the invocation matches, target,
/// action and argument values included.
pub open spec fn authorizes(auth: Authorization, identity: u64, invocation: Invocation) -> bool {
    auth.identity == identity && auth.invocation == invocation
}

/// The authorization gate: passes exactly when `auth` binds `identity` to
/// this specific `invocation`. Callers run it before any state mutation, so
/// a failed check leaves no side effect behind.
pub fn require_authorization(identity: u64, invocation: Invocation, auth: &Authorization) -> (r: Result<(), Error>)
    ensures
        authorizes(*auth, identity, invocation) ==> r == Ok::<(), Error>(()),
        !authorizes(*auth, identity, invocation) ==> r == Err::<(), Error>(Error::Unauthorized),
{
    if auth.identity == identity && auth.invocation == invocation {
        Ok(())
    } else {
        Err(Error::Unauthorized)
    }
}

} // verus!
