//! The mathematical model of the engine.
//!
//! A state is three maps — role name to role record, account to the set of
//! role names it holds, and call fingerprint to the set of role names
//! permitted to run it — plus the two capacity limits. Every operation of
//! the engine is defined here as a total function from a state and its
//! inputs to the next state and the exact result; the executable code is
//! verified to match these functions step for step.

use crate::primitives::{
    AccountId, CallMetadata, DispatchPlan, Error, RoleDispatchOrigin, RoleInfo, RuntimeVersionHash,
};
use vstd::prelude::*;

verus! {

/// The abstract state of the engine.
#[verifier::ext_equal]
pub struct RbacView {
    /// Role name to the role's record.
    pub roles: Map<Seq<u8>, RoleInfo>,
    /// Account to the set of role names assigned to it.
    pub account_roles: Map<AccountId, Set<Seq<u8>>>,
    /// Call fingerprint to the set of role names permitted to run it.
    pub call_roles: Map<CallMetadata, Set<Seq<u8>>>,
    /// How many roles one call's permission set may hold.
    pub roles_per_call_limit: nat,
    /// How many roles one account's membership set may hold.
    pub roles_per_account_limit: nat,
}

/// The role names assigned to `who`; an account with no entry holds none.
pub open spec fn account_set(v: RbacView, who: AccountId) -> Set<Seq<u8>> {
    if v.account_roles.dom().contains(who) {
        v.account_roles[who]
    } else {
        Set::empty()
    }
}

/// The role names permitted to run `call`; a call with no entry has none.
pub open spec fn call_set(v: RbacView, call: CallMetadata) -> Set<Seq<u8>> {
    if v.call_roles.dom().contains(call) {
        v.call_roles[call]
    } else {
        Set::empty()
    }
}

/// The accounts whose membership set holds `name`.
pub open spec fn members_holding(v: RbacView, name: Seq<u8>) -> Set<AccountId> {
    v.account_roles.dom().filter(|a: AccountId| v.account_roles[a].contains(name))
}

/// The calls whose permission set holds `name`.
pub open spec fn calls_holding(v: RbacView, name: Seq<u8>) -> Set<CallMetadata> {
    v.call_roles.dom().filter(|c: CallMetadata| v.call_roles[c].contains(name))
}

/// How many membership and permission edges point at `name`.
pub open spec fn consumer_references(v: RbacView, name: Seq<u8>) -> nat {
    members_holding(v, name).len() + calls_holding(v, name).len()
}

/// Well-formedness: both indices hold finite, capacity-bounded sets, every
/// edge references a role that exists, and every role's consumer counter
/// equals the number of membership and permission edges that reference it.
pub open spec fn wf(v: RbacView) -> bool {
    &&& v.roles.dom().finite()
    &&& v.account_roles.dom().finite()
    &&& v.call_roles.dom().finite()
    &&& forall|a: AccountId| #[trigger]
        v.account_roles.dom().contains(a) ==> v.account_roles[a].finite()
            && v.account_roles[a].len() <= v.roles_per_account_limit
    &&& forall|c: CallMetadata| #[trigger]
        v.call_roles.dom().contains(c) ==> v.call_roles[c].finite() && v.call_roles[c].len()
            <= v.roles_per_call_limit
    &&& forall|a: AccountId, n: Seq<u8>|
        v.account_roles.dom().contains(a) && #[trigger] v.account_roles[a].contains(n)
            ==> v.roles.dom().contains(n)
    &&& forall|c: CallMetadata, n: Seq<u8>|
        v.call_roles.dom().contains(c) && #[trigger] v.call_roles[c].contains(n)
            ==> v.roles.dom().contains(n)
    &&& forall|n: Seq<u8>| #[trigger]
        v.roles.dom().contains(n) ==> v.roles[n].consumers_counter == consumer_references(v, n)
}

/// Creating a role: fails when the name is taken, else records a fresh role
/// stamped with the current version.
pub open spec fn create_role(
    v: RbacView,
    name: Seq<u8>,
    allow_filter_bypassing: bool,
    dispatch_origin: RoleDispatchOrigin,
    current_version: RuntimeVersionHash,
) -> (RbacView, Result<(), Error>) {
    if v.roles.dom().contains(name) {
        (v, Err(Error::RoleExists))
    } else {
        let info = RoleInfo {
            consumers_counter: 0,
            runtime_version: current_version,
            dispatch_origin,
            allow_filter_bypassing,
        };
        (RbacView { roles: v.roles.insert(name, info), ..v }, Ok(()))
    }
}

/// Removing a role: only an existing role with no remaining consumers goes;
/// the version stamp is never consulted.
pub open spec fn remove_role(v: RbacView, name: Seq<u8>) -> (RbacView, Result<(), Error>) {
    if !v.roles.dom().contains(name) {
        (v, Err(Error::RoleDoesNotExist))
    } else if v.roles[name].consumers_counter != 0 {
        (v, Err(Error::ConsumerRemaining))
    } else {
        (RbacView { roles: v.roles.remove(name), ..v }, Ok(()))
    }
}

/// Attaching a call to a role: the role must exist and still be current,
/// the edge must be new, the call's set must have room, and the role's
/// counter must be able to grow; then the edge and the count move together.
pub open spec fn add_call(
    v: RbacView,
    call: CallMetadata,
    name: Seq<u8>,
    current_version: RuntimeVersionHash,
) -> (RbacView, Result<(), Error>) {
    if !v.roles.dom().contains(name) {
        (v, Err(Error::RoleDoesNotExist))
    } else if v.roles[name].runtime_version != current_version {
        (v, Err(Error::RoleVersionObsolete))
    } else {
        let cset = call_set(v, call);
        if cset.contains(name) {
            (v, Err(Error::CallAlreadyAttachedToRole))
        } else if cset.len() >= v.roles_per_call_limit {
            (v, Err(Error::TooManyRolesPerCall))
        } else if v.roles[name].consumers_counter == u128::MAX {
            (v, Err(Error::TooManyConsumers))
        } else {
            let info = RoleInfo {
                consumers_counter: (v.roles[name].consumers_counter + 1) as u128,
                ..v.roles[name]
            };
            (
                RbacView {
                    call_roles: v.call_roles.insert(call, cset.insert(name)),
                    roles: v.roles.insert(name, info),
                    ..v
                },
                Ok(()),
            )
        }
    }
}

/// Detaching a call from a role: the role must exist, but an obsolete
/// version stamp is no obstacle — stale grants must stay removable.
pub open spec fn remove_call(v: RbacView, call: CallMetadata, name: Seq<u8>) -> (
    RbacView,
    Result<(), Error>,
) {
    if !v.roles.dom().contains(name) {
        (v, Err(Error::RoleDoesNotExist))
    } else {
        let cset = call_set(v, call);
        if !cset.contains(name) {
            (v, Err(Error::CallNotAttachedToRole))
        } else if v.roles[name].consumers_counter == 0 {
            (v, Err(Error::ConsumerRemaining))
        } else {
            let info = RoleInfo {
                consumers_counter: (v.roles[name].consumers_counter - 1) as u128,
                ..v.roles[name]
            };
            (
                RbacView {
                    call_roles: v.call_roles.insert(call, cset.remove(name)),
                    roles: v.roles.insert(name, info),
                    ..v
                },
                Ok(()),
            )
        }
    }
}

/// Assigning a role to an account: mirrors `add_call` over the membership
/// index, with the per-account capacity and its own error names.
pub open spec fn assign_role(
    v: RbacView,
    who: AccountId,
    name: Seq<u8>,
    current_version: RuntimeVersionHash,
) -> (RbacView, Result<(), Error>) {
    if !v.roles.dom().contains(name) {
        (v, Err(Error::RoleDoesNotExist))
    } else if v.roles[name].runtime_version != current_version {
        (v, Err(Error::RoleVersionObsolete))
    } else {
        let aset = account_set(v, who);
        if aset.contains(name) {
            (v, Err(Error::RoleAlreadyAssigned))
        } else if aset.len() >= v.roles_per_account_limit {
            (v, Err(Error::TooManyRolesPerAccount))
        } else if v.roles[name].consumers_counter == u128::MAX {
            (v, Err(Error::TooManyConsumers))
        } else {
            let info = RoleInfo {
                consumers_counter: (v.roles[name].consumers_counter + 1) as u128,
                ..v.roles[name]
            };
            (
                RbacView {
                    account_roles: v.account_roles.insert(who, aset.insert(name)),
                    roles: v.roles.insert(name, info),
                    ..v
                },
                Ok(()),
            )
        }
    }
}

/// Unassigning a role from an account: the role must exist, but as with
/// `remove_call` no version check stands in the way of cleanup.
pub open spec fn unassign_role(v: RbacView, who: AccountId, name: Seq<u8>) -> (
    RbacView,
    Result<(), Error>,
) {
    if !v.roles.dom().contains(name) {
        (v, Err(Error::RoleDoesNotExist))
    } else {
        let aset = account_set(v, who);
        if !aset.contains(name) {
            (v, Err(Error::MissingRole))
        } else if v.roles[name].consumers_counter == 0 {
            (v, Err(Error::ConsumerRemaining))
        } else {
            let info = RoleInfo {
                consumers_counter: (v.roles[name].consumers_counter - 1) as u128,
                ..v.roles[name]
            };
            (
                RbacView {
                    account_roles: v.account_roles.insert(who, aset.remove(name)),
                    roles: v.roles.insert(name, info),
                    ..v
                },
                Ok(()),
            )
        }
    }
}

/// Looking a role up and checking it against the current version stamp.
pub open spec fn check_role(v: RbacView, name: Seq<u8>, current_version: RuntimeVersionHash) -> Result<
    RoleInfo,
    Error,
> {
    if !v.roles.dom().contains(name) {
        Err(Error::RoleDoesNotExist)
    } else if v.roles[name].runtime_version != current_version {
        Err(Error::RoleVersionObsolete)
    } else {
        Ok(v.roles[name])
    }
}

/// Explicit role-scoped dispatch: the role must exist and be current, the
/// caller must hold it, and the call must be attached to it; then the plan
/// names the identity the role's policy resolves to, and whether the run
/// may bypass the host's call filter. When the role does not allow the
/// bypass, the plan directs a normal, filtered dispatch.
pub open spec fn dispatch_call_with_role(
    v: RbacView,
    who: AccountId,
    call: CallMetadata,
    name: Seq<u8>,
    current_version: RuntimeVersionHash,
) -> Result<DispatchPlan, Error> {
    if !v.roles.dom().contains(name) {
        Err(Error::RoleDoesNotExist)
    } else if v.roles[name].runtime_version != current_version {
        Err(Error::RoleVersionObsolete)
    } else if !account_set(v, who).contains(name) {
        Err(Error::MissingRole)
    } else if !call_set(v, call).contains(name) {
        Err(Error::CallNotAttachedToRole)
    } else {
        Ok(
            DispatchPlan {
                origin: v.roles[name].dispatch_origin.resolved_origin(who),
                bypass_filter: v.roles[name].allow_filter_bypassing,
            },
        )
    }
}

/// The admissible outcomes of implicit validation.
///
/// A call with no configured permissions is unrestricted; otherwise an
/// account with no roles is denied; otherwise, with no qualifying role in
/// common, it is denied; otherwise one arbitrary qualifying role is checked
/// against the current version stamp, and that single check decides. The
/// choice among qualifying roles is the implementation's, so a decision is
/// admissible exactly when some qualifying role's version check agrees
/// with it.
pub open spec fn validate_outcome(
    v: RbacView,
    call: CallMetadata,
    who: AccountId,
    current_version: RuntimeVersionHash,
    decision: bool,
) -> bool {
    let cset = call_set(v, call);
    let aset = account_set(v, who);
    let qualifying = cset.intersect(aset);
    if cset.len() == 0 {
        decision == true
    } else if aset.len() == 0 {
        decision == false
    } else if qualifying.len() == 0 {
        decision == false
    } else {
        exists|name: Seq<u8>| #[trigger]
            qualifying.contains(name) && decision == (v.roles.dom().contains(name)
                && v.roles[name].runtime_version == current_version)
    }
}

} // verus!
