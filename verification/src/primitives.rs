//! Core data types of the engine: role records, dispatch policies, call
//! fingerprints, and the error taxonomy shared by every operation.

use vstd::prelude::*;

verus! {

/// An account identity, as the surrounding system names its accounts.
pub type AccountId = u64;

/// A pair of (module index, function index) fingerprinting one operation.
pub type ModuleCallIndex = (u64, u8);

/// An opaque fixed-width fingerprint of the system configuration, captured
/// from the version stamp provider. Only ever compared for equality.
pub type RuntimeVersionHash = u128;

/// Identifies which operation is being authorized or executed. Supplied by
/// the execution collaborator; the engine never builds one from a call body.
#[derive(Clone, Copy, Debug, PartialEq, Eq, Structural)]
pub struct CallMetadata {
    pub function_index: u8,
    pub pallet_index: u64,
}

impl CallMetadata {
    /// Returns the underlying (module index, function index) pair.
    pub fn into_inner(self) -> (r: ModuleCallIndex)
        ensures
            r == (self.pallet_index, self.function_index),
    {
        (self.pallet_index, self.function_index)
    }
}

impl From<ModuleCallIndex> for CallMetadata {
    fn from(value: ModuleCallIndex) -> (r: CallMetadata) {
        CallMetadata { function_index: value.1, pallet_index: value.0 }
    }
}

impl vstd::std_specs::convert::FromSpecImpl<ModuleCallIndex> for CallMetadata {
    open spec fn obeys_from_spec() -> bool {
        true
    }

    open spec fn from_spec(value: ModuleCallIndex) -> CallMetadata {
        CallMetadata { function_index: value.1, pallet_index: value.0 }
    }
}

/// How an operation executed under a role picks its execution identity.
#[derive(Clone, Copy, Debug, PartialEq, Eq, Structural)]
pub enum RoleDispatchOrigin {
    /// Execute as the account that asked for the dispatch.
    Regular,
    /// Execute as a fixed substitute account, whoever asked.
    SignedAs { who: AccountId },
    /// Execute with the elevated, administrative identity.
    Root,
}

/// The execution identity handed to the execution collaborator.
#[derive(Clone, Copy, Debug, PartialEq, Eq, Structural)]
pub enum ExecutionOrigin {
    Signed { who: AccountId },
    Root,
}

impl RoleDispatchOrigin {
    /// The identity a caller resolves to under this policy.
    pub open spec fn resolved_origin(self, caller: AccountId) -> ExecutionOrigin {
        match self {
            RoleDispatchOrigin::Regular => ExecutionOrigin::Signed { who: caller },
            RoleDispatchOrigin::SignedAs { who } => ExecutionOrigin::Signed { who },
            RoleDispatchOrigin::Root => ExecutionOrigin::Root,
        }
    }
}

/// What a successful role-scoped dispatch hands to the execution
/// collaborator: the identity to run as, and whether the run may bypass the
/// host's general call filter.
#[derive(Clone, Copy, Debug, PartialEq, Eq, Structural)]
pub struct DispatchPlan {
    pub origin: ExecutionOrigin,
    pub bypass_filter: bool,
}

/// Every way a management or dispatch operation can fail. Each error is
/// scoped to the one failed operation and leaves all state unchanged.
#[derive(Clone, Copy, Debug, PartialEq, Eq, Structural)]
pub enum Error {
    /// A role with the same name already exists.
    RoleExists,
    /// The named role was not found; it was removed or never created.
    RoleDoesNotExist,
    /// The call is already part of the role's permissions.
    CallAlreadyAttachedToRole,
    /// Adding this role would exceed the allowed number of roles per call.
    TooManyRolesPerCall,
    /// Adding this role would exceed the allowed number of roles per account.
    TooManyRolesPerAccount,
    /// The call is not part of the role's permissions.
    CallNotAttachedToRole,
    /// The role is already assigned to the account.
    RoleAlreadyAssigned,
    /// A role needed for the operation is not assigned to the account.
    MissingRole,
    /// Incrementing the role's consumer counter would overflow it.
    TooManyConsumers,
    /// The role is still referenced, or its counter would underflow.
    ConsumerRemaining,
    /// The role's version stamp no longer matches the current one.
    RoleVersionObsolete,
}

/// One role record: its live-reference count, the version stamp captured at
/// creation, its dispatch policy, and whether delegated execution under it
/// may bypass the host's call filter.
#[derive(Clone, Copy, Debug, PartialEq, Eq, Structural)]
pub struct RoleInfo {
    pub consumers_counter: u128,
    pub runtime_version: RuntimeVersionHash,
    pub dispatch_origin: RoleDispatchOrigin,
    pub allow_filter_bypassing: bool,
}

impl RoleInfo {
    /// A fresh role record at the given version stamp, with no consumers.
    pub fn new(
        runtime_version: RuntimeVersionHash,
        allow_filter_bypassing: bool,
        dispatch_origin: RoleDispatchOrigin,
    ) -> (r: RoleInfo)
        ensures
            r == (RoleInfo {
                consumers_counter: 0,
                runtime_version,
                dispatch_origin,
                allow_filter_bypassing,
            }),
    {
        RoleInfo { consumers_counter: 0, runtime_version, dispatch_origin, allow_filter_bypassing }
    }

    /// A role record with every field chosen freely.
    pub fn new_raw(
        consumers_counter: u128,
        runtime_version: RuntimeVersionHash,
        allow_filter_bypassing: bool,
        dispatch_origin: RoleDispatchOrigin,
    ) -> (r: RoleInfo)
        ensures
            r == (RoleInfo {
                consumers_counter,
                runtime_version,
                dispatch_origin,
                allow_filter_bypassing,
            }),
    {
        RoleInfo { consumers_counter, runtime_version, dispatch_origin, allow_filter_bypassing }
    }

    /// Adds one live reference. Fails, changing nothing, only when the
    /// counter is already at its maximum.
    pub fn inc_consumers(&mut self) -> (r: Result<(), Error>)
        ensures
            old(self).consumers_counter < u128::MAX ==> {
                &&& r == Ok::<(), Error>(())
                &&& *final(self) == (RoleInfo {
                    consumers_counter: (old(self).consumers_counter + 1) as u128,
                    ..(*old(self))
                })
            },
            old(self).consumers_counter == u128::MAX ==> {
                &&& r == Err::<(), Error>(Error::TooManyConsumers)
                &&& *final(self) == *old(self)
            },
    {
        if self.consumers_counter == u128::MAX {
            Err(Error::TooManyConsumers)
        } else {
            self.consumers_counter = self.consumers_counter + 1;
            Ok(())
        }
    }

    /// Drops one live reference. Fails, changing nothing, only when the
    /// counter is already zero: decrementing an unreferenced role is an
    /// internal-invariant violation, not a user error.
    pub fn dec_consumers(&mut self) -> (r: Result<(), Error>)
        ensures
            old(self).consumers_counter > 0 ==> {
                &&& r == Ok::<(), Error>(())
                &&& *final(self) == (RoleInfo {
                    consumers_counter: (old(self).consumers_counter - 1) as u128,
                    ..(*old(self))
                })
            },
            old(self).consumers_counter == 0 ==> {
                &&& r == Err::<(), Error>(Error::ConsumerRemaining)
                &&& *final(self) == *old(self)
            },
    {
        if self.consumers_counter == 0 {
            Err(Error::ConsumerRemaining)
        } else {
            self.consumers_counter = self.consumers_counter - 1;
            Ok(())
        }
    }

    /// Succeeds exactly when nothing references the role any more.
    pub fn check_if_unused(&self) -> (r: Result<(), Error>)
        ensures
            r == if self.consumers_counter == 0 {
                Ok::<(), Error>(())
            } else {
                Err::<(), Error>(Error::ConsumerRemaining)
            },
    {
        if self.consumers_counter == 0 {
            Ok(())
        } else {
            Err(Error::ConsumerRemaining)
        }
    }

    /// Succeeds exactly when the stored version stamp still matches the
    /// current one; an obsolete role fails the check.
    pub fn check_version(&self, runtime_version: RuntimeVersionHash) -> (r: Result<(), Error>)
        ensures
            r == if self.runtime_version == runtime_version {
                Ok::<(), Error>(())
            } else {
                Err::<(), Error>(Error::RoleVersionObsolete)
            },
    {
        if self.runtime_version == runtime_version {
            Ok(())
        } else {
            Err(Error::RoleVersionObsolete)
        }
    }

    /// Resolves the execution identity for `who` under this role's policy.
    pub fn infer_origin(&self, who: AccountId) -> (r: ExecutionOrigin)
        ensures
            r == self.dispatch_origin.resolved_origin(who),
    {
        match self.dispatch_origin {
            RoleDispatchOrigin::Regular => ExecutionOrigin::Signed { who },
            RoleDispatchOrigin::SignedAs { who: substitute } => ExecutionOrigin::Signed {
                who: substitute,
            },
            RoleDispatchOrigin::Root => ExecutionOrigin::Root,
        }
    }

    /// Reads the live-reference count.
    pub fn get_consumers_counter(&self) -> (r: u128)
        ensures
            r == self.consumers_counter,
    {
        self.consumers_counter
    }
}

} // verus!
