//! A role-based access-control engine.
//!
//! Named roles tie accounts to the operations they may perform. The engine
//! keeps a registry of roles, an account-to-roles membership index and an
//! operation-to-roles permission index, and answers two questions: may an
//! account invoke an operation at all, and as which identity should an
//! operation run when an account asks to execute it under a named role.
//!
//! Every role carries a reference count of the membership and permission
//! edges pointing at it, so a role can only be removed once nothing uses it,
//! and a version stamp captured at creation time, so grants made under an
//! earlier system configuration can be cleaned up but not extended.

pub mod assoc;
pub mod laws;
pub mod model;
pub mod primitives;
pub mod role_set;
pub mod state;
pub mod traits;

pub use primitives::{
    AccountId, CallMetadata, DispatchPlan, Error, ExecutionOrigin, ModuleCallIndex,
    RoleDispatchOrigin, RoleInfo, RuntimeVersionHash,
};
pub use role_set::RoleSet;
pub use state::{GenesisConfig, Rbac};
pub use traits::GetCallMetadataIndecies;
