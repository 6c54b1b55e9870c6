//! The engine state and its operations.
//!
//! `Rbac` owns the role registry and both indices, stored as vectors of
//! pairs with distinct keys. Every operation is verified against the
//! corresponding transition of the model: it returns exactly the result
//! the model names and leaves the state exactly where the model puts it,
//! and the well-formedness invariant — counters equal to edge counts,
//! sets bounded and duplicate-free, edges only to existing roles — is
//! preserved throughout.

use crate::assoc::{
    assoc_map, distinct_keys, lemma_assoc_map_dom, lemma_assoc_map_index, lemma_assoc_map_push,
    lemma_assoc_map_remove,
};
use crate::laws::{
    lemma_add_call_preserves_wf, lemma_assign_role_preserves_wf, lemma_create_role_preserves_wf,
    lemma_remove_call_preserves_wf, lemma_remove_role_preserves_wf,
    lemma_unassign_role_preserves_wf,
};
use crate::model;
use crate::model::RbacView;
use crate::primitives::{
    AccountId, CallMetadata, DispatchPlan, Error, ModuleCallIndex, RoleDispatchOrigin, RoleInfo,
    RuntimeVersionHash,
};
use crate::role_set::{name_eq, RoleSet};
use vstd::prelude::*;

verus! {

broadcast use vstd::set::group_set_axioms;

/// The key view of a stored role name.
pub open spec fn role_name_view() -> spec_fn(Vec<u8>) -> Seq<u8> {
    |n: Vec<u8>| n@
}

/// The value view of a stored role record.
pub open spec fn role_info_view() -> spec_fn(RoleInfo) -> RoleInfo {
    |r: RoleInfo| r
}

/// The key view of a stored account.
pub open spec fn account_key_view() -> spec_fn(AccountId) -> AccountId {
    |a: AccountId| a
}

/// The key view of a stored call fingerprint.
pub open spec fn call_key_view() -> spec_fn(CallMetadata) -> CallMetadata {
    |c: CallMetadata| c
}

/// The value view of a stored role-name set.
pub open spec fn role_set_view() -> spec_fn(RoleSet) -> Set<Seq<u8>> {
    |s: RoleSet| s@
}

/// The one-shot bootstrap configuration: roles to create, permission
/// edges and membership edges to seed, applied in that order at the
/// version current at bootstrap time.
pub struct GenesisConfig {
    /// Role seeds: name, whether delegated execution may bypass the call
    /// filter, and the dispatch policy.
    pub roles: Vec<(Vec<u8>, bool, RoleDispatchOrigin)>,
    /// Permission seeds: role name and call fingerprint.
    pub calls: Vec<(Vec<u8>, ModuleCallIndex)>,
    /// Membership seeds: role name and account.
    pub users: Vec<(Vec<u8>, AccountId)>,
}

/// Folding the role seeds through `create_role`, stopping at the first
/// failure.
pub open spec fn seed_roles(
    v: RbacView,
    seeds: Seq<(Vec<u8>, bool, RoleDispatchOrigin)>,
    current_version: RuntimeVersionHash,
) -> (RbacView, Result<(), Error>)
    decreases seeds.len(),
{
    if seeds.len() == 0 {
        (v, Ok(()))
    } else {
        let (v1, r1) = model::create_role(v, seeds[0].0@, seeds[0].1, seeds[0].2, current_version);
        if r1 is Err {
            (v1, r1)
        } else {
            seed_roles(v1, seeds.drop_first(), current_version)
        }
    }
}

/// Folding the permission seeds through `add_call`, stopping at the
/// first failure.
pub open spec fn seed_calls(
    v: RbacView,
    seeds: Seq<(Vec<u8>, ModuleCallIndex)>,
    current_version: RuntimeVersionHash,
) -> (RbacView, Result<(), Error>)
    decreases seeds.len(),
{
    if seeds.len() == 0 {
        (v, Ok(()))
    } else {
        let meta = CallMetadata { function_index: seeds[0].1.1, pallet_index: seeds[0].1.0 };
        let (v1, r1) = model::add_call(v, meta, seeds[0].0@, current_version);
        if r1 is Err {
            (v1, r1)
        } else {
            seed_calls(v1, seeds.drop_first(), current_version)
        }
    }
}

/// Folding the membership seeds through `assign_role`, stopping at the
/// first failure.
pub open spec fn seed_users(
    v: RbacView,
    seeds: Seq<(Vec<u8>, AccountId)>,
    current_version: RuntimeVersionHash,
) -> (RbacView, Result<(), Error>)
    decreases seeds.len(),
{
    if seeds.len() == 0 {
        (v, Ok(()))
    } else {
        let (v1, r1) = model::assign_role(v, seeds[0].1, seeds[0].0@, current_version);
        if r1 is Err {
            (v1, r1)
        } else {
            seed_users(v1, seeds.drop_first(), current_version)
        }
    }
}

/// The whole bootstrap: roles, then permission edges, then membership
/// edges, stopping at the first failure.
pub open spec fn seed_genesis(
    v: RbacView,
    roles: Seq<(Vec<u8>, bool, RoleDispatchOrigin)>,
    calls: Seq<(Vec<u8>, ModuleCallIndex)>,
    users: Seq<(Vec<u8>, AccountId)>,
    current_version: RuntimeVersionHash,
) -> (RbacView, Result<(), Error>) {
    let (v1, r1) = seed_roles(v, roles, current_version);
    if r1 is Err {
        (v1, r1)
    } else {
        let (v2, r2) = seed_calls(v1, calls, current_version);
        if r2 is Err {
            (v2, r2)
        } else {
            seed_users(v2, users, current_version)
        }
    }
}

/// Copies a role name out of a borrowed seed.
fn clone_name(name: &Vec<u8>) -> (r: Vec<u8>)
    ensures
        r@ == name@,
{
    vstd::slice::slice_to_vec(name.as_slice())
}

/// The role-based access-control engine: the role registry, the
/// membership index, the permission index, and the two capacity limits.
pub struct Rbac {
    roles: Vec<(Vec<u8>, RoleInfo)>,
    account_roles: Vec<(AccountId, RoleSet)>,
    call_roles: Vec<(CallMetadata, RoleSet)>,
    roles_per_call_limit: usize,
    roles_per_account_limit: usize,
}

impl View for Rbac {
    type V = RbacView;

    closed spec fn view(&self) -> RbacView {
        RbacView {
            roles: assoc_map(self.roles@, role_name_view(), role_info_view()),
            account_roles: assoc_map(self.account_roles@, account_key_view(), role_set_view()),
            call_roles: assoc_map(self.call_roles@, call_key_view(), role_set_view()),
            roles_per_call_limit: self.roles_per_call_limit as nat,
            roles_per_account_limit: self.roles_per_account_limit as nat,
        }
    }
}

impl Rbac {
    /// The storage discipline: keys are distinct and every stored set is
    /// duplicate-free.
    pub closed spec fn wf_rep(self) -> bool {
        &&& distinct_keys(self.roles@, role_name_view())
        &&& distinct_keys(self.account_roles@, account_key_view())
        &&& distinct_keys(self.call_roles@, call_key_view())
        &&& forall|i: int|
            0 <= i < self.account_roles@.len() ==> (#[trigger] self.account_roles@[i].1).wf()
        &&& forall|i: int|
            0 <= i < self.call_roles@.len() ==> (#[trigger] self.call_roles@[i].1).wf()
    }

    /// The engine invariant: sound storage, and a well-formed view.
    pub open spec fn inv(self) -> bool {
        self.wf_rep() && model::wf(self@)
    }

    /// An empty engine with the given capacity limits.
    pub fn new(roles_per_call_limit: usize, roles_per_account_limit: usize) -> (s: Rbac)
        ensures
            s.inv(),
            s@.roles == Map::<Seq<u8>, RoleInfo>::empty(),
            s@.account_roles == Map::<AccountId, Set<Seq<u8>>>::empty(),
            s@.call_roles == Map::<CallMetadata, Set<Seq<u8>>>::empty(),
            s@.roles_per_call_limit == roles_per_call_limit as nat,
            s@.roles_per_account_limit == roles_per_account_limit as nat,
    {
        let s = Rbac {
            roles: Vec::new(),
            account_roles: Vec::new(),
            call_roles: Vec::new(),
            roles_per_call_limit,
            roles_per_account_limit,
        };
        proof {
            assert(s@.roles.dom() =~= Set::<Seq<u8>>::empty());
            assert(s@.account_roles.dom() =~= Set::<AccountId>::empty());
            assert(s@.call_roles.dom() =~= Set::<CallMetadata>::empty());
        }
        s
    }

    /// Finds the registry entry for a role name.
    fn find_role(&self, name: &Vec<u8>) -> (r: Option<usize>)
        requires
            self.wf_rep(),
        ensures
            match r {
                Some(i) => {
                    &&& i < self.roles@.len()
                    &&& self.roles@[i as int].0@ == name@
                    &&& self@.roles.dom().contains(name@)
                    &&& self@.roles[name@] == self.roles@[i as int].1
                },
                None => !self@.roles.dom().contains(name@),
            },
    {
        let n = self.roles.len();
        let mut i: usize = 0;
        while i < n
            invariant
                self.wf_rep(),
                n == self.roles@.len(),
                i <= n,
                forall|j: int| 0 <= j < i ==> (#[trigger] self.roles@[j].0)@ != name@,
            decreases n - i,
        {
            if name_eq(&self.roles[i].0, name) {
                proof {
                    lemma_assoc_map_index(self.roles@, role_name_view(), role_info_view(), i as int);
                }
                return Some(i);
            }
            i += 1;
        }
        proof {
            lemma_assoc_map_dom(self.roles@, role_name_view(), role_info_view(), name@);
        }
        None
    }

    /// Finds the membership entry for an account.
    fn find_account(&self, who: &AccountId) -> (r: Option<usize>)
        requires
            self.wf_rep(),
        ensures
            match r {
                Some(i) => {
                    &&& i < self.account_roles@.len()
                    &&& self.account_roles@[i as int].0 == *who
                    &&& self@.account_roles.dom().contains(*who)
                    &&& self@.account_roles[*who] == self.account_roles@[i as int].1@
                    &&& model::account_set(self@, *who) == self.account_roles@[i as int].1@
                },
                None => {
                    &&& !self@.account_roles.dom().contains(*who)
                    &&& model::account_set(self@, *who) == Set::<Seq<u8>>::empty()
                },
            },
    {
        let n = self.account_roles.len();
        let mut i: usize = 0;
        while i < n
            invariant
                self.wf_rep(),
                n == self.account_roles@.len(),
                i <= n,
                forall|j: int| 0 <= j < i ==> (#[trigger] self.account_roles@[j].0) != *who,
            decreases n - i,
        {
            if self.account_roles[i].0 == *who {
                proof {
                    lemma_assoc_map_index(
                        self.account_roles@,
                        account_key_view(),
                        role_set_view(),
                        i as int,
                    );
                }
                return Some(i);
            }
            i += 1;
        }
        proof {
            lemma_assoc_map_dom(self.account_roles@, account_key_view(), role_set_view(), *who);
        }
        None
    }

    /// Finds the permission entry for a call fingerprint.
    fn find_call(&self, call: &CallMetadata) -> (r: Option<usize>)
        requires
            self.wf_rep(),
        ensures
            match r {
                Some(i) => {
                    &&& i < self.call_roles@.len()
                    &&& self.call_roles@[i as int].0 == *call
                    &&& self@.call_roles.dom().contains(*call)
                    &&& self@.call_roles[*call] == self.call_roles@[i as int].1@
                    &&& model::call_set(self@, *call) == self.call_roles@[i as int].1@
                },
                None => {
                    &&& !self@.call_roles.dom().contains(*call)
                    &&& model::call_set(self@, *call) == Set::<Seq<u8>>::empty()
                },
            },
    {
        let n = self.call_roles.len();
        let mut i: usize = 0;
        while i < n
            invariant
                self.wf_rep(),
                n == self.call_roles@.len(),
                i <= n,
                forall|j: int| 0 <= j < i ==> (#[trigger] self.call_roles@[j].0) != *call,
            decreases n - i,
        {
            if self.call_roles[i].0 == *call {
                proof {
                    lemma_assoc_map_index(
                        self.call_roles@,
                        call_key_view(),
                        role_set_view(),
                        i as int,
                    );
                }
                return Some(i);
            }
            i += 1;
        }
        proof {
            lemma_assoc_map_dom(self.call_roles@, call_key_view(), role_set_view(), *call);
        }
        None
    }

    /// Moves the consumer counter of the registry entry at `i` one step up
    /// or down, leaving everything else in place.
    fn bump_consumers(&mut self, i: usize, increment: bool)
        requires
            old(self).wf_rep(),
            i < old(self).roles@.len(),
            increment ==> old(self).roles@[i as int].1.consumers_counter < u128::MAX,
            !increment ==> old(self).roles@[i as int].1.consumers_counter > 0,
        ensures
            final (self).wf_rep(),
            final (self)@.roles == old(self)@.roles.insert(
                old(self).roles@[i as int].0@,
                (RoleInfo {
                    consumers_counter: if increment {
                        (old(self).roles@[i as int].1.consumers_counter + 1) as u128
                    } else {
                        (old(self).roles@[i as int].1.consumers_counter - 1) as u128
                    },
                    ..old(self).roles@[i as int].1
                }),
            ),
            final (self).account_roles@ == old(self).account_roles@,
            final (self).call_roles@ == old(self).call_roles@,
            final (self)@.account_roles == old(self)@.account_roles,
            final (self)@.call_roles == old(self)@.call_roles,
            final (self)@.roles_per_call_limit == old(self)@.roles_per_call_limit,
            final (self)@.roles_per_account_limit == old(self)@.roles_per_account_limit,
    {
        proof {
            lemma_assoc_map_index(self.roles@, role_name_view(), role_info_view(), i as int);
            lemma_assoc_map_remove(self.roles@, role_name_view(), role_info_view(), i as int);
        }
        let entry = self.roles.remove(i);
        let mut info = entry.1;
        if increment {
            info.consumers_counter = info.consumers_counter + 1;
        } else {
            info.consumers_counter = info.consumers_counter - 1;
        }
        proof {
            lemma_assoc_map_push(self.roles@, role_name_view(), role_info_view(), entry.0, info);
        }
        let key = entry.0;
        self.roles.push((key, info));
        proof {
            assert(self@.roles =~= old(self)@.roles.insert(
                old(self).roles@[i as int].0@,
                (RoleInfo {
                    consumers_counter: if increment {
                        (old(self).roles@[i as int].1.consumers_counter + 1) as u128
                    } else {
                        (old(self).roles@[i as int].1.consumers_counter - 1) as u128
                    },
                    ..old(self).roles@[i as int].1
                }),
            ));
        }
    }

    /// Adds a name to the membership entry at `j`, leaving everything
    /// else in place.
    fn account_insert_at(&mut self, j: usize, name: Vec<u8>)
        requires
            old(self).wf_rep(),
            j < old(self).account_roles@.len(),
            !old(self).account_roles@[j as int].1@.contains(name@),
        ensures
            final (self).wf_rep(),
            final (self)@.account_roles == old(self)@.account_roles.insert(
                old(self).account_roles@[j as int].0,
                old(self).account_roles@[j as int].1@.insert(name@),
            ),
            final (self).roles@ == old(self).roles@,
            final (self).call_roles@ == old(self).call_roles@,
            final (self)@.roles == old(self)@.roles,
            final (self)@.call_roles == old(self)@.call_roles,
            final (self)@.roles_per_call_limit == old(self)@.roles_per_call_limit,
            final (self)@.roles_per_account_limit == old(self)@.roles_per_account_limit,
    {
        proof {
            lemma_assoc_map_index(self.account_roles@, account_key_view(), role_set_view(), j as int);
            lemma_assoc_map_remove(self.account_roles@, account_key_view(), role_set_view(), j as int);
        }
        let ghost mid = self.account_roles@.remove(j as int);
        let mut entry = self.account_roles.remove(j);
        entry.1.insert(name);
        proof {
            lemma_assoc_map_push(
                self.account_roles@,
                account_key_view(),
                role_set_view(),
                entry.0,
                entry.1,
            );
        }
        let ghost new_entry = entry;
        self.account_roles.push(entry);
        proof {
            assert forall|k: int|
                0 <= k < self.account_roles@.len() implies (#[trigger] self.account_roles@[k].1).wf() by {
                if k < self.account_roles@.len() - 1 {
                    let k0 = if k < j as int { k } else { k + 1 };
                    assert(self.account_roles@[k] == old(self).account_roles@[k0]);
                } else {
                    assert(self.account_roles@[k] == new_entry);
                }
            }
            assert(self@.account_roles =~= old(self)@.account_roles.insert(
                old(self).account_roles@[j as int].0,
                old(self).account_roles@[j as int].1@.insert(name@),
            ));
        }
    }

    /// Removes a name from the membership entry at `j`, leaving
    /// everything else in place.
    fn account_remove_at(&mut self, j: usize, name: &Vec<u8>)
        requires
            old(self).wf_rep(),
            j < old(self).account_roles@.len(),
            old(self).account_roles@[j as int].1@.contains(name@),
        ensures
            final (self).wf_rep(),
            final (self)@.account_roles == old(self)@.account_roles.insert(
                old(self).account_roles@[j as int].0,
                old(self).account_roles@[j as int].1@.remove(name@),
            ),
            final (self).roles@ == old(self).roles@,
            final (self).call_roles@ == old(self).call_roles@,
            final (self)@.roles == old(self)@.roles,
            final (self)@.call_roles == old(self)@.call_roles,
            final (self)@.roles_per_call_limit == old(self)@.roles_per_call_limit,
            final (self)@.roles_per_account_limit == old(self)@.roles_per_account_limit,
    {
        proof {
            lemma_assoc_map_index(self.account_roles@, account_key_view(), role_set_view(), j as int);
            lemma_assoc_map_remove(self.account_roles@, account_key_view(), role_set_view(), j as int);
        }
        let mut entry = self.account_roles.remove(j);
        entry.1.remove(name);
        proof {
            lemma_assoc_map_push(
                self.account_roles@,
                account_key_view(),
                role_set_view(),
                entry.0,
                entry.1,
            );
        }
        let ghost new_entry = entry;
        self.account_roles.push(entry);
        proof {
            assert forall|k: int|
                0 <= k < self.account_roles@.len() implies (#[trigger] self.account_roles@[k].1).wf() by {
                if k < self.account_roles@.len() - 1 {
                    let k0 = if k < j as int { k } else { k + 1 };
                    assert(self.account_roles@[k] == old(self).account_roles@[k0]);
                } else {
                    assert(self.account_roles@[k] == new_entry);
                }
            }
            assert(self@.account_roles =~= old(self)@.account_roles.insert(
                old(self).account_roles@[j as int].0,
                old(self).account_roles@[j as int].1@.remove(name@),
            ));
        }
    }

    /// Adds a name to the permission entry at `j`, leaving everything
    /// else in place.
    fn call_insert_at(&mut self, j: usize, name: Vec<u8>)
        requires
            old(self).wf_rep(),
            j < old(self).call_roles@.len(),
            !old(self).call_roles@[j as int].1@.contains(name@),
        ensures
            final (self).wf_rep(),
            final (self)@.call_roles == old(self)@.call_roles.insert(
                old(self).call_roles@[j as int].0,
                old(self).call_roles@[j as int].1@.insert(name@),
            ),
            final (self).roles@ == old(self).roles@,
            final (self).account_roles@ == old(self).account_roles@,
            final (self)@.roles == old(self)@.roles,
            final (self)@.account_roles == old(self)@.account_roles,
            final (self)@.roles_per_call_limit == old(self)@.roles_per_call_limit,
            final (self)@.roles_per_account_limit == old(self)@.roles_per_account_limit,
    {
        proof {
            lemma_assoc_map_index(self.call_roles@, call_key_view(), role_set_view(), j as int);
            lemma_assoc_map_remove(self.call_roles@, call_key_view(), role_set_view(), j as int);
        }
        let mut entry = self.call_roles.remove(j);
        entry.1.insert(name);
        proof {
            lemma_assoc_map_push(
                self.call_roles@,
                call_key_view(),
                role_set_view(),
                entry.0,
                entry.1,
            );
        }
        let ghost new_entry = entry;
        self.call_roles.push(entry);
        proof {
            assert forall|k: int|
                0 <= k < self.call_roles@.len() implies (#[trigger] self.call_roles@[k].1).wf() by {
                if k < self.call_roles@.len() - 1 {
                    let k0 = if k < j as int { k } else { k + 1 };
                    assert(self.call_roles@[k] == old(self).call_roles@[k0]);
                } else {
                    assert(self.call_roles@[k] == new_entry);
                }
            }
            assert(self@.call_roles =~= old(self)@.call_roles.insert(
                old(self).call_roles@[j as int].0,
                old(self).call_roles@[j as int].1@.insert(name@),
            ));
        }
    }

    /// Removes a name from the permission entry at `j`, leaving
    /// everything else in place.
    fn call_remove_at(&mut self, j: usize, name: &Vec<u8>)
        requires
            old(self).wf_rep(),
            j < old(self).call_roles@.len(),
            old(self).call_roles@[j as int].1@.contains(name@),
        ensures
            final (self).wf_rep(),
            final (self)@.call_roles == old(self)@.call_roles.insert(
                old(self).call_roles@[j as int].0,
                old(self).call_roles@[j as int].1@.remove(name@),
            ),
            final (self).roles@ == old(self).roles@,
            final (self).account_roles@ == old(self).account_roles@,
            final (self)@.roles == old(self)@.roles,
            final (self)@.account_roles == old(self)@.account_roles,
            final (self)@.roles_per_call_limit == old(self)@.roles_per_call_limit,
            final (self)@.roles_per_account_limit == old(self)@.roles_per_account_limit,
    {
        proof {
            lemma_assoc_map_index(self.call_roles@, call_key_view(), role_set_view(), j as int);
            lemma_assoc_map_remove(self.call_roles@, call_key_view(), role_set_view(), j as int);
        }
        let mut entry = self.call_roles.remove(j);
        entry.1.remove(name);
        proof {
            lemma_assoc_map_push(
                self.call_roles@,
                call_key_view(),
                role_set_view(),
                entry.0,
                entry.1,
            );
        }
        let ghost new_entry = entry;
        self.call_roles.push(entry);
        proof {
            assert forall|k: int|
                0 <= k < self.call_roles@.len() implies (#[trigger] self.call_roles@[k].1).wf() by {
                if k < self.call_roles@.len() - 1 {
                    let k0 = if k < j as int { k } else { k + 1 };
                    assert(self.call_roles@[k] == old(self).call_roles@[k0]);
                } else {
                    assert(self.call_roles@[k] == new_entry);
                }
            }
            assert(self@.call_roles =~= old(self)@.call_roles.insert(
                old(self).call_roles@[j as int].0,
                old(self).call_roles@[j as int].1@.remove(name@),
            ));
        }
    }

    /// Creates a new role under a name not yet taken, stamped with the
    /// current version and starting with no consumers.
    pub fn create_role(
        &mut self,
        role_name: Vec<u8>,
        allow_filter_bypassing: bool,
        allow_dispatch_as: RoleDispatchOrigin,
        current_version: RuntimeVersionHash,
    ) -> (r: Result<(), Error>)
        requires
            old(self).inv(),
        ensures
            final (self).inv(),
            ({
                let (v2, res) = model::create_role(
                    old(self)@,
                    role_name@,
                    allow_filter_bypassing,
                    allow_dispatch_as,
                    current_version,
                );
                final (self)@ == v2 && r == res
            }),
    {
        proof {
            lemma_create_role_preserves_wf(
                self@,
                role_name@,
                allow_filter_bypassing,
                allow_dispatch_as,
                current_version,
            );
        }
        match self.find_role(&role_name) {
            Some(_) => Err(Error::RoleExists),
            None => {
                let info = RoleInfo::new(current_version, allow_filter_bypassing, allow_dispatch_as);
                proof {
                    lemma_assoc_map_push(
                        self.roles@,
                        role_name_view(),
                        role_info_view(),
                        role_name,
                        info,
                    );
                }
                self.roles.push((role_name, info));
                proof {
                    let (v2, res) = model::create_role(
                        old(self)@,
                        role_name@,
                        allow_filter_bypassing,
                        allow_dispatch_as,
                        current_version,
                    );
                    assert(self@ =~= v2);
                }
                Ok(())
            },
        }
    }

    /// Removes a role outright; only an existing role that nothing
    /// references any more may go.
    pub fn remove_role(&mut self, role_name: &Vec<u8>) -> (r: Result<(), Error>)
        requires
            old(self).inv(),
        ensures
            final (self).inv(),
            ({
                let (v2, res) = model::remove_role(old(self)@, role_name@);
                final (self)@ == v2 && r == res
            }),
    {
        proof {
            lemma_remove_role_preserves_wf(self@, role_name@);
        }
        match self.find_role(role_name) {
            None => Err(Error::RoleDoesNotExist),
            Some(i) => {
                let info = self.roles[i].1;
                if info.consumers_counter != 0 {
                    Err(Error::ConsumerRemaining)
                } else {
                    proof {
                        lemma_assoc_map_remove(
                            self.roles@,
                            role_name_view(),
                            role_info_view(),
                            i as int,
                        );
                    }
                    self.roles.remove(i);
                    proof {
                        let (v2, res) = model::remove_role(old(self)@, role_name@);
                        assert(self@ =~= v2);
                    }
                    Ok(())
                }
            },
        }
    }
    /// Assigns a role to an account. The role must exist and still be
    /// current; the edge must be new; the account's set must have room;
    /// then the edge and the role's consumer counter move together.
    pub fn assign_role(
        &mut self,
        who: AccountId,
        role_name: Vec<u8>,
        current_version: RuntimeVersionHash,
    ) -> (r: Result<(), Error>)
        requires
            old(self).inv(),
        ensures
            final (self).inv(),
            ({
                let (v2, res) = model::assign_role(old(self)@, who, role_name@, current_version);
                final (self)@ == v2 && r == res
            }),
    {
        proof {
            lemma_assign_role_preserves_wf(self@, who, role_name@, current_version);
        }
        let i = match self.find_role(&role_name) {
            None => {
                return Err(Error::RoleDoesNotExist);
            },
            Some(i) => i,
        };
        let info = self.roles[i].1;
        if info.runtime_version != current_version {
            return Err(Error::RoleVersionObsolete);
        }
        match self.find_account(&who) {
            Some(j) => {
                if self.account_roles[j].1.contains(&role_name) {
                    return Err(Error::RoleAlreadyAssigned);
                }
                if self.account_roles[j].1.len() >= self.roles_per_account_limit {
                    return Err(Error::TooManyRolesPerAccount);
                }
                if info.consumers_counter == u128::MAX {
                    return Err(Error::TooManyConsumers);
                }
                self.account_insert_at(j, role_name);
                self.bump_consumers(i, true);
                proof {
                    let (v2, res) = model::assign_role(
                        old(self)@,
                        who,
                        role_name@,
                        current_version,
                    );
                    assert(self@ =~= v2);
                }
                Ok(())
            },
            None => {
                if self.roles_per_account_limit == 0 {
                    return Err(Error::TooManyRolesPerAccount);
                }
                if info.consumers_counter == u128::MAX {
                    return Err(Error::TooManyConsumers);
                }
                let mut fresh = RoleSet::new();
                fresh.insert(role_name);
                proof {
                    lemma_assoc_map_push(
                        self.account_roles@,
                        account_key_view(),
                        role_set_view(),
                        who,
                        fresh,
                    );
                }
                let ghost new_entry = (who, fresh);
                self.account_roles.push((who, fresh));
                proof {
                    assert forall|k: int|
                        0 <= k < self.account_roles@.len() implies (#[trigger] self.account_roles@[
                        k
                    ].1).wf() by {
                        if k < self.account_roles@.len() - 1 {
                            assert(self.account_roles@[k] == old(self).account_roles@[k]);
                        } else {
                            assert(self.account_roles@[k] == new_entry);
                        }
                    }
                }
                self.bump_consumers(i, true);
                proof {
                    let (v2, res) = model::assign_role(
                        old(self)@,
                        who,
                        role_name@,
                        current_version,
                    );
                    assert(model::account_set(old(self)@, who).insert(role_name@) =~= Set::<
                        Seq<u8>,
                    >::empty().insert(role_name@));
                    assert(self@ =~= v2);
                }
                Ok(())
            },
        }
    }

    /// Unassigns a role from an account. The role must exist and the edge
    /// must be present; an obsolete version stamp is no obstacle — stale
    /// grants must stay revocable. The edge and the role's consumer
    /// counter move together.
    pub fn unassign_role(&mut self, who: AccountId, role_name: &Vec<u8>) -> (r: Result<(), Error>)
        requires
            old(self).inv(),
        ensures
            final (self).inv(),
            ({
                let (v2, res) = model::unassign_role(old(self)@, who, role_name@);
                final (self)@ == v2 && r == res
            }),
    {
        proof {
            lemma_unassign_role_preserves_wf(self@, who, role_name@);
        }
        let i = match self.find_role(role_name) {
            None => {
                return Err(Error::RoleDoesNotExist);
            },
            Some(i) => i,
        };
        let j = match self.find_account(&who) {
            None => {
                return Err(Error::MissingRole);
            },
            Some(j) => j,
        };
        if !self.account_roles[j].1.contains(role_name) {
            return Err(Error::MissingRole);
        }
        let info = self.roles[i].1;
        if info.consumers_counter == 0 {
            return Err(Error::ConsumerRemaining);
        }
        self.account_remove_at(j, role_name);
        self.bump_consumers(i, false);
        proof {
            let (v2, res) = model::unassign_role(old(self)@, who, role_name@);
            assert(self@ =~= v2);
        }
        Ok(())
    }
    /// Attaches a call to a role, permitting accounts holding the role to
    /// run it. The role must exist and still be current; the edge must be
    /// new; the call's set must have room; then the edge and the role's
    /// consumer counter move together.
    pub fn add_call(
        &mut self,
        call: CallMetadata,
        role_name: Vec<u8>,
        current_version: RuntimeVersionHash,
    ) -> (r: Result<(), Error>)
        requires
            old(self).inv(),
        ensures
            final (self).inv(),
            ({
                let (v2, res) = model::add_call(old(self)@, call, role_name@, current_version);
                final (self)@ == v2 && r == res
            }),
    {
        proof {
            lemma_add_call_preserves_wf(self@, call, role_name@, current_version);
        }
        let i = match self.find_role(&role_name) {
            None => {
                return Err(Error::RoleDoesNotExist);
            },
            Some(i) => i,
        };
        let info = self.roles[i].1;
        if info.runtime_version != current_version {
            return Err(Error::RoleVersionObsolete);
        }
        match self.find_call(&call) {
            Some(j) => {
                if self.call_roles[j].1.contains(&role_name) {
                    return Err(Error::CallAlreadyAttachedToRole);
                }
                if self.call_roles[j].1.len() >= self.roles_per_call_limit {
                    return Err(Error::TooManyRolesPerCall);
                }
                if info.consumers_counter == u128::MAX {
                    return Err(Error::TooManyConsumers);
                }
                self.call_insert_at(j, role_name);
                self.bump_consumers(i, true);
                proof {
                    let (v2, res) = model::add_call(old(self)@, call, role_name@, current_version);
                    assert(self@ =~= v2);
                }
                Ok(())
            },
            None => {
                if self.roles_per_call_limit == 0 {
                    return Err(Error::TooManyRolesPerCall);
                }
                if info.consumers_counter == u128::MAX {
                    return Err(Error::TooManyConsumers);
                }
                let mut fresh = RoleSet::new();
                fresh.insert(role_name);
                proof {
                    lemma_assoc_map_push(
                        self.call_roles@,
                        call_key_view(),
                        role_set_view(),
                        call,
                        fresh,
                    );
                }
                let ghost new_entry = (call, fresh);
                self.call_roles.push((call, fresh));
                proof {
                    assert forall|k: int|
                        0 <= k < self.call_roles@.len() implies (#[trigger] self.call_roles@[
                        k
                    ].1).wf() by {
                        if k < self.call_roles@.len() - 1 {
                            assert(self.call_roles@[k] == old(self).call_roles@[k]);
                        } else {
                            assert(self.call_roles@[k] == new_entry);
                        }
                    }
                }
                self.bump_consumers(i, true);
                proof {
                    let (v2, res) = model::add_call(old(self)@, call, role_name@, current_version);
                    assert(model::call_set(old(self)@, call).insert(role_name@) =~= Set::<
                        Seq<u8>,
                    >::empty().insert(role_name@));
                    assert(self@ =~= v2);
                }
                Ok(())
            },
        }
    }

    /// Detaches a call from a role. The role must exist and the edge must
    /// be present; an obsolete version stamp is no obstacle — stale
    /// grants must stay removable. The edge and the role's consumer
    /// counter move together.
    pub fn remove_call(&mut self, call: CallMetadata, role_name: &Vec<u8>) -> (r: Result<
        (),
        Error,
    >)
        requires
            old(self).inv(),
        ensures
            final (self).inv(),
            ({
                let (v2, res) = model::remove_call(old(self)@, call, role_name@);
                final (self)@ == v2 && r == res
            }),
    {
        proof {
            lemma_remove_call_preserves_wf(self@, call, role_name@);
        }
        let i = match self.find_role(role_name) {
            None => {
                return Err(Error::RoleDoesNotExist);
            },
            Some(i) => i,
        };
        let j = match self.find_call(&call) {
            None => {
                return Err(Error::CallNotAttachedToRole);
            },
            Some(j) => j,
        };
        if !self.call_roles[j].1.contains(role_name) {
            return Err(Error::CallNotAttachedToRole);
        }
        let info = self.roles[i].1;
        if info.consumers_counter == 0 {
            return Err(Error::ConsumerRemaining);
        }
        self.call_remove_at(j, role_name);
        self.bump_consumers(i, false);
        proof {
            let (v2, res) = model::remove_call(old(self)@, call, role_name@);
            assert(self@ =~= v2);
        }
        Ok(())
    }

    /// Looks a role up and checks it against the current version stamp,
    /// returning the record only when both succeed.
    pub fn check_role_existance_and_version(
        &self,
        role_name: &Vec<u8>,
        current_version: RuntimeVersionHash,
    ) -> (r: Result<RoleInfo, Error>)
        requires
            self.inv(),
        ensures
            r == model::check_role(self@, role_name@, current_version),
    {
        match self.find_role(role_name) {
            None => Err(Error::RoleDoesNotExist),
            Some(i) => {
                let info = self.roles[i].1;
                if info.runtime_version != current_version {
                    Err(Error::RoleVersionObsolete)
                } else {
                    Ok(info)
                }
            },
        }
    }

    /// Plans an explicit role-scoped dispatch: the role must exist and be
    /// current, the caller must hold it, and the call must be attached to
    /// it. The returned plan names the identity the role's policy
    /// resolves to and whether the run may bypass the host's call filter;
    /// when the role does not allow the bypass, the plan directs a
    /// normal, filtered dispatch. Handing the plan to the execution
    /// collaborator is the caller's affair; the engine itself changes
    /// nothing.
    pub fn dispatch_call_with_role(
        &self,
        who: AccountId,
        call: CallMetadata,
        with_role: &Vec<u8>,
        current_version: RuntimeVersionHash,
    ) -> (r: Result<DispatchPlan, Error>)
        requires
            self.inv(),
        ensures
            r == model::dispatch_call_with_role(self@, who, call, with_role@, current_version),
    {
        let i = match self.find_role(with_role) {
            None => {
                return Err(Error::RoleDoesNotExist);
            },
            Some(i) => i,
        };
        let info = self.roles[i].1;
        if info.runtime_version != current_version {
            return Err(Error::RoleVersionObsolete);
        }
        let holds_role = match self.find_account(&who) {
            None => false,
            Some(j) => self.account_roles[j].1.contains(with_role),
        };
        if !holds_role {
            return Err(Error::MissingRole);
        }
        let call_attached = match self.find_call(&call) {
            None => false,
            Some(j) => self.call_roles[j].1.contains(with_role),
        };
        if !call_attached {
            return Err(Error::CallNotAttachedToRole);
        }
        Ok(DispatchPlan {
            origin: info.infer_origin(who),
            bypass_filter: info.allow_filter_bypassing,
        })
    }
    /// Decides whether `who` may invoke the operation fingerprinted by
    /// `call`. A call with no configured permissions is unrestricted;
    /// otherwise the account must hold some role attached to the call,
    /// and one such role — whichever the scan meets first — must still
    /// pass the version check. Pure: the state never changes, so equal
    /// states decide alike however often they are asked.
    pub fn validate_by_metadata(
        &self,
        call: CallMetadata,
        who: &AccountId,
        current_version: RuntimeVersionHash,
    ) -> (r: bool)
        requires
            self.inv(),
        ensures
            model::validate_outcome(self@, call, *who, current_version, r),
    {
        let cidx = match self.find_call(&call) {
            None => {
                return true;
            },
            Some(c) => c,
        };
        proof {
            self.call_roles@[cidx as int].1.lemma_card();
        }
        let clen = self.call_roles[cidx].1.len();
        if clen == 0 {
            return true;
        }
        let aidx = match self.find_account(who) {
            None => {
                return false;
            },
            Some(a) => a,
        };
        proof {
            self.account_roles@[aidx as int].1.lemma_card();
        }
        let alen = self.account_roles[aidx].1.len();
        if alen == 0 {
            return false;
        }
        let n = clen;
        let mut k: usize = 0;
        while k < n
            invariant
                self.inv(),
                cidx < self.call_roles@.len(),
                aidx < self.account_roles@.len(),
                model::call_set(self@, call) == self.call_roles@[cidx as int].1@,
                model::account_set(self@, *who) == self.account_roles@[aidx as int].1@,
                model::call_set(self@, call).len() != 0,
                model::account_set(self@, *who).len() != 0,
                n == self.call_roles@[cidx as int].1.names().len(),
                k <= n,
                forall|j: int|
                    0 <= j < k ==> !self.account_roles@[aidx as int].1@.contains(
                        #[trigger] self.call_roles@[cidx as int].1.names()[j],
                    ),
            decreases n - k,
        {
            let nm = self.call_roles[cidx].1.index_at(k);
            if self.account_roles[aidx].1.contains(nm) {
                let decision = match self.find_role(nm) {
                    None => false,
                    Some(ri) => self.roles[ri].1.runtime_version == current_version,
                };
                proof {
                    let cset = model::call_set(self@, call);
                    let aset = model::account_set(self@, *who);
                    let qualifying = cset.intersect(aset);
                    self.call_roles@[cidx as int].1.lemma_card();
                    self.call_roles@[cidx as int].1.lemma_view_names();
                    assert(self.call_roles@[cidx as int].1.names().contains(nm@));
                    assert(qualifying.contains(nm@));
                    assert(qualifying.len() != 0);
                    assert(qualifying.contains(nm@) && decision == (self@.roles.dom().contains(
                        nm@,
                    ) && self@.roles[nm@].runtime_version == current_version));
                }
                return decision;
            }
            k += 1;
        }
        proof {
            let cset = model::call_set(self@, call);
            let aset = model::account_set(self@, *who);
            let qualifying = cset.intersect(aset);
            self.call_roles@[cidx as int].1.lemma_view_names();
            assert forall|x: Seq<u8>| !(#[trigger] qualifying.contains(x)) by {
                if cset.contains(x) {
                    let names = self.call_roles@[cidx as int].1.names();
                    let j = choose|j: int| 0 <= j < names.len() && names[j] == x;
                    assert(!aset.contains(names[j]));
                }
            }
            assert(qualifying =~= Set::empty());
        }
        false
    }
    /// Raises a role's consumer counter by one. A registry primitive for
    /// the index operations above, which pair it with an edge insertion;
    /// called alone it leaves the counter ahead of the edge count.
    pub fn inc_role_consumers(&mut self, role_name: &Vec<u8>) -> (r: Result<(), Error>)
        requires
            old(self).inv(),
        ensures
            final (self)@.account_roles == old(self)@.account_roles,
            final (self)@.call_roles == old(self)@.call_roles,
            final (self)@.roles_per_call_limit == old(self)@.roles_per_call_limit,
            final (self)@.roles_per_account_limit == old(self)@.roles_per_account_limit,
            !old(self)@.roles.dom().contains(role_name@) ==> r == Err::<(), Error>(
                Error::RoleDoesNotExist,
            ) && final (self)@.roles == old(self)@.roles,
            old(self)@.roles.dom().contains(role_name@) && old(self)@.roles[
                role_name@
            ].consumers_counter == u128::MAX ==> r == Err::<(), Error>(Error::TooManyConsumers)
                && final (self)@.roles == old(self)@.roles,
            old(self)@.roles.dom().contains(role_name@) && old(self)@.roles[
                role_name@
            ].consumers_counter < u128::MAX ==> r == Ok::<(), Error>(()) && final (self)@.roles
                == old(self)@.roles.insert(
                role_name@,
                (RoleInfo {
                    consumers_counter: (old(self)@.roles[role_name@].consumers_counter + 1) as u128,
                    ..old(self)@.roles[role_name@]
                }),
            ),
    {
        match self.find_role(role_name) {
            None => Err(Error::RoleDoesNotExist),
            Some(i) => {
                if self.roles[i].1.consumers_counter == u128::MAX {
                    Err(Error::TooManyConsumers)
                } else {
                    self.bump_consumers(i, true);
                    Ok(())
                }
            },
        }
    }

    /// Lowers a role's consumer counter by one. A registry primitive for
    /// the index operations above, which pair it with an edge removal;
    /// called alone it leaves the counter behind the edge count.
    pub fn dec_role_consumers(&mut self, role_name: &Vec<u8>) -> (r: Result<(), Error>)
        requires
            old(self).inv(),
        ensures
            final (self)@.account_roles == old(self)@.account_roles,
            final (self)@.call_roles == old(self)@.call_roles,
            final (self)@.roles_per_call_limit == old(self)@.roles_per_call_limit,
            final (self)@.roles_per_account_limit == old(self)@.roles_per_account_limit,
            !old(self)@.roles.dom().contains(role_name@) ==> r == Err::<(), Error>(
                Error::RoleDoesNotExist,
            ) && final (self)@.roles == old(self)@.roles,
            old(self)@.roles.dom().contains(role_name@) && old(self)@.roles[
                role_name@
            ].consumers_counter == 0 ==> r == Err::<(), Error>(Error::ConsumerRemaining) && final (
            self)@.roles == old(self)@.roles,
            old(self)@.roles.dom().contains(role_name@) && old(self)@.roles[
                role_name@
            ].consumers_counter > 0 ==> r == Ok::<(), Error>(()) && final (self)@.roles == old(
                self,
            )@.roles.insert(
                role_name@,
                (RoleInfo {
                    consumers_counter: (old(self)@.roles[role_name@].consumers_counter - 1) as u128,
                    ..old(self)@.roles[role_name@]
                }),
            ),
    {
        match self.find_role(role_name) {
            None => Err(Error::RoleDoesNotExist),
            Some(i) => {
                if self.roles[i].1.consumers_counter == 0 {
                    Err(Error::ConsumerRemaining)
                } else {
                    self.bump_consumers(i, false);
                    Ok(())
                }
            },
        }
    }

    /// Reads a role's record.
    pub fn roles(&self, role_name: &Vec<u8>) -> (r: Option<RoleInfo>)
        requires
            self.inv(),
        ensures
            r == if self@.roles.dom().contains(role_name@) {
                Some(self@.roles[role_name@])
            } else {
                None::<RoleInfo>
            },
    {
        match self.find_role(role_name) {
            None => None,
            Some(i) => Some(self.roles[i].1),
        }
    }

    /// Reads an account's membership set, if it has one.
    pub fn account_roles(&self, who: &AccountId) -> (r: Option<&RoleSet>)
        requires
            self.inv(),
        ensures
            match r {
                Some(s) => self@.account_roles.dom().contains(*who) && s@ == self@.account_roles[
                    *who
                ] && s.wf(),
                None => !self@.account_roles.dom().contains(*who),
            },
    {
        match self.find_account(who) {
            None => None,
            Some(i) => Some(&self.account_roles[i].1),
        }
    }

    /// Reads a call's permission set, if it has one.
    pub fn call_roles(&self, call: &CallMetadata) -> (r: Option<&RoleSet>)
        requires
            self.inv(),
        ensures
            match r {
                Some(s) => self@.call_roles.dom().contains(*call) && s@ == self@.call_roles[*call]
                    && s.wf(),
                None => !self@.call_roles.dom().contains(*call),
            },
    {
        match self.find_call(call) {
            None => None,
            Some(i) => Some(&self.call_roles[i].1),
        }
    }

    /// Seeds the engine from a bootstrap configuration: every role seed
    /// through `create_role`, then every permission seed through
    /// `add_call`, then every membership seed through `assign_role`, all
    /// at the version current at bootstrap time, stopping at the first
    /// failure with the state as the seeds so far left it.
    pub fn build_genesis(
        &mut self,
        config: &GenesisConfig,
        current_version: RuntimeVersionHash,
    ) -> (r: Result<(), Error>)
        requires
            old(self).inv(),
        ensures
            final (self).inv(),
            ({
                let (v2, res) = seed_genesis(
                    old(self)@,
                    config.roles@,
                    config.calls@,
                    config.users@,
                    current_version,
                );
                final (self)@ == v2 && r == res
            }),
    {
        proof {
            assert(config.roles@.skip(0) =~= config.roles@);
        }
        let n_roles = config.roles.len();
        let mut k: usize = 0;
        while k < n_roles
            invariant
                self.inv(),
                n_roles == config.roles@.len(),
                k <= n_roles,
                seed_roles(old(self)@, config.roles@, current_version) == seed_roles(
                    self@,
                    config.roles@.skip(k as int),
                    current_version,
                ),
            decreases n_roles - k,
        {
            let seed = &config.roles[k];
            let name = clone_name(&seed.0);
            let ghost pre = self@;
            let step = self.create_role(name, seed.1, seed.2, current_version);
            proof {
                assert(config.roles@.skip(k as int)[0] == config.roles@[k as int]);
                assert(config.roles@.skip(k as int).drop_first() =~= config.roles@.skip(
                    k as int + 1,
                ));
            }
            if let Err(e) = step {
                return Err(e);
            }
            k += 1;
        }
        proof {
            assert(config.roles@.skip(n_roles as int).len() == 0);
        }
        let ghost after_roles = self@;
        proof {
            assert(config.calls@.skip(0) =~= config.calls@);
        }
        let n_calls = config.calls.len();
        let mut k: usize = 0;
        while k < n_calls
            invariant
                self.inv(),
                n_calls == config.calls@.len(),
                k <= n_calls,
                seed_roles(old(self)@, config.roles@, current_version) == (
                    after_roles,
                    Ok::<(), Error>(()),
                ),
                seed_calls(after_roles, config.calls@, current_version) == seed_calls(
                    self@,
                    config.calls@.skip(k as int),
                    current_version,
                ),
            decreases n_calls - k,
        {
            let seed = &config.calls[k];
            let name = clone_name(&seed.0);
            let meta = CallMetadata::from(seed.1);
            let step = self.add_call(meta, name, current_version);
            proof {
                assert(config.calls@.skip(k as int)[0] == config.calls@[k as int]);
                assert(config.calls@.skip(k as int).drop_first() =~= config.calls@.skip(
                    k as int + 1,
                ));
            }
            if let Err(e) = step {
                return Err(e);
            }
            k += 1;
        }
        proof {
            assert(config.calls@.skip(n_calls as int).len() == 0);
        }
        let ghost after_calls = self@;
        proof {
            assert(config.users@.skip(0) =~= config.users@);
        }
        let n_users = config.users.len();
        let mut k: usize = 0;
        while k < n_users
            invariant
                self.inv(),
                n_users == config.users@.len(),
                k <= n_users,
                seed_roles(old(self)@, config.roles@, current_version) == (
                    after_roles,
                    Ok::<(), Error>(()),
                ),
                seed_calls(after_roles, config.calls@, current_version) == (
                    after_calls,
                    Ok::<(), Error>(()),
                ),
                seed_users(after_calls, config.users@, current_version) == seed_users(
                    self@,
                    config.users@.skip(k as int),
                    current_version,
                ),
            decreases n_users - k,
        {
            let seed = &config.users[k];
            let name = clone_name(&seed.0);
            let step = self.assign_role(seed.1, name, current_version);
            proof {
                assert(config.users@.skip(k as int)[0] == config.users@[k as int]);
                assert(config.users@.skip(k as int).drop_first() =~= config.users@.skip(
                    k as int + 1,
                ));
            }
            if let Err(e) = step {
                return Err(e);
            }
            k += 1;
        }
        proof {
            assert(config.users@.skip(n_users as int).len() == 0);
        }
        Ok(())
    }

    /// Reads the configured limit on roles per call.
    pub fn roles_per_call_limit(&self) -> (r: usize)
        ensures
            r as nat == self@.roles_per_call_limit,
    {
        self.roles_per_call_limit
    }

    /// Reads the configured limit on roles per account.
    pub fn roles_per_account_limit(&self) -> (r: usize)
        ensures
            r as nat == self@.roles_per_account_limit,
    {
        self.roles_per_account_limit
    }
}

} // verus!
