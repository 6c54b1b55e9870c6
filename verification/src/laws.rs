//! The engine's laws, stated and proved over the model.
//!
//! Every mutating operation preserves well-formedness — in particular the
//! counting invariant that a role's consumer counter always equals the
//! number of membership and permission edges referencing it. On top of
//! that stand the removal gate, the version-gating asymmetry, the capacity
//! boundary and the consistency of denial.

use crate::model::{
    account_set, add_call, assign_role, call_set, calls_holding, consumer_references, create_role,
    dispatch_call_with_role, members_holding, remove_call, remove_role, unassign_role,
    validate_outcome, wf, RbacView,
};
use crate::primitives::{AccountId, CallMetadata, Error, RoleDispatchOrigin, RuntimeVersionHash};
use vstd::prelude::*;

verus! {

broadcast use vstd::set::group_set_axioms;

/// The accounts holding `name` are untouched by a step that leaves the
/// membership index alone.
proof fn lemma_members_same(v: RbacView, v2: RbacView, name: Seq<u8>)
    requires
        v2.account_roles == v.account_roles,
    ensures
        members_holding(v2, name) == members_holding(v, name),
{
    assert(members_holding(v2, name) =~= members_holding(v, name));
}

/// The calls holding `name` are untouched by a step that leaves the
/// permission index alone.
proof fn lemma_calls_same(v: RbacView, v2: RbacView, name: Seq<u8>)
    requires
        v2.call_roles == v.call_roles,
    ensures
        calls_holding(v2, name) == calls_holding(v, name),
{
    assert(calls_holding(v2, name) =~= calls_holding(v, name));
}

/// The set of accounts holding a role is finite.
proof fn lemma_members_finite(v: RbacView, name: Seq<u8>)
    requires
        v.account_roles.dom().finite(),
    ensures
        members_holding(v, name).finite(),
        members_holding(v, name).len() <= v.account_roles.dom().len(),
{
    v.account_roles.dom().lemma_len_filter(
        |a: AccountId| v.account_roles[a].contains(name),
    );
}

/// The set of calls holding a role is finite.
proof fn lemma_calls_finite(v: RbacView, name: Seq<u8>)
    requires
        v.call_roles.dom().finite(),
    ensures
        calls_holding(v, name).finite(),
        calls_holding(v, name).len() <= v.call_roles.dom().len(),
{
    v.call_roles.dom().lemma_len_filter(
        |c: CallMetadata| v.call_roles[c].contains(name),
    );
}

/// Creating a role preserves well-formedness: the fresh record starts at
/// zero consumers, and — the name not having existed — no edge can already
/// reference it.
pub proof fn lemma_create_role_preserves_wf(
    v: RbacView,
    name: Seq<u8>,
    allow_filter_bypassing: bool,
    dispatch_origin: RoleDispatchOrigin,
    current_version: RuntimeVersionHash,
)
    requires
        wf(v),
    ensures
        wf(create_role(v, name, allow_filter_bypassing, dispatch_origin, current_version).0),
{
    let v2 = create_role(v, name, allow_filter_bypassing, dispatch_origin, current_version).0;
    if !v.roles.dom().contains(name) {
        assert forall|n: Seq<u8>| #[trigger] v2.roles.dom().contains(n) implies v2.roles[
            n
        ].consumers_counter == consumer_references(v2, n) by {
            lemma_members_same(v, v2, n);
            lemma_calls_same(v, v2, n);
            if n == name {
                lemma_members_finite(v, name);
                lemma_calls_finite(v, name);
                assert(members_holding(v, name) =~= Set::empty());
                assert(calls_holding(v, name) =~= Set::empty());
            }
        }
    }
}

/// Removing a role preserves well-formedness: it goes only when its counter
/// is zero, which means no edge references it any more.
pub proof fn lemma_remove_role_preserves_wf(v: RbacView, name: Seq<u8>)
    requires
        wf(v),
    ensures
        wf(remove_role(v, name).0),
{
    let v2 = remove_role(v, name).0;
    if v.roles.dom().contains(name) && v.roles[name].consumers_counter == 0 {
        lemma_members_finite(v, name);
        lemma_calls_finite(v, name);
        members_holding(v, name).lemma_len0_is_empty();
        calls_holding(v, name).lemma_len0_is_empty();
        assert forall|a: AccountId, n: Seq<u8>|
            v2.account_roles.dom().contains(a) && #[trigger] v2.account_roles[a].contains(n)
                implies v2.roles.dom().contains(n) by {
            assert(!members_holding(v, name).contains(a));
        }
        assert forall|c: CallMetadata, n: Seq<u8>|
            v2.call_roles.dom().contains(c) && #[trigger] v2.call_roles[c].contains(n)
                implies v2.roles.dom().contains(n) by {
            assert(!calls_holding(v, name).contains(c));
        }
        assert forall|n: Seq<u8>| #[trigger] v2.roles.dom().contains(n) implies v2.roles[
            n
        ].consumers_counter == consumer_references(v2, n) by {
            lemma_members_same(v, v2, n);
            lemma_calls_same(v, v2, n);
        }
    }
}

/// Assigning a role preserves well-formedness: exactly one new membership
/// edge appears, and the role's counter moves up with it.
pub proof fn lemma_assign_role_preserves_wf(
    v: RbacView,
    who: AccountId,
    name: Seq<u8>,
    current_version: RuntimeVersionHash,
)
    requires
        wf(v),
    ensures
        wf(assign_role(v, who, name, current_version).0),
{
    let v2 = assign_role(v, who, name, current_version).0;
    let aset = account_set(v, who);
    if v.roles.dom().contains(name) && v.roles[name].runtime_version == current_version
        && !aset.contains(name) && aset.len() < v.roles_per_account_limit && v.roles[
        name
    ].consumers_counter != u128::MAX {
        assert(aset.finite());
        assert forall|n: Seq<u8>| #[trigger] v2.roles.dom().contains(n) implies v2.roles[
            n
        ].consumers_counter == consumer_references(v2, n) by {
            lemma_calls_same(v, v2, n);
            lemma_members_finite(v, n);
            if n == name {
                assert(members_holding(v2, name) =~= members_holding(v, name).insert(who));
                assert(!members_holding(v, name).contains(who));
            } else {
                assert(members_holding(v2, n) =~= members_holding(v, n));
            }
        }
    }
}

/// Unassigning a role preserves well-formedness: exactly one membership
/// edge disappears, and the role's counter moves down with it.
pub proof fn lemma_unassign_role_preserves_wf(v: RbacView, who: AccountId, name: Seq<u8>)
    requires
        wf(v),
    ensures
        wf(unassign_role(v, who, name).0),
{
    let v2 = unassign_role(v, who, name).0;
    let aset = account_set(v, who);
    if v.roles.dom().contains(name) && aset.contains(name) && v.roles[name].consumers_counter
        != 0 {
        assert(v.account_roles.dom().contains(who));
        assert(aset.finite());
        assert forall|n: Seq<u8>| #[trigger] v2.roles.dom().contains(n) implies v2.roles[
            n
        ].consumers_counter == consumer_references(v2, n) by {
            lemma_calls_same(v, v2, n);
            lemma_members_finite(v, n);
            if n == name {
                assert(members_holding(v2, name) =~= members_holding(v, name).remove(who));
                assert(members_holding(v, name).contains(who));
            } else {
                assert(members_holding(v2, n) =~= members_holding(v, n));
            }
        }
    }
}

/// Attaching a call preserves well-formedness: exactly one new permission
/// edge appears, and the role's counter moves up with it.
pub proof fn lemma_add_call_preserves_wf(
    v: RbacView,
    call: CallMetadata,
    name: Seq<u8>,
    current_version: RuntimeVersionHash,
)
    requires
        wf(v),
    ensures
        wf(add_call(v, call, name, current_version).0),
{
    let v2 = add_call(v, call, name, current_version).0;
    let cset = call_set(v, call);
    if v.roles.dom().contains(name) && v.roles[name].runtime_version == current_version
        && !cset.contains(name) && cset.len() < v.roles_per_call_limit && v.roles[
        name
    ].consumers_counter != u128::MAX {
        assert(cset.finite());
        assert forall|n: Seq<u8>| #[trigger] v2.roles.dom().contains(n) implies v2.roles[
            n
        ].consumers_counter == consumer_references(v2, n) by {
            lemma_members_same(v, v2, n);
            lemma_calls_finite(v, n);
            if n == name {
                assert(calls_holding(v2, name) =~= calls_holding(v, name).insert(call));
                assert(!calls_holding(v, name).contains(call));
            } else {
                assert(calls_holding(v2, n) =~= calls_holding(v, n));
            }
        }
    }
}

/// Detaching a call preserves well-formedness: exactly one permission edge
/// disappears, and the role's counter moves down with it.
pub proof fn lemma_remove_call_preserves_wf(v: RbacView, call: CallMetadata, name: Seq<u8>)
    requires
        wf(v),
    ensures
        wf(remove_call(v, call, name).0),
{
    let v2 = remove_call(v, call, name).0;
    let cset = call_set(v, call);
    if v.roles.dom().contains(name) && cset.contains(name) && v.roles[name].consumers_counter
        != 0 {
        assert(v.call_roles.dom().contains(call));
        assert(cset.finite());
        assert forall|n: Seq<u8>| #[trigger] v2.roles.dom().contains(n) implies v2.roles[
            n
        ].consumers_counter == consumer_references(v2, n) by {
            lemma_members_same(v, v2, n);
            lemma_calls_finite(v, n);
            if n == name {
                assert(calls_holding(v2, name) =~= calls_holding(v, name).remove(call));
                assert(calls_holding(v, name).contains(call));
            } else {
                assert(calls_holding(v2, n) =~= calls_holding(v, n));
            }
        }
    }
}

/// The removal gate: removing an existing role succeeds exactly when its
/// consumer counter is zero, and then the record is gone.
pub proof fn lemma_removal_gate(v: RbacView, name: Seq<u8>)
    requires
        wf(v),
    ensures
        remove_role(v, name).1 is Ok <==> v.roles.dom().contains(name) && v.roles[
            name
        ].consumers_counter == 0,
        remove_role(v, name).1 is Ok ==> remove_role(v, name).0.roles == v.roles.remove(name),
{
}

/// The version-gating asymmetry: once a role's stamp no longer matches the
/// current one, every operation that would create a new grant or dispatch
/// under the role fails, while revocation and — once unreferenced —
/// removal still go through.
pub proof fn lemma_version_gating_asymmetry(
    v: RbacView,
    who: AccountId,
    call: CallMetadata,
    name: Seq<u8>,
    current_version: RuntimeVersionHash,
)
    requires
        wf(v),
        v.roles.dom().contains(name),
        v.roles[name].runtime_version != current_version,
    ensures
        assign_role(v, who, name, current_version).1 == Err::<(), Error>(
            Error::RoleVersionObsolete,
        ),
        add_call(v, call, name, current_version).1 == Err::<(), Error>(
            Error::RoleVersionObsolete,
        ),
        dispatch_call_with_role(v, who, call, name, current_version) == Err::<
            crate::primitives::DispatchPlan,
            Error,
        >(Error::RoleVersionObsolete),
        unassign_role(v, who, name).1 is Ok <==> account_set(v, who).contains(name),
        remove_call(v, call, name).1 is Ok <==> call_set(v, call).contains(name),
        remove_role(v, name).1 is Ok <==> v.roles[name].consumers_counter == 0,
{
    lemma_members_finite(v, name);
    lemma_calls_finite(v, name);
    if account_set(v, who).contains(name) {
        assert(members_holding(v, name).contains(who));
    }
    if call_set(v, call).contains(name) {
        assert(calls_holding(v, name).contains(call));
    }
}

/// The capacity boundary: with the role current and not yet assigned,
/// granting it to an account whose membership set stands at the limit
/// fails with the capacity error, while below the limit the grant goes
/// through.
pub proof fn lemma_capacity_boundary(
    v: RbacView,
    who: AccountId,
    name: Seq<u8>,
    current_version: RuntimeVersionHash,
)
    requires
        wf(v),
        v.roles.dom().contains(name),
        v.roles[name].runtime_version == current_version,
        !account_set(v, who).contains(name),
    ensures
        account_set(v, who).len() >= v.roles_per_account_limit ==> assign_role(
            v,
            who,
            name,
            current_version,
        ).1 == Err::<(), Error>(Error::TooManyRolesPerAccount),
        account_set(v, who).len() < v.roles_per_account_limit && v.roles[name].consumers_counter
            < u128::MAX ==> assign_role(v, who, name, current_version).1 == Ok::<(), Error>(()),
{
}

/// The consistency of denial: for a call with configured permissions and
/// an account holding no qualifying role, denial is the only admissible
/// validation outcome — on this call and on every repetition, since
/// validation never changes the state.
pub proof fn lemma_denial_consistent(
    v: RbacView,
    call: CallMetadata,
    who: AccountId,
    current_version: RuntimeVersionHash,
)
    requires
        wf(v),
        call_set(v, call).len() != 0,
        call_set(v, call).disjoint(account_set(v, who)),
    ensures
        validate_outcome(v, call, who, current_version, false),
        forall|decision: bool|
            validate_outcome(v, call, who, current_version, decision) ==> decision == false,
{
    let qualifying = call_set(v, call).intersect(account_set(v, who));
    assert(qualifying =~= Set::empty());
}

} // verus!
