use rbac::{
    CallMetadata, Error, ExecutionOrigin, GetCallMetadataIndecies, Rbac, RoleDispatchOrigin,
    RoleInfo, RuntimeVersionHash,
};
use rbac::{AccountId, GenesisConfig};

const ALICE: AccountId = 1;

const CURRENT_VERSION: RuntimeVersionHash = 7;
const OLD_VERSION: RuntimeVersionHash = 1;

const ROLES_PER_CALL_LIMIT: usize = 20;
const ROLES_PER_ACCOUNT_LIMIT: usize = 20;

/// Sample calls of the surrounding system, fingerprinted as the host
/// would fingerprint them.
enum TestCall {
    Remark,
    ForceSetBalance,
    SetBalanceDeprecated,
}

impl GetCallMetadataIndecies for TestCall {
    fn get_call_metadata_indicies(&self) -> (u64, u8) {
        match self {
            TestCall::Remark => (0, 7),
            TestCall::ForceSetBalance => (2, 8),
            TestCall::SetBalanceDeprecated => (2, 1),
        }
    }
}

fn role_name(name: &[u8]) -> Vec<u8> {
    name.to_vec()
}

fn remarker_role() -> Vec<u8> {
    role_name(b"Remarker")
}

fn balancer_role() -> Vec<u8> {
    role_name(b"Balancer")
}

fn default_empty_role() -> Vec<u8> {
    role_name(b"Empty")
}

fn obsolete_role() -> Vec<u8> {
    role_name(b"Obsolete")
}

fn remark_call() -> TestCall {
    TestCall::Remark
}

fn remark_metadata() -> CallMetadata {
    remark_call().get_call_metadata_indicies().into()
}

fn force_set_balance_call() -> TestCall {
    TestCall::ForceSetBalance
}

fn force_set_balance_metadata() -> CallMetadata {
    force_set_balance_call().get_call_metadata_indicies().into()
}

fn deprecated_call() -> TestCall {
    TestCall::SetBalanceDeprecated
}

fn deprecated_metadata() -> CallMetadata {
    deprecated_call().get_call_metadata_indicies().into()
}

fn account_set_contains(state: &Rbac, acc: &AccountId, name: &Vec<u8>) -> bool {
    match state.account_roles(acc) {
        Some(set) => set.contains(name),
        None => false,
    }
}

fn call_set_contains(state: &Rbac, call: &CallMetadata, name: &Vec<u8>) -> bool {
    match state.call_roles(call) {
        Some(set) => set.contains(name),
        None => false,
    }
}

fn assert_consumers_counter_eq(state: &Rbac, name: &Vec<u8>, counter: u128) {
    assert_eq!(state.roles(name).unwrap().get_consumers_counter(), counter);
}

fn new_test_ext() -> Rbac {
    let mut state = Rbac::new(ROLES_PER_CALL_LIMIT, ROLES_PER_ACCOUNT_LIMIT);
    let config = GenesisConfig {
        roles: vec![
            (remarker_role(), false, RoleDispatchOrigin::Regular),
            (balancer_role(), true, RoleDispatchOrigin::Root),
            (default_empty_role(), false, RoleDispatchOrigin::Regular),
        ],
        calls: vec![
            (remarker_role(), remark_call().get_call_metadata_indicies()),
            (balancer_role(), force_set_balance_call().get_call_metadata_indicies()),
        ],
        users: vec![(remarker_role(), ALICE), (balancer_role(), ALICE)],
    };
    state
        .build_genesis(&config, CURRENT_VERSION)
        .expect("Expected the genesis configuration to apply");
    assert_ne!(CURRENT_VERSION, OLD_VERSION);
    state
        .create_role(obsolete_role(), false, RoleDispatchOrigin::Regular, OLD_VERSION)
        .expect("Expected to create the obsolete role");
    state
        .add_call(deprecated_metadata(), obsolete_role(), OLD_VERSION)
        .expect("Expected to attach a call to the obsolete role");
    state
        .assign_role(ALICE, obsolete_role(), OLD_VERSION)
        .expect("Expected to assign the obsolete role");
    state
}

#[test]
fn create_role_should_work() {
    let mut state = new_test_ext();
    let name = role_name(b"Test");
    assert!(state
        .create_role(name.clone(), false, RoleDispatchOrigin::Regular, CURRENT_VERSION)
        .is_ok());

    let role_info = RoleInfo::new(CURRENT_VERSION, false, RoleDispatchOrigin::Regular);
    assert_eq!(state.roles(&name), Some(role_info));
}

#[test]
fn existing_role_should_prevent_create_role() {
    let mut state = new_test_ext();
    let name = role_name(b"Test");
    assert!(state
        .create_role(name.clone(), false, RoleDispatchOrigin::Regular, CURRENT_VERSION)
        .is_ok());

    assert_eq!(
        state.create_role(name.clone(), false, RoleDispatchOrigin::Regular, CURRENT_VERSION),
        Err(Error::RoleExists)
    );
}

#[test]
fn add_call_should_work() {
    let mut state = new_test_ext();
    assert!(state.roles(&default_empty_role()).is_some());
    assert_consumers_counter_eq(&state, &default_empty_role(), 0);
    assert!(!call_set_contains(&state, &remark_metadata(), &default_empty_role()));

    assert!(state
        .add_call(remark_metadata(), default_empty_role(), CURRENT_VERSION)
        .is_ok());

    assert_consumers_counter_eq(&state, &default_empty_role(), 1);
    assert!(call_set_contains(&state, &remark_metadata(), &default_empty_role()));
}

#[test]
fn non_existing_role_should_prevent_add_call() {
    let mut state = new_test_ext();
    let name = role_name(b"NoRole");
    assert!(state.roles(&name).is_none());

    assert_eq!(
        state.add_call(remark_metadata(), name, CURRENT_VERSION),
        Err(Error::RoleDoesNotExist)
    );
}

#[test]
fn already_added_call_should_prevent_add_call() {
    let mut state = new_test_ext();
    assert!(state.roles(&remarker_role()).is_some());
    assert!(call_set_contains(&state, &remark_metadata(), &remarker_role()));

    assert_eq!(
        state.add_call(remark_metadata(), remarker_role(), CURRENT_VERSION),
        Err(Error::CallAlreadyAttachedToRole)
    );
}

#[test]
fn obsolete_role_should_prevent_add_call() {
    let mut state = new_test_ext();
    assert!(state.roles(&obsolete_role()).is_some());
    assert!(state
        .roles(&obsolete_role())
        .unwrap()
        .check_version(CURRENT_VERSION)
        .is_err());

    assert!(state
        .add_call(remark_metadata(), obsolete_role(), CURRENT_VERSION)
        .is_err());
}

#[test]
fn remove_call_should_work() {
    let mut state = new_test_ext();
    assert!(state.roles(&remarker_role()).is_some());
    assert!(call_set_contains(&state, &remark_metadata(), &remarker_role()));
    assert_consumers_counter_eq(&state, &remarker_role(), 2);

    assert!(state.remove_call(remark_metadata(), &remarker_role()).is_ok());

    assert_consumers_counter_eq(&state, &remarker_role(), 1);
    assert!(!call_set_contains(&state, &remark_metadata(), &remarker_role()));
}

#[test]
fn non_existing_role_should_prevent_remove_call() {
    let mut state = new_test_ext();
    let name = role_name(b"NoRole");
    assert!(state.roles(&name).is_none());

    assert_eq!(
        state.remove_call(remark_metadata(), &name),
        Err(Error::RoleDoesNotExist)
    );
}

#[test]
fn non_attached_call_should_prevent_remove_call() {
    let mut state = new_test_ext();
    assert!(state.roles(&remarker_role()).is_some());
    assert!(!call_set_contains(&state, &force_set_balance_metadata(), &remarker_role()));

    assert_eq!(
        state.remove_call(force_set_balance_metadata(), &remarker_role()),
        Err(Error::CallNotAttachedToRole)
    );
}

#[test]
fn remove_call_from_obsolete_role_should_work() {
    let mut state = new_test_ext();
    assert!(state.roles(&obsolete_role()).is_some());
    assert!(state
        .roles(&obsolete_role())
        .unwrap()
        .check_version(CURRENT_VERSION)
        .is_err());
    assert_consumers_counter_eq(&state, &obsolete_role(), 2);

    assert!(state.remove_call(deprecated_metadata(), &obsolete_role()).is_ok());

    assert_consumers_counter_eq(&state, &obsolete_role(), 1);
    assert!(!call_set_contains(&state, &deprecated_metadata(), &obsolete_role()));
}

#[test]
fn assign_role_should_work() {
    let mut state = new_test_ext();
    assert!(state.roles(&default_empty_role()).is_some());
    assert_consumers_counter_eq(&state, &default_empty_role(), 0);
    assert!(!account_set_contains(&state, &ALICE, &default_empty_role()));

    assert!(state
        .assign_role(ALICE, default_empty_role(), CURRENT_VERSION)
        .is_ok());

    assert_consumers_counter_eq(&state, &default_empty_role(), 1);
    assert!(account_set_contains(&state, &ALICE, &default_empty_role()));
}

#[test]
fn non_existing_role_should_prevent_assign_role() {
    let mut state = new_test_ext();
    let name = role_name(b"NoRole");
    assert!(state.roles(&name).is_none());

    assert_eq!(
        state.assign_role(ALICE, name, CURRENT_VERSION),
        Err(Error::RoleDoesNotExist)
    );
}

#[test]
fn already_assigned_user_should_prevent_assign_role() {
    let mut state = new_test_ext();
    assert!(state.roles(&remarker_role()).is_some());
    assert!(account_set_contains(&state, &ALICE, &remarker_role()));

    assert_eq!(
        state.assign_role(ALICE, remarker_role(), CURRENT_VERSION),
        Err(Error::RoleAlreadyAssigned)
    );
}

#[test]
fn obsolete_role_should_prevent_assign_role() {
    let mut state = new_test_ext();
    assert!(state.roles(&obsolete_role()).is_some());
    assert!(state
        .roles(&obsolete_role())
        .unwrap()
        .check_version(CURRENT_VERSION)
        .is_err());

    assert!(state
        .assign_role(ALICE, obsolete_role(), CURRENT_VERSION)
        .is_err());
}

#[test]
fn unassign_role_should_work() {
    let mut state = new_test_ext();
    assert!(state.roles(&remarker_role()).is_some());
    assert_consumers_counter_eq(&state, &remarker_role(), 2);
    assert!(account_set_contains(&state, &ALICE, &remarker_role()));

    assert!(state.unassign_role(ALICE, &remarker_role()).is_ok());

    assert_consumers_counter_eq(&state, &remarker_role(), 1);
    assert!(!account_set_contains(&state, &ALICE, &remarker_role()));
}

#[test]
fn non_existing_role_should_prevent_unassign_role() {
    let mut state = new_test_ext();
    let name = role_name(b"NoRole");
    assert!(state.roles(&name).is_none());

    assert_eq!(
        state.unassign_role(ALICE, &name),
        Err(Error::RoleDoesNotExist)
    );
}

#[test]
fn non_assigned_user_should_prevent_unassign_role() {
    let mut state = new_test_ext();
    assert!(state.roles(&default_empty_role()).is_some());
    assert!(!account_set_contains(&state, &ALICE, &default_empty_role()));

    assert_eq!(
        state.unassign_role(ALICE, &default_empty_role()),
        Err(Error::MissingRole)
    );
}

#[test]
fn unassign_obsolete_role_should_work() {
    let mut state = new_test_ext();
    assert!(state.roles(&obsolete_role()).is_some());
    assert_consumers_counter_eq(&state, &obsolete_role(), 2);
    assert!(account_set_contains(&state, &ALICE, &obsolete_role()));

    assert!(state.unassign_role(ALICE, &obsolete_role()).is_ok());

    assert_consumers_counter_eq(&state, &obsolete_role(), 1);
    assert!(!account_set_contains(&state, &ALICE, &obsolete_role()));
}

#[test]
fn remove_role_should_work() {
    let mut state = new_test_ext();
    assert!(state.roles(&default_empty_role()).is_some());
    assert_consumers_counter_eq(&state, &default_empty_role(), 0);

    assert!(state.remove_role(&default_empty_role()).is_ok());

    assert!(state.roles(&default_empty_role()).is_none());
}

#[test]
fn non_zero_consumers_counter_should_prevent_remove_role() {
    let mut state = new_test_ext();
    assert!(state.roles(&remarker_role()).is_some());
    assert_consumers_counter_eq(&state, &remarker_role(), 2);

    assert_eq!(
        state.remove_role(&remarker_role()),
        Err(Error::ConsumerRemaining)
    );
}

#[test]
fn non_existing_role_should_prevent_remove_role() {
    let mut state = new_test_ext();
    let name = role_name(b"NoRole");
    assert!(state.roles(&name).is_none());

    assert_eq!(state.remove_role(&name), Err(Error::RoleDoesNotExist));
}

#[test]
fn remove_obsolete_role_should_work() {
    let mut state = new_test_ext();
    assert!(state.roles(&obsolete_role()).is_some());
    assert_consumers_counter_eq(&state, &obsolete_role(), 2);

    state
        .remove_call(deprecated_metadata(), &obsolete_role())
        .expect("Expected to remove a call from an obsolete role");
    state
        .unassign_role(ALICE, &obsolete_role())
        .expect("Expected to unassign a user from an obsolete role");
    assert_consumers_counter_eq(&state, &obsolete_role(), 0);

    assert!(state.remove_role(&obsolete_role()).is_ok());

    assert!(state.roles(&obsolete_role()).is_none());
}

#[test]
fn dispatch_call_with_role_should_work() {
    let state = new_test_ext();
    assert!(state.roles(&remarker_role()).is_some());
    assert!(account_set_contains(&state, &ALICE, &remarker_role()));
    assert!(call_set_contains(&state, &remark_metadata(), &remarker_role()));

    let plan = state
        .dispatch_call_with_role(ALICE, remark_metadata(), &remarker_role(), CURRENT_VERSION)
        .expect("Expected the dispatch to be planned");
    assert_eq!(plan.origin, ExecutionOrigin::Signed { who: ALICE });
    assert!(!plan.bypass_filter);
}
