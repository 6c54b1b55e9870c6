use rbac::{
    AccountId, CallMetadata, Error, ExecutionOrigin, GenesisConfig, Rbac, RoleDispatchOrigin,
    RoleInfo, RuntimeVersionHash,
};

const ANNA: AccountId = 10;
const BRUNO: AccountId = 11;

const V1: RuntimeVersionHash = 100;
const V2: RuntimeVersionHash = 200;

fn op(pallet: u64, function: u8) -> CallMetadata {
    CallMetadata { pallet_index: pallet, function_index: function }
}

#[test]
fn grant_and_revoke_operation_moves_the_counter() {
    let mut state = Rbac::new(8, 8);
    let r = b"R".to_vec();
    state
        .create_role(r.clone(), false, RoleDispatchOrigin::Regular, V1)
        .unwrap();
    assert_eq!(state.roles(&r).unwrap().get_consumers_counter(), 0);

    let op1 = op(1, 1);
    state.add_call(op1, r.clone(), V1).unwrap();
    assert_eq!(state.roles(&r).unwrap().get_consumers_counter(), 1);
    assert!(state.call_roles(&op1).unwrap().contains(&r));

    state.remove_call(op1, &r).unwrap();
    assert_eq!(state.roles(&r).unwrap().get_consumers_counter(), 0);
    assert!(!state.call_roles(&op1).unwrap().contains(&r));
}

#[test]
fn membership_capacity_boundary_per_account() {
    let mut state = Rbac::new(8, 1);
    let r = b"R".to_vec();
    let s = b"S".to_vec();
    state
        .create_role(r.clone(), false, RoleDispatchOrigin::Regular, V1)
        .unwrap();
    state
        .create_role(s.clone(), false, RoleDispatchOrigin::Regular, V1)
        .unwrap();

    assert!(state.assign_role(ANNA, r.clone(), V1).is_ok());
    assert_eq!(
        state.assign_role(ANNA, s.clone(), V1),
        Err(Error::TooManyRolesPerAccount)
    );
    assert!(state.account_roles(&ANNA).unwrap().contains(&r));
    assert!(!state.account_roles(&ANNA).unwrap().contains(&s));
}

#[test]
fn permission_capacity_boundary_per_call() {
    let mut state = Rbac::new(1, 8);
    let r = b"R".to_vec();
    let s = b"S".to_vec();
    state
        .create_role(r.clone(), false, RoleDispatchOrigin::Regular, V1)
        .unwrap();
    state
        .create_role(s.clone(), false, RoleDispatchOrigin::Regular, V1)
        .unwrap();

    let op1 = op(1, 1);
    assert!(state.add_call(op1, r.clone(), V1).is_ok());
    assert_eq!(
        state.add_call(op1, s.clone(), V1),
        Err(Error::TooManyRolesPerCall)
    );
}

#[test]
fn validate_follows_membership() {
    let mut state = Rbac::new(8, 8);
    let r = b"R".to_vec();
    let op1 = op(1, 1);
    state
        .create_role(r.clone(), false, RoleDispatchOrigin::Regular, V1)
        .unwrap();
    state.add_call(op1, r.clone(), V1).unwrap();
    state.assign_role(ANNA, r.clone(), V1).unwrap();

    assert!(state.validate_by_metadata(op1, &ANNA, V1));

    state.unassign_role(ANNA, &r).unwrap();
    assert!(!state.validate_by_metadata(op1, &ANNA, V1));
}

#[test]
fn validate_is_fail_open_without_permissions() {
    let mut state = Rbac::new(8, 8);
    let op1 = op(1, 1);
    // No permission entry at all: any account may proceed.
    assert!(state.validate_by_metadata(op1, &ANNA, V1));

    // An entry whose set has been emptied again behaves the same.
    let r = b"R".to_vec();
    state
        .create_role(r.clone(), false, RoleDispatchOrigin::Regular, V1)
        .unwrap();
    state.add_call(op1, r.clone(), V1).unwrap();
    state.remove_call(op1, &r).unwrap();
    assert!(state.validate_by_metadata(op1, &BRUNO, V1));
}

#[test]
fn validate_denies_consistently_without_a_qualifying_role() {
    let mut state = Rbac::new(8, 8);
    let r = b"R".to_vec();
    let s = b"S".to_vec();
    let op1 = op(1, 1);
    state
        .create_role(r.clone(), false, RoleDispatchOrigin::Regular, V1)
        .unwrap();
    state
        .create_role(s.clone(), false, RoleDispatchOrigin::Regular, V1)
        .unwrap();
    state.add_call(op1, r.clone(), V1).unwrap();

    // No roles at all.
    assert!(!state.validate_by_metadata(op1, &ANNA, V1));
    assert!(!state.validate_by_metadata(op1, &ANNA, V1));

    // A role, but not one attached to the call.
    state.assign_role(ANNA, s.clone(), V1).unwrap();
    assert!(!state.validate_by_metadata(op1, &ANNA, V1));
    assert!(!state.validate_by_metadata(op1, &ANNA, V1));
}

#[test]
fn version_change_gates_grants_but_not_revokes() {
    let mut state = Rbac::new(8, 8);
    let r = b"R".to_vec();
    let op1 = op(1, 1);
    state
        .create_role(r.clone(), false, RoleDispatchOrigin::Regular, V1)
        .unwrap();
    state.assign_role(ANNA, r.clone(), V1).unwrap();
    state.add_call(op1, r.clone(), V1).unwrap();

    // The system configuration moves on: the role is now obsolete.
    assert_eq!(
        state.assign_role(BRUNO, r.clone(), V2),
        Err(Error::RoleVersionObsolete)
    );
    assert_eq!(
        state.add_call(op(1, 2), r.clone(), V2),
        Err(Error::RoleVersionObsolete)
    );
    assert_eq!(
        state.dispatch_call_with_role(ANNA, op1, &r, V2),
        Err(Error::RoleVersionObsolete)
    );
    assert!(!state.validate_by_metadata(op1, &ANNA, V2));

    // Cleanup still goes through, and then so does removal.
    assert!(state.unassign_role(ANNA, &r).is_ok());
    assert!(state.remove_call(op1, &r).is_ok());
    assert!(state.remove_role(&r).is_ok());
    assert!(state.roles(&r).is_none());
}

#[test]
fn recreating_a_removed_role_is_permitted() {
    let mut state = Rbac::new(8, 8);
    let r = b"R".to_vec();
    state
        .create_role(r.clone(), false, RoleDispatchOrigin::Regular, V1)
        .unwrap();
    state.remove_role(&r).unwrap();
    assert!(state
        .create_role(r.clone(), true, RoleDispatchOrigin::Root, V2)
        .is_ok());
    let info = state.roles(&r).unwrap();
    assert_eq!(info.get_consumers_counter(), 0);
    assert!(info.check_version(V2).is_ok());
}

#[test]
fn dispatch_as_fixed_account_substitutes_the_identity() {
    let mut state = Rbac::new(8, 8);
    let r = b"R".to_vec();
    let op1 = op(1, 1);
    state
        .create_role(
            r.clone(),
            false,
            RoleDispatchOrigin::SignedAs { who: BRUNO },
            V1,
        )
        .unwrap();
    state.assign_role(ANNA, r.clone(), V1).unwrap();
    state.add_call(op1, r.clone(), V1).unwrap();

    let plan = state
        .dispatch_call_with_role(ANNA, op1, &r, V1)
        .expect("Expected the dispatch to be planned");
    // The executing identity is the substitute, not the caller.
    assert_eq!(plan.origin, ExecutionOrigin::Signed { who: BRUNO });
    assert_ne!(plan.origin, ExecutionOrigin::Signed { who: ANNA });
}

#[test]
fn dispatch_as_privileged_and_with_bypass() {
    let mut state = Rbac::new(8, 8);
    let r = b"R".to_vec();
    let op1 = op(1, 1);
    state
        .create_role(r.clone(), true, RoleDispatchOrigin::Root, V1)
        .unwrap();
    state.assign_role(ANNA, r.clone(), V1).unwrap();
    state.add_call(op1, r.clone(), V1).unwrap();

    let plan = state.dispatch_call_with_role(ANNA, op1, &r, V1).unwrap();
    assert_eq!(plan.origin, ExecutionOrigin::Root);
    assert!(plan.bypass_filter);
}

#[test]
fn dispatch_requires_membership_and_attachment() {
    let mut state = Rbac::new(8, 8);
    let r = b"R".to_vec();
    let op1 = op(1, 1);
    state
        .create_role(r.clone(), false, RoleDispatchOrigin::Regular, V1)
        .unwrap();
    state.add_call(op1, r.clone(), V1).unwrap();

    // Caller does not hold the role.
    assert_eq!(
        state.dispatch_call_with_role(ANNA, op1, &r, V1),
        Err(Error::MissingRole)
    );

    state.assign_role(ANNA, r.clone(), V1).unwrap();
    // The call is not attached to the role.
    assert_eq!(
        state.dispatch_call_with_role(ANNA, op(9, 9), &r, V1),
        Err(Error::CallNotAttachedToRole)
    );
    // An unknown role fails first of all.
    assert_eq!(
        state.dispatch_call_with_role(ANNA, op1, &b"Ghost".to_vec(), V1),
        Err(Error::RoleDoesNotExist)
    );
}

#[test]
fn consumer_counter_arithmetic_is_checked() {
    let mut at_max = RoleInfo::new_raw(u128::MAX, V1, false, RoleDispatchOrigin::Regular);
    assert_eq!(at_max.inc_consumers(), Err(Error::TooManyConsumers));
    assert_eq!(at_max.get_consumers_counter(), u128::MAX);

    let mut at_zero = RoleInfo::new(V1, false, RoleDispatchOrigin::Regular);
    assert_eq!(at_zero.dec_consumers(), Err(Error::ConsumerRemaining));
    assert_eq!(at_zero.get_consumers_counter(), 0);

    let mut counting = RoleInfo::new(V1, false, RoleDispatchOrigin::Regular);
    assert!(counting.inc_consumers().is_ok());
    assert!(counting.inc_consumers().is_ok());
    assert_eq!(counting.get_consumers_counter(), 2);
    assert!(counting.dec_consumers().is_ok());
    assert_eq!(counting.get_consumers_counter(), 1);
    assert!(counting.check_if_unused().is_err());
    assert!(counting.dec_consumers().is_ok());
    assert!(counting.check_if_unused().is_ok());
}

#[test]
fn call_metadata_round_trips_through_its_indices() {
    let meta = CallMetadata::from((5u64, 9u8));
    assert_eq!(meta.pallet_index, 5);
    assert_eq!(meta.function_index, 9);
    assert_eq!(meta.into_inner(), (5, 9));
}

#[test]
fn infer_origin_follows_the_dispatch_policy() {
    let regular = RoleInfo::new(V1, false, RoleDispatchOrigin::Regular);
    assert_eq!(
        regular.infer_origin(ANNA),
        ExecutionOrigin::Signed { who: ANNA }
    );

    let substituted = RoleInfo::new(V1, false, RoleDispatchOrigin::SignedAs { who: BRUNO });
    assert_eq!(
        substituted.infer_origin(ANNA),
        ExecutionOrigin::Signed { who: BRUNO }
    );

    let privileged = RoleInfo::new(V1, false, RoleDispatchOrigin::Root);
    assert_eq!(privileged.infer_origin(ANNA), ExecutionOrigin::Root);
}

#[test]
fn registry_counter_primitives_report_missing_roles() {
    let mut state = Rbac::new(8, 8);
    let ghost_name = b"Ghost".to_vec();
    assert_eq!(
        state.inc_role_consumers(&ghost_name),
        Err(Error::RoleDoesNotExist)
    );
    assert_eq!(
        state.dec_role_consumers(&ghost_name),
        Err(Error::RoleDoesNotExist)
    );
}

#[test]
fn genesis_seeds_roles_edges_and_counters() {
    let mut state = Rbac::new(8, 8);
    let r = b"R".to_vec();
    let s = b"S".to_vec();
    let config = GenesisConfig {
        roles: vec![
            (r.clone(), false, RoleDispatchOrigin::Regular),
            (s.clone(), true, RoleDispatchOrigin::Root),
        ],
        calls: vec![(r.clone(), (1, 1)), (s.clone(), (2, 2))],
        users: vec![(r.clone(), ANNA), (s.clone(), ANNA), (r.clone(), BRUNO)],
    };
    assert!(state.build_genesis(&config, V1).is_ok());

    assert_eq!(state.roles(&r).unwrap().get_consumers_counter(), 3);
    assert_eq!(state.roles(&s).unwrap().get_consumers_counter(), 2);
    assert!(state.call_roles(&op(1, 1)).unwrap().contains(&r));
    assert!(state.account_roles(&ANNA).unwrap().contains(&s));
    assert!(state.account_roles(&BRUNO).unwrap().contains(&r));
    assert!(state.validate_by_metadata(op(2, 2), &ANNA, V1));
}

#[test]
fn genesis_stops_at_the_first_bad_seed() {
    let mut state = Rbac::new(8, 8);
    let r = b"R".to_vec();
    let config = GenesisConfig {
        roles: vec![
            (r.clone(), false, RoleDispatchOrigin::Regular),
            (r.clone(), false, RoleDispatchOrigin::Regular),
        ],
        calls: vec![],
        users: vec![],
    };
    assert_eq!(state.build_genesis(&config, V1), Err(Error::RoleExists));
    // The first seed had already applied.
    assert!(state.roles(&r).is_some());

    let mut other = Rbac::new(8, 8);
    let config = GenesisConfig {
        roles: vec![(r.clone(), false, RoleDispatchOrigin::Regular)],
        calls: vec![(b"Ghost".to_vec(), (1, 1))],
        users: vec![],
    };
    assert_eq!(
        other.build_genesis(&config, V1),
        Err(Error::RoleDoesNotExist)
    );
}

#[test]
fn limits_are_reported_as_configured() {
    let state = Rbac::new(3, 4);
    assert_eq!(state.roles_per_call_limit(), 3);
    assert_eq!(state.roles_per_account_limit(), 4);
}

#[test]
fn empty_role_names_and_zero_limits_are_edge_cases() {
    let mut state = Rbac::new(0, 0);
    let empty_name: Vec<u8> = Vec::new();
    assert!(state
        .create_role(empty_name.clone(), false, RoleDispatchOrigin::Regular, V1)
        .is_ok());
    assert_eq!(
        state.assign_role(ANNA, empty_name.clone(), V1),
        Err(Error::TooManyRolesPerAccount)
    );
    assert_eq!(
        state.add_call(op(1, 1), empty_name.clone(), V1),
        Err(Error::TooManyRolesPerCall)
    );
    assert!(state.remove_role(&empty_name).is_ok());
}
