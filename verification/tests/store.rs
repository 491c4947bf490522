use access_control::AccessControlData;
use access_control::AccessControlError;
use access_control::AccountId;
use access_control::BitMap;

fn entry_bytes(assoc: &[(AccountId, BitMap)], who: &AccountId) -> Option<Vec<u8>> {
    assoc.iter().find(|e| e.0 .0 == who.0).map(|e| e.1 .0.clone())
}

#[test]
fn set_role_works() {
    let caller = AccountId([0u8; 32]);
    let account = AccountId([1u8; 32]);
    let mut access_control = AccessControlData::<4>::new(caller);
    let (r1, r2) = (1, 2);

    // set some roles and check that they have been set
    access_control.set_role(caller, account, r1).unwrap();
    access_control.set_role(caller, account, r2).unwrap();

    let roles = entry_bytes(&access_control.roles_per_account, &account)
        .unwrap_or_else(|| panic!("missing entry"));

    assert_eq!(roles, [6, 0, 0, 0]);
}

#[test]
fn unset_role_works() {
    let caller = AccountId([0u8; 32]);
    let account = AccountId([1u8; 32]);
    let mut access_control = AccessControlData::<4>::new(caller);
    let (r1, r2, r3, r4) = (1, 2, 3, 8);

    // set some roles for testing
    access_control.set_role(caller, account, r1).unwrap();
    access_control.set_role(caller, account, r2).unwrap();
    access_control.set_role(caller, account, r3).unwrap();

    // unset one of the roles and check that it has been unset
    access_control.unset_role(caller, account, r2).unwrap();

    // verify that unset'ing a role that is not set doesn't do
    // anything weird
    access_control.unset_role(caller, account, r4).unwrap();

    let roles = entry_bytes(&access_control.roles_per_account, &account)
        .unwrap_or_else(|| panic!("missing entry"));

    assert_eq!(roles, [10, 0, 0, 0]);
}

#[test]
fn has_role_works() {
    let caller = AccountId([0u8; 32]);
    let account = AccountId([1u8; 32]);
    let mut access_control = AccessControlData::<4>::new(caller);
    let (r1, r2, r3, r4, r5) = (1, 2, 3, 4, 5);

    // set some roles for testing
    access_control.set_role(caller, account, r1).unwrap();
    access_control.set_role(caller, account, r2).unwrap();
    access_control.set_role(caller, account, r5).unwrap();

    assert_eq!(access_control.has_role(account, r1), true);
    assert_eq!(access_control.has_role(account, r2), true);
    assert_eq!(access_control.has_role(account, r3), false);
    assert_eq!(access_control.has_role(account, r4), false);
    assert_eq!(access_control.has_role(account, r5), true);
}

#[test]
fn new_bootstraps_the_admin() {
    let admin = AccountId([7u8; 32]);
    let other = AccountId([8u8; 32]);
    let store = AccessControlData::<4>::new(admin);

    assert!(store.has_admin_role(admin, 0));
    assert!(!store.has_admin_role(other, 0));
    for r in 1..32 {
        assert!(!store.has_admin_role(admin, r));
        assert!(!store.has_role(admin, r));
    }
    assert!(!store.has_role(admin, 0));
}

#[test]
fn full_grant_revoke_scenario() {
    let a = AccountId([0u8; 32]);
    let b = AccountId([1u8; 32]);
    let c = AccountId([2u8; 32]);
    let mut store = AccessControlData::<4>::new(a);

    assert!(store.has_admin_role(a, 0));

    store.set_role(a, b, 1).unwrap();
    store.set_role(a, b, 2).unwrap();
    assert_eq!(store.roles_of(b), vec![1, 2]);

    store.unset_role(a, b, 2).unwrap();
    assert_eq!(store.roles_of(b), vec![1]);

    let res = store.set_role(b, c, 1);
    assert!(matches!(res, Err(AccessControlError::CallerIsNotAdmin)));
    assert_eq!(store.roles_of(c), Vec::<usize>::new());
}

#[test]
fn unauthorized_caller_changes_nothing() {
    let admin = AccountId([0u8; 32]);
    let intruder = AccountId([9u8; 32]);
    let victim = AccountId([1u8; 32]);
    let mut store = AccessControlData::<4>::new(admin);
    store.set_role(admin, victim, 3).unwrap();

    let res = store.set_role(intruder, victim, 4);
    assert!(matches!(res, Err(AccessControlError::CallerIsNotAdmin)));
    let res = store.unset_role(intruder, victim, 3);
    assert!(matches!(res, Err(AccessControlError::CallerIsNotAdmin)));

    assert_eq!(store.roles_of(victim), vec![3]);
    assert!(!store.has_role(victim, 4));
}

#[test]
fn grant_is_idempotent() {
    let admin = AccountId([0u8; 32]);
    let account = AccountId([1u8; 32]);
    let mut store = AccessControlData::<4>::new(admin);

    store.set_role(admin, account, 5).unwrap();
    let once = entry_bytes(&store.roles_per_account, &account).unwrap();
    store.set_role(admin, account, 5).unwrap();
    let twice = entry_bytes(&store.roles_per_account, &account).unwrap();

    assert_eq!(once, twice);
    assert_eq!(store.roles_of(account), vec![5]);
}

#[test]
fn revoke_is_idempotent() {
    let admin = AccountId([0u8; 32]);
    let account = AccountId([1u8; 32]);
    let mut store = AccessControlData::<4>::new(admin);

    store.set_role(admin, account, 5).unwrap();
    store.unset_role(admin, account, 5).unwrap();
    let once = entry_bytes(&store.roles_per_account, &account).unwrap();
    store.unset_role(admin, account, 5).unwrap();
    let twice = entry_bytes(&store.roles_per_account, &account).unwrap();

    assert_eq!(once, twice);
    assert_eq!(store.roles_of(account), Vec::<usize>::new());
}

#[test]
fn revoke_from_absent_target_is_a_noop() {
    let admin = AccountId([0u8; 32]);
    let stranger = AccountId([4u8; 32]);
    let mut store = AccessControlData::<4>::new(admin);

    store.unset_role(admin, stranger, 2).unwrap();

    assert_eq!(store.roles_of(stranger), Vec::<usize>::new());
    for r in 0..32 {
        assert!(!store.has_role(stranger, r));
    }
}

#[test]
fn default_admin_may_administer_every_role() {
    let admin = AccountId([0u8; 32]);
    let account = AccountId([1u8; 32]);
    let mut store = AccessControlData::<4>::new(admin);

    // the bootstrap admin holds only admin bit 0, yet administers all roles
    for r in 1..32 {
        assert!(!store.has_admin_role(admin, r));
        store.set_role(admin, account, r).unwrap();
        assert!(store.has_role(account, r));
        store.unset_role(admin, account, r).unwrap();
        assert!(!store.has_role(account, r));
    }
}

#[test]
fn role_specific_admin_administers_only_its_role() {
    let admin = AccountId([0u8; 32]);
    let officer = AccountId([5u8; 32]);
    let account = AccountId([1u8; 32]);
    let mut store = AccessControlData::<4>::new(admin);

    // hand the officer the admin bit for role 3 alone
    let mut bm = BitMap::new(4);
    bm.set_bit(3);
    store.admin_roles_per_account.push((officer, bm));

    assert!(store.is_admin_for(officer, 3));
    assert!(!store.is_admin_for(officer, 2));

    store.set_role(officer, account, 3).unwrap();
    assert!(store.has_role(account, 3));

    let res = store.set_role(officer, account, 2);
    assert!(matches!(res, Err(AccessControlError::CallerIsNotAdmin)));
    assert!(!store.has_role(account, 2));
}

#[test]
fn grant_leaves_other_bits_alone() {
    let admin = AccountId([0u8; 32]);
    let b = AccountId([1u8; 32]);
    let c = AccountId([2u8; 32]);
    let mut store = AccessControlData::<4>::new(admin);

    store.set_role(admin, b, 1).unwrap();
    store.set_role(admin, c, 2).unwrap();

    store.set_role(admin, b, 9).unwrap();

    assert_eq!(store.roles_of(b), vec![1, 9]);
    assert_eq!(store.roles_of(c), vec![2]);
    assert!(store.has_admin_role(admin, 0));

    store.unset_role(admin, b, 1).unwrap();

    assert_eq!(store.roles_of(b), vec![9]);
    assert_eq!(store.roles_of(c), vec![2]);
}

#[test]
fn roles_of_lists_set_bits_ascending() {
    let admin = AccountId([0u8; 32]);
    let account = AccountId([1u8; 32]);
    let mut store = AccessControlData::<4>::new(admin);

    for r in [31, 2, 17, 8] {
        store.set_role(admin, account, r).unwrap();
    }

    assert_eq!(store.roles_of(account), vec![2, 8, 17, 31]);
    assert_eq!(store.roles_of(admin), Vec::<usize>::new());
}
