use omni::account::{
    AccountModule, AddFeaturesArgs, AddRolesArgs, CreateArgs, DeleteArgs, GetRolesArgs, InfoArgs,
    InfoReturn, ListRolesArgs, RemoveRolesArgs, SetDescriptionArgs,
};
use omni::error::OmniError;
use omni::features::{ledger_feature, multisig_feature, FeatureSet, LEDGER_FEATURE_ID, MULTISIG_FEATURE_ID};
use omni::identity::Identity;
use omni::rolemap::RoleMap;
use omni::roles::{Role, RoleSet};

fn identity(seed: u8) -> Identity {
    Identity::from_public_key(&[seed; 32])
}

struct SetupWithArgs {
    module_impl: AccountModule,
    id: Identity,
    args: CreateArgs,
}

fn setup_with_args() -> SetupWithArgs {
    let module_impl = AccountModule::new(identity(8));
    let id = identity(9);
    let mut roles = RoleMap::new();
    roles.insert(identity(2), RoleSet::singleton(Role::CanMultisigApprove));
    roles.insert(identity(3), RoleSet::singleton(Role::CanMultisigApprove));
    let mut features = FeatureSet::new();
    features.add(multisig_feature()).unwrap();
    SetupWithArgs {
        module_impl,
        id,
        args: CreateArgs {
            description: Some("Foobar".to_string()),
            roles: Some(roles),
            features,
        },
    }
}

struct SetupWithAccount {
    module_impl: AccountModule,
    id: Identity,
    account_id: Identity,
}

fn setup_with_account() -> SetupWithAccount {
    let SetupWithArgs { mut module_impl, id, args } = setup_with_args();
    let account_id = module_impl.create(&id, args).unwrap().id;
    SetupWithAccount { module_impl, id, account_id }
}

fn account_info(module_impl: &AccountModule, id: &Identity, account_id: &Identity) -> InfoReturn {
    let result = module_impl.info(id, InfoArgs { account: *account_id });
    assert!(result.is_ok());
    result.unwrap()
}

fn union_of(info: &InfoReturn) -> RoleSet {
    let mut roles = RoleSet::empty();
    let mut i = 0;
    while i < info.roles.len() {
        let (_, rs) = info.roles.entry_at(i);
        roles = roles.union(&rs);
        i += 1;
    }
    roles
}

#[test]
/// Verify we can create an account
fn create() {
    let SetupWithArgs { mut module_impl, id, args } = setup_with_args();
    let result = module_impl.create(&id, args);
    assert!(result.is_ok());
}

#[test]
/// Verify we can't create an account with roles unsupported by feature
fn create_invalid_role() {
    let SetupWithArgs { mut module_impl, id, mut args } = setup_with_args();
    if let Some(roles) = args.roles.as_mut() {
        roles.insert(identity(4), RoleSet::singleton(Role::CanLedgerTransact));
    }
    let result = module_impl.create(&id, args);
    assert!(result.is_err());
    assert_eq!(result.unwrap_err().code(), OmniError::unknown_role().code());
}

#[test]
/// Verify we can change the account description
fn set_description() {
    let SetupWithAccount { mut module_impl, id, account_id } = setup_with_account();
    let result = module_impl.set_description(
        &id,
        SetDescriptionArgs { account: account_id, description: "New".to_string() },
    );
    assert!(result.is_ok());
    assert_eq!(
        account_info(&module_impl, &id, &account_id).description,
        Some("New".to_string())
    );
}

#[test]
/// Verify non-owner is not able to change the description
fn set_description_non_owner() {
    let SetupWithAccount { mut module_impl, account_id, .. } = setup_with_account();
    let result = module_impl.set_description(
        &identity(1),
        SetDescriptionArgs { account: account_id, description: "Other".to_string() },
    );
    assert!(result.is_err());
    assert_eq!(
        result.unwrap_err().code(),
        OmniError::user_needs_role("owner".to_string()).code()
    );
}

#[test]
/// Verify we can list account roles
fn list_roles() {
    let SetupWithAccount { module_impl, id, account_id } = setup_with_account();
    let result = module_impl.list_roles(&id, ListRolesArgs { account: account_id });
    assert!(result.is_ok());
    let info = account_info(&module_impl, &id, &account_id);
    let roles = union_of(&info).without_owner();
    assert_eq!(result.unwrap().roles, roles);
}

#[test]
/// Verify we can get given identities account roles
fn get_roles() {
    let SetupWithAccount { module_impl, id, account_id } = setup_with_account();
    let identities = vec![identity(2), identity(3)];
    let result = module_impl.get_roles(
        &id,
        GetRolesArgs { account: account_id, identities: identities.clone() },
    );
    assert!(result.is_ok());
    let returned = result.unwrap().roles;
    let info = account_info(&module_impl, &id, &account_id);
    assert_eq!(returned.len(), 2);
    for i in &identities {
        assert_eq!(returned.get(i), info.roles.get(i));
    }
}

#[test]
/// Verify we can add new roles
fn add_roles() {
    let SetupWithAccount { mut module_impl, id, account_id } = setup_with_account();
    let new_role = (identity(4), RoleSet::singleton(Role::CanMultisigApprove));
    let mut roles = RoleMap::new();
    roles.insert(new_role.0, new_role.1);
    let result = module_impl.add_roles(&id, AddRolesArgs { account: account_id, roles });
    assert!(result.is_ok());
    let info = account_info(&module_impl, &id, &account_id);
    assert_eq!(info.roles.get(&identity(4)), new_role.1);
}

#[test]
/// Verify non-owner is not able to add role
fn add_roles_non_owner() {
    let SetupWithAccount { mut module_impl, account_id, .. } = setup_with_account();
    let mut new_role = RoleMap::new();
    new_role.insert(identity(4), RoleSet::singleton(Role::CanLedgerTransact));
    let result = module_impl.add_roles(
        &identity(2),
        AddRolesArgs { account: account_id, roles: new_role },
    );
    assert!(result.is_err());
    assert_eq!(
        result.unwrap_err().code(),
        OmniError::user_needs_role("owner".to_string()).code()
    );
}

#[test]
/// Verify we can remove roles
fn remove_roles() {
    let SetupWithAccount { mut module_impl, id, account_id } = setup_with_account();
    let mut roles = RoleMap::new();
    roles.insert(identity(2), RoleSet::singleton(Role::CanMultisigApprove));
    let result = module_impl.remove_roles(&id, RemoveRolesArgs { account: account_id, roles });
    assert!(result.is_ok());

    let result = module_impl.get_roles(
        &id,
        GetRolesArgs { account: account_id, identities: vec![identity(2)] },
    );
    assert!(result.is_ok());
    assert_eq!(result.unwrap().roles.get(&identity(2)), RoleSet::empty());
}

#[test]
// Verify non-owner is not able to remove role
fn remove_roles_non_owner() {
    let SetupWithAccount { mut module_impl, account_id, .. } = setup_with_account();
    let mut roles = RoleMap::new();
    roles.insert(identity(2), RoleSet::singleton(Role::CanMultisigApprove));
    let result = module_impl.remove_roles(
        &identity(2),
        RemoveRolesArgs { account: account_id, roles },
    );
    assert!(result.is_err());
    assert_eq!(
        result.unwrap_err().code(),
        OmniError::user_needs_role("owner".to_string()).code()
    );
}

#[test]
/// Verify we can delete account
fn delete() {
    let SetupWithAccount { mut module_impl, id, account_id } = setup_with_account();
    let result = module_impl.delete(&id, DeleteArgs { account: account_id });
    assert!(result.is_ok());

    let result = module_impl.info(&id, InfoArgs { account: account_id });
    assert!(result.is_err());
    assert_eq!(result.unwrap_err().code(), OmniError::unknown_account().code());
}

#[test]
/// Verify non-owner is unable to delete account
fn delete_non_owner() {
    let SetupWithAccount { mut module_impl, account_id, .. } = setup_with_account();
    let result = module_impl.delete(&identity(2), DeleteArgs { account: account_id });
    assert!(result.is_err());
    assert_eq!(
        result.unwrap_err().code(),
        OmniError::user_needs_role("owner".to_string()).code()
    );
}

/// Verify that add_feature works with a valid feature.
#[test]
fn add_feature() {
    let SetupWithAccount { mut module_impl, id, account_id } = setup_with_account();

    let info_before = module_impl
        .info(&id, InfoArgs { account: account_id })
        .expect("Could not get info");

    // Prevent test from regressing.
    assert!(!info_before.features.has_id(LEDGER_FEATURE_ID));

    let mut features = FeatureSet::new();
    features.add(ledger_feature()).unwrap();
    module_impl
        .add_features(&id, AddFeaturesArgs { account: account_id, roles: None, features })
        .expect("Could not add feature");

    let info_after = module_impl
        .info(&id, InfoArgs { account: account_id })
        .expect("Could not get info");

    assert!(info_after.features.has_id(LEDGER_FEATURE_ID));
}

/// Verify that a non-owner cannot add a feature.
#[test]
fn add_feature_non_owner() {
    let SetupWithAccount { mut module_impl, id, account_id } = setup_with_account();

    let mut features = FeatureSet::new();
    features.add(ledger_feature()).unwrap();
    assert!(module_impl
        .add_features(
            &identity(4),
            AddFeaturesArgs { account: account_id, roles: None, features },
        )
        .is_err());

    let info_after = account_info(&module_impl, &id, &account_id);

    assert!(!info_after.features.has_id(LEDGER_FEATURE_ID));
}

/// Verify that add_feature can attach a feature and grant a role in one call.
#[test]
fn add_feature_and_role() {
    let SetupWithAccount { mut module_impl, id, account_id } = setup_with_account();

    let info_before = account_info(&module_impl, &id, &account_id);
    // Prevent test from regressing.
    assert!(!info_before.features.has_id(LEDGER_FEATURE_ID));
    assert!(!info_before.roles.contains_key(&identity(4)));

    let mut features = FeatureSet::new();
    features.add(ledger_feature()).unwrap();
    let mut roles = RoleMap::new();
    roles.insert(identity(4), RoleSet::singleton(Role::Owner));
    module_impl
        .add_features(
            &id,
            AddFeaturesArgs { account: account_id, roles: Some(roles), features },
        )
        .expect("Could not add feature");

    let info_after = account_info(&module_impl, &id, &account_id);

    assert!(info_after.features.has_id(LEDGER_FEATURE_ID));
    assert!(info_after.roles.get(&identity(4)).contains(Role::Owner));
}

/// Verify that add_feature cannot add existing features.
#[test]
fn add_feature_existing() {
    let SetupWithAccount { mut module_impl, id, account_id } = setup_with_account();

    let info_before = account_info(&module_impl, &id, &account_id);

    assert!(info_before.features.has_id(MULTISIG_FEATURE_ID));

    let mut features = FeatureSet::new();
    features.add(multisig_feature()).unwrap();
    let result = module_impl.add_features(
        &id,
        AddFeaturesArgs { account: account_id, roles: None, features },
    );
    assert!(result.is_err());

    let info_after = account_info(&module_impl, &id, &account_id);

    assert!(info_after.features.has_id(MULTISIG_FEATURE_ID));
}
