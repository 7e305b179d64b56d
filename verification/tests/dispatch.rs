use omni::account::{
    AccountModule, AddFeaturesArgs, AddRolesArgs, CreateArgs, DeleteArgs, GetRolesArgs, InfoArgs,
    RemoveRolesArgs, SetDescriptionArgs,
};
use omni::error::OmniError;
use omni::features::{ledger_feature, FeatureSet};
use omni::identity::Identity;
use omni::message::{verify_sender, RequestMessage};
use omni::rolemap::RoleMap;
use omni::roles::{Role, RoleSet};
use omni::server::{Attribute, Execution, OmniModuleInfo, OmniServer};
use ring::signature::KeyPair;

fn identity(seed: u8) -> Identity {
    Identity::from_public_key(&[seed; 32])
}

fn keypair(seed: u8) -> ring::signature::Ed25519KeyPair {
    ring::signature::Ed25519KeyPair::from_seed_unchecked(&[seed; 32]).unwrap()
}

fn test_server() -> (OmniServer, Identity) {
    let kp = keypair(7);
    let id = Identity::from_public_key(kp.public_key().as_ref());
    (OmniServer::new(id, &kp), id)
}

fn request(to: Identity, method: &str, data: Vec<u8>) -> RequestMessage {
    RequestMessage {
        from: Identity::anonymous(),
        to,
        method: method.to_string(),
        data,
        public_key: None,
        signature: None,
    }
}

fn response_payload(r: Result<Execution, OmniError>) -> Vec<u8> {
    match r.unwrap() {
        Execution::Response(resp) => resp.result.unwrap(),
        Execution::Dispatch(_) => panic!("expected a built-in response"),
    }
}

#[test]
fn heartbeat_empty_payload_from_server() {
    let (server, id) = test_server();
    let result = server.execute(request(id, "heartbeat", vec![1, 2, 3]));
    match result.unwrap() {
        Execution::Response(resp) => {
            assert_eq!(resp.from, id);
            assert_eq!(resp.result.unwrap(), Vec::<u8>::new());
        },
        Execution::Dispatch(_) => panic!("heartbeat is a built-in"),
    }
}

#[test]
fn echo_returns_data_unchanged() {
    let (server, id) = test_server();
    let payload = response_payload(server.execute(request(id, "echo", vec![9, 8, 7])));
    assert_eq!(payload, vec![9, 8, 7]);
}

#[test]
fn endpoints_payload_is_cbor_of_names() {
    let (server, id) = test_server();
    let names = server.endpoints();
    // sorted and duplicate-free
    assert_eq!(
        names,
        vec!["echo".to_string(), "endpoints".to_string(), "heartbeat".to_string(),
            "status".to_string()]
    );
    let expected = minicbor::to_vec(&names).unwrap();
    let payload = response_payload(server.execute(request(id, "endpoints", vec![])));
    assert_eq!(payload, expected);
}

#[test]
fn endpoints_are_sorted_across_modules() {
    let (server, _id) = test_server();
    let server = server
        .with_module(module_info("ledger", 2, vec!["ledger.send", "aaa"]))
        .unwrap();
    assert_eq!(
        server.endpoints(),
        vec!["aaa".to_string(), "echo".to_string(), "endpoints".to_string(),
            "heartbeat".to_string(), "ledger.send".to_string(), "status".to_string()]
    );
}

#[test]
fn duplicate_endpoint_within_module_is_deduplicated() {
    let (server, id) = test_server();
    let server = server
        .with_module(module_info("dup", 3, vec!["dup.x", "dup.x"]))
        .unwrap();
    let names = server.endpoints();
    assert_eq!(names.iter().filter(|n| n.as_str() == "dup.x").count(), 1);
    assert!(server.validate(&request(id, "dup.x", vec![])).is_ok());
    match server.execute(request(id, "dup.x", vec![])).unwrap() {
        Execution::Dispatch(i) => assert_eq!(i, 1),
        Execution::Response(_) => panic!("module endpoints are not built-ins"),
    }
}

#[test]
fn module_repeating_its_own_attribute_id_is_refused() {
    let (server, _id) = test_server();
    let module = OmniModuleInfo {
        name: "twice".to_string(),
        attributes: vec![
            Attribute { id: 4, endpoints: Some(vec!["a.b".to_string()]) },
            Attribute { id: 4, endpoints: Some(vec!["c.d".to_string()]) },
        ],
    };
    assert!(server.with_module(module).is_err());
}

#[test]
fn status_payload_is_cbor_of_fields() {
    let kp = keypair(7);
    let id = Identity::from_public_key(kp.public_key().as_ref());
    let server = OmniServer::new(id, &kp);
    let status = server.status();
    assert_eq!(status.version, 1);
    assert_eq!(status.public_key, kp.public_key().as_ref().to_vec());
    let expected = minicbor::to_vec((
        1u64,
        status.public_key.clone(),
        id.tag(),
        id.hash_bytes(),
        Vec::<u64>::new(),
        Vec::<u8>::new(),
    ))
    .unwrap();
    let payload = response_payload(server.execute(request(id, "status", vec![])));
    assert_eq!(payload, expected);
    assert_eq!(status.to_bytes(), expected);
}

#[test]
fn unknown_destination_whatever_the_method() {
    let (server, id) = test_server();
    for method in ["status", "heartbeat", "nonsense"] {
        let result = server.validate(&request(identity(5), method, vec![]));
        assert_eq!(
            result.unwrap_err().code(),
            OmniError::unknown_destination(identity(5), id).code()
        );
    }
}

#[test]
fn validate_checks_method_cache() {
    let (server, id) = test_server();
    assert!(server.validate(&request(id, "heartbeat", vec![])).is_ok());
    assert!(server.validate(&request(Identity::anonymous(), "status", vec![])).is_ok());
    let result = server.validate(&request(id, "nonsense", vec![]));
    assert_eq!(result.unwrap_err().code(), OmniError::invalid_method_name("nonsense".to_string()).code());
}

fn module_info(name: &str, id: u64, endpoints: Vec<&str>) -> OmniModuleInfo {
    OmniModuleInfo {
        name: name.to_string(),
        attributes: vec![Attribute {
            id,
            endpoints: Some(endpoints.into_iter().map(|s| s.to_string()).collect()),
        }],
    }
}

#[test]
fn registration_refuses_attribute_id_overlap() {
    let (server, _id) = test_server();
    // the base module holds attribute id 0
    let result = server.with_module(module_info("ledger", 0, vec!["ledger.balance"]));
    assert!(result.is_err());
}

#[test]
fn registration_refuses_endpoint_overlap() {
    let (server, _id) = test_server();
    // a fresh attribute id, but "echo" is already a registered endpoint
    let result = server.with_module(module_info("shadow", 9, vec!["echo"]));
    assert!(result.is_err());
}

#[test]
fn dispatch_to_first_matching_module() {
    let (server, id) = test_server();
    let server = server
        .with_module(module_info("ledger", 2, vec!["ledger.info", "ledger.send"]))
        .unwrap();
    assert!(server.validate(&request(id, "ledger.send", vec![])).is_ok());
    match server.execute(request(id, "ledger.send", vec![])).unwrap() {
        Execution::Dispatch(i) => assert_eq!(i, 1),
        Execution::Response(_) => panic!("module endpoints are not built-ins"),
    }
    let result = server.execute(request(id, "nonsense", vec![]));
    assert_eq!(result.unwrap_err().code(), OmniError::invalid_method_name("nonsense".to_string()).code());
}

#[test]
fn sealed_response_comes_from_server() {
    let (server, id) = test_server();
    let resp = omni::message::ResponseMessage::from_request(
        &request(id, "ledger.info", vec![]),
        &identity(3),
        Ok(vec![1]),
    );
    let sealed = server.seal_response(resp);
    assert_eq!(sealed.from, id);
    assert_eq!(sealed.result.unwrap(), vec![1]);
}

#[test]
fn sender_verification_accepts_valid_signature() {
    let kp = keypair(3);
    let from = Identity::from_public_key(kp.public_key().as_ref());
    let canonical = b"canonical envelope bytes".to_vec();
    let signature = kp.sign(&canonical).as_ref().to_vec();
    let msg = RequestMessage {
        from,
        to: identity(1),
        method: "status".to_string(),
        data: vec![],
        public_key: Some(kp.public_key().as_ref().to_vec()),
        signature: Some(signature.clone()),
    };
    assert!(verify_sender(&msg, &canonical).is_ok());

    // a different message must not verify
    assert!(verify_sender(&msg, b"other bytes").is_err());

    // a key that does not derive the sender must not verify
    let other = keypair(4);
    let msg2 = RequestMessage {
        public_key: Some(other.public_key().as_ref().to_vec()),
        ..msg
    };
    let result = verify_sender(&msg2, &canonical);
    assert_eq!(result.unwrap_err().code(), OmniError::CouldNotVerifySignature.code());
}

#[test]
fn anonymous_sender_needs_no_signature() {
    let msg = request(identity(1), "status", vec![]);
    assert!(verify_sender(&msg, b"whatever").is_ok());
}

#[test]
fn identity_derivation_hashes_the_key() {
    let anon = Identity::anonymous();
    assert!(anon.is_anonymous());
    assert!(!anon.is_addressable());
    let id = Identity::from_public_key(&[1, 2, 3, 4, 5]);
    assert!(id.is_addressable());
    // the identity carries a 32-byte digest, not the key itself
    assert_eq!(id.hash_bytes().len(), 32);
    assert_ne!(id.hash_bytes(), vec![1, 2, 3, 4, 5]);
    assert_ne!(identity(1), identity(2));
    let sub = id.subresource(4);
    assert!(sub.is_addressable());
    assert_ne!(sub, id);
    assert_eq!(sub.hash_bytes(), id.hash_bytes());
}

fn fresh_account() -> (AccountModule, Identity, Identity) {
    let mut module_impl = AccountModule::new(identity(8));
    let owner = identity(9);
    let args = CreateArgs {
        description: None,
        roles: None,
        features: FeatureSet::new(),
    };
    let account_id = module_impl.create(&owner, args).unwrap().id;
    (module_impl, owner, account_id)
}

#[test]
fn creator_is_owner_and_removal_cannot_take_it() {
    let (mut module_impl, owner, account_id) = fresh_account();
    let info = module_impl.info(&owner, InfoArgs { account: account_id }).unwrap();
    assert!(info.roles.get(&owner).contains(Role::Owner));

    // a removal request that lists the owner role leaves it in place
    let mut roles = RoleMap::new();
    let mut set = RoleSet::singleton(Role::Owner);
    set.insert(Role::CanLedgerTransact);
    roles.insert(owner, set);
    module_impl
        .remove_roles(&owner, RemoveRolesArgs { account: account_id, roles: roles })
        .unwrap();
    let info = module_impl.info(&owner, InfoArgs { account: account_id }).unwrap();
    assert!(info.roles.get(&owner).contains(Role::Owner));
}

#[test]
fn add_roles_before_feature_fails_and_changes_nothing() {
    let (mut module_impl, owner, account_id) = fresh_account();
    let mut roles = RoleMap::new();
    roles.insert(identity(2), RoleSet::singleton(Role::CanLedgerTransact));
    let result = module_impl.add_roles(&owner, AddRolesArgs { account: account_id, roles });
    assert_eq!(result.unwrap_err().code(), OmniError::unknown_role().code());
    let result = module_impl.get_roles(
        &owner,
        GetRolesArgs { account: account_id, identities: vec![identity(2)] },
    );
    assert_eq!(result.unwrap().roles.get(&identity(2)), RoleSet::empty());
}

#[test]
fn add_feature_enables_role_in_same_call() {
    let (mut module_impl, owner, account_id) = fresh_account();
    let mut features = FeatureSet::new();
    features.add(ledger_feature()).unwrap();
    let mut roles = RoleMap::new();
    roles.insert(identity(2), RoleSet::singleton(Role::CanLedgerTransact));
    module_impl
        .add_features(
            &owner,
            AddFeaturesArgs { account: account_id, roles: Some(roles), features },
        )
        .unwrap();
    let result = module_impl.get_roles(
        &owner,
        GetRolesArgs { account: account_id, identities: vec![identity(2)] },
    );
    assert_eq!(
        result.unwrap().roles.get(&identity(2)),
        RoleSet::singleton(Role::CanLedgerTransact)
    );
}

#[test]
fn add_then_remove_roundtrips_role_set() {
    let (mut module_impl, owner, account_id) = fresh_account();
    let mut features = FeatureSet::new();
    features.add(ledger_feature()).unwrap();
    module_impl
        .add_features(&owner, AddFeaturesArgs { account: account_id, roles: None, features })
        .unwrap();
    let before = module_impl
        .get_roles(&owner, GetRolesArgs { account: account_id, identities: vec![identity(2)] })
        .unwrap()
        .roles
        .get(&identity(2));
    let mut roles = RoleMap::new();
    roles.insert(identity(2), RoleSet::singleton(Role::CanLedgerTransact));
    module_impl
        .add_roles(&owner, AddRolesArgs { account: account_id, roles: roles.duplicate() })
        .unwrap();
    module_impl
        .remove_roles(&owner, RemoveRolesArgs { account: account_id, roles })
        .unwrap();
    let after = module_impl
        .get_roles(&owner, GetRolesArgs { account: account_id, identities: vec![identity(2)] })
        .unwrap()
        .roles
        .get(&identity(2));
    assert_eq!(before, after);
}

#[test]
fn failed_feature_add_keeps_collection_and_order() {
    let (mut module_impl, owner, account_id) = fresh_account();
    let mut features = FeatureSet::new();
    features.add(ledger_feature()).unwrap();
    module_impl
        .add_features(&owner, AddFeaturesArgs { account: account_id, roles: None, features })
        .unwrap();
    let before = module_impl.info(&owner, InfoArgs { account: account_id }).unwrap().features;

    let mut dup = FeatureSet::new();
    dup.add(ledger_feature()).unwrap();
    let result = module_impl.add_features(
        &owner,
        AddFeaturesArgs { account: account_id, roles: None, features: dup },
    );
    assert_eq!(result.unwrap_err().code(), OmniError::duplicate_feature().code());

    let after = module_impl.info(&owner, InfoArgs { account: account_id }).unwrap().features;
    assert_eq!(before.len(), after.len());
    for i in 0..before.len() {
        assert_eq!(before.get(i), after.get(i));
    }
}

#[test]
fn non_owner_mutations_all_fail_with_owner_role_error() {
    let (mut module_impl, owner, account_id) = fresh_account();
    let caller = identity(2);
    let owner_code = OmniError::user_needs_role("owner".to_string()).code();

    let r = module_impl.set_description(
        &caller,
        SetDescriptionArgs { account: account_id, description: "x".to_string() },
    );
    assert_eq!(r.unwrap_err().code(), owner_code);

    let r = module_impl.add_roles(
        &caller,
        AddRolesArgs { account: account_id, roles: RoleMap::new() },
    );
    assert_eq!(r.unwrap_err().code(), owner_code);

    let r = module_impl.remove_roles(
        &caller,
        RemoveRolesArgs { account: account_id, roles: RoleMap::new() },
    );
    assert_eq!(r.unwrap_err().code(), owner_code);

    let r = module_impl.add_features(
        &caller,
        AddFeaturesArgs { account: account_id, roles: None, features: FeatureSet::new() },
    );
    assert_eq!(r.unwrap_err().code(), owner_code);

    let r = module_impl.delete(&caller, DeleteArgs { account: account_id });
    assert_eq!(r.unwrap_err().code(), owner_code);

    // and none of them changed the account
    let info = module_impl.info(&owner, InfoArgs { account: account_id }).unwrap();
    assert_eq!(info.description, None);
    assert_eq!(info.features.len(), 0);
}

#[test]
fn deleted_account_is_unknown() {
    let (mut module_impl, owner, account_id) = fresh_account();
    module_impl.delete(&owner, DeleteArgs { account: account_id }).unwrap();
    let result = module_impl.info(&owner, InfoArgs { account: account_id });
    assert_eq!(result.unwrap_err().code(), OmniError::unknown_account().code());
}
