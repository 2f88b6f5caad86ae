use appmgr::manifest::{bind_interfaces, copy_names, copy_secrets, find_key};
use appmgr::{ErrorKind, InterfaceSecret, Manifest};
use torut::onion::TorSecretKeyV3;

fn key(fill: u8) -> TorSecretKeyV3 {
    TorSecretKeyV3::from([fill; 64])
}

fn secret(interface: &str, fill: u8) -> InterfaceSecret {
    InterfaceSecret { interface: interface.to_string(), key: key(fill) }
}

fn names(list: &[&str]) -> Vec<String> {
    list.iter().map(|name| name.to_string()).collect()
}

#[test]
fn identity_is_package_id_and_version() {
    let manifest = Manifest {
        id: "foo".to_string(),
        version: "1.0.0".to_string(),
        interfaces: names(&["main"]),
    };
    assert_eq!(manifest.identity(), ("foo".to_string(), "1.0.0".to_string()));
}

#[test]
fn snapshot_equals_the_manifest_it_was_taken_of() {
    let manifest = Manifest {
        id: "foo".to_string(),
        version: "1.0.0".to_string(),
        interfaces: names(&["main", "rpc"]),
    };
    let copy = manifest.snapshot();
    assert_eq!(copy, manifest);
}

#[test]
fn snapshot_is_not_reached_by_later_changes() {
    let mut manifest = Manifest {
        id: "foo".to_string(),
        version: "1.0.0".to_string(),
        interfaces: names(&["main"]),
    };
    let copy = manifest.snapshot();
    manifest.interfaces.push("rpc".to_string());
    manifest.version = "1.0.1".to_string();
    assert_eq!(copy.version, "1.0.0");
    assert_eq!(copy.interfaces, names(&["main"]));
}

#[test]
fn copy_names_keeps_names_and_order() {
    assert_eq!(copy_names(&names(&["b", "a", "c"])), names(&["b", "a", "c"]));
    assert_eq!(copy_names(&Vec::new()), Vec::<String>::new());
}

#[test]
fn copy_secrets_keeps_interfaces_keys_and_order() {
    let secrets = vec![secret("main", 1), secret("rpc", 2)];
    let copy = copy_secrets(&secrets);
    assert_eq!(copy, secrets);
    assert_eq!(copy[0].key.as_bytes(), [1u8; 64]);
    assert_eq!(copy[1].key.as_bytes(), [2u8; 64]);
}

#[test]
fn find_key_gives_the_key_of_the_named_interface() {
    let secrets = vec![secret("main", 1), secret("rpc", 2), secret("p2p", 3)];
    let found = find_key(&secrets, &"rpc".to_string());
    assert_eq!(found.map(|key| key.as_bytes()), Some([2u8; 64]));
}

#[test]
fn find_key_gives_the_first_of_two_keys_for_one_interface() {
    let secrets = vec![secret("main", 1), secret("main", 2)];
    let found = find_key(&secrets, &"main".to_string());
    assert_eq!(found.map(|key| key.as_bytes()), Some([1u8; 64]));
}

#[test]
fn find_key_gives_nothing_for_an_unknown_interface() {
    let secrets = vec![secret("main", 1)];
    assert_eq!(find_key(&secrets, &"rpc".to_string()), None);
    assert_eq!(find_key(&Vec::new(), &"main".to_string()), None);
}

#[test]
fn find_key_tells_similar_names_apart() {
    let secrets = vec![secret("main", 1)];
    assert_eq!(find_key(&secrets, &"mai".to_string()), None);
    assert_eq!(find_key(&secrets, &"main ".to_string()), None);
    assert_eq!(find_key(&secrets, &"Main".to_string()), None);
}

#[test]
fn bind_interfaces_pairs_each_interface_with_its_key_in_declared_order() {
    let secrets = vec![secret("rpc", 2), secret("unused", 9), secret("main", 1)];
    let bound = bind_interfaces(&names(&["main", "rpc"]), &secrets);
    assert_eq!(bound, Ok(vec![secret("main", 1), secret("rpc", 2)]));
}

#[test]
fn bind_interfaces_hands_out_the_very_keys_it_was_given() {
    let mut bytes = [0u8; 64];
    for (i, byte) in bytes.iter_mut().enumerate() {
        *byte = i as u8;
    }
    let secrets = vec![InterfaceSecret {
        interface: "main".to_string(),
        key: TorSecretKeyV3::from(bytes),
    }];
    let bound = bind_interfaces(&names(&["main"]), &secrets).unwrap();
    assert_eq!(bound.len(), 1);
    assert_eq!(bound[0].key.as_bytes(), bytes);
    assert_eq!(secrets[0].key.as_bytes(), bytes);
}

#[test]
fn bind_interfaces_of_no_interfaces_is_empty() {
    let bound = bind_interfaces(&Vec::new(), &vec![secret("main", 1)]);
    assert_eq!(bound, Ok(Vec::new()));
}

#[test]
fn bind_interfaces_fails_on_a_missing_key() {
    let secrets = vec![secret("main", 1)];
    let error = bind_interfaces(&names(&["main", "rpc"]), &secrets).unwrap_err();
    assert_eq!(error.kind, ErrorKind::Tor);
    assert_eq!(error.message, "interface rpc missing key");
}

#[test]
fn bind_interfaces_names_the_first_interface_without_a_key() {
    let secrets = vec![secret("main", 1)];
    let error = bind_interfaces(&names(&["p2p", "main", "rpc"]), &secrets).unwrap_err();
    assert_eq!(error.kind, ErrorKind::Tor);
    assert_eq!(error.message, "interface p2p missing key");
}
