use wiresync::client_server::MyWiresyncClientServerApi;
use wiresync::errors::WireSyncError;
use wiresync::server::MyWiresyncServerApi;
use wiresync::subnet::ServerConfig;

const BASE: u32 = (10 << 24) | (8 << 16);

fn coordinator() -> MyWiresyncServerApi {
    MyWiresyncServerApi::new(ServerConfig::subnet_24(10, 8, 0))
}

/// A stand-in for the external key derivation: one derived key per
/// registered record, in registry order.
fn derive_keys(c: &MyWiresyncServerApi) -> Vec<String> {
    c.registry
        .records()
        .iter()
        .map(|r| format!("PUB[{}]", r.key_material))
        .collect()
}

fn submit(
    c: &mut MyWiresyncServerApi,
    endpoint: &str,
    control_port: u16,
) -> Result<(u32, Vec<wiresync::record::ServerData>), WireSyncError> {
    c.submit(
        endpoint.to_string(),
        control_port,
        51820,
        format!("K-{}", endpoint),
        "eth0".to_string(),
    )
}

#[test]
fn hello_greets_by_name() {
    let c = coordinator();
    assert_eq!(c.say_hello(&"world".to_string()).as_str(), "Hello world!");
    let a = MyWiresyncClientServerApi::new();
    assert_eq!(a.say_hello().as_str(), "Hello!");
}

#[test]
fn concrete_scenario_address_assignment() {
    // Subnet 10.8.0.0/24: the first submit takes 10.8.0.1, the second
    // 10.8.0.2; deleting the first frees 10.8.0.1 for reuse.
    let mut c = coordinator();
    let (ip1, targets1) = c
        .submit(
            "h1".to_string(),
            50051,
            51820,
            "K1".to_string(),
            "eth0".to_string(),
        )
        .unwrap();
    assert_eq!(ip1, BASE + 1);
    assert!(targets1.is_empty());
    let (ip2, _) = submit(&mut c, "h2", 50052).unwrap();
    assert_eq!(ip2, BASE + 2);
    c.delete(&"h1".to_string(), 50051).unwrap();
    let (ip3, _) = submit(&mut c, "h3", 50053).unwrap();
    assert_eq!(ip3, BASE + 1);
    let keys = derive_keys(&c);
    let t = c.pull(&"h1".to_string(), 50051, &keys);
    assert_eq!(t, Err(WireSyncError::NotFound));
    let t3 = c.pull(&"h3".to_string(), 50053, &keys).unwrap();
    assert!(t3.contains("Address = 10.8.0.1"));
}

#[test]
fn identity_uniqueness() {
    let mut c = coordinator();
    submit(&mut c, "h1", 50051).unwrap();
    let before = c.registry.count();
    let second = submit(&mut c, "h1", 50051);
    assert!(matches!(second, Err(WireSyncError::AlreadyExists)));
    assert_eq!(c.registry.count(), before);
    // A different control port is a different identity.
    assert!(submit(&mut c, "h1", 50061).is_ok());
}

#[test]
fn pull_is_idempotent() {
    let mut c = coordinator();
    submit(&mut c, "h1", 50051).unwrap();
    submit(&mut c, "h2", 50052).unwrap();
    let keys = derive_keys(&c);
    let t1 = c.pull(&"h1".to_string(), 50051, &keys).unwrap();
    let t2 = c.pull(&"h1".to_string(), 50051, &keys).unwrap();
    let t3 = c.pull(&"h1".to_string(), 50051, &keys).unwrap();
    assert_eq!(t1, t2);
    assert_eq!(t2, t3);
}

#[test]
fn propagation_completeness() {
    // Submit(A), Submit(B), Submit(C): the push plan of Submit(C) names
    // exactly A and B, their fresh configurations list C, and C's own
    // configuration lists A and B.
    let mut c = coordinator();
    submit(&mut c, "a", 1).unwrap();
    submit(&mut c, "b", 2).unwrap();
    let (_, targets) = submit(&mut c, "cc", 3).unwrap();
    let ids: Vec<(String, u16)> = targets
        .iter()
        .map(|r| (r.endpoint.clone(), r.control_port))
        .collect();
    assert_eq!(ids, vec![("a".to_string(), 1), ("b".to_string(), 2)]);
    let keys = derive_keys(&c);
    for t in &targets {
        let text = c.pull(&t.endpoint, t.control_port, &keys).unwrap();
        assert!(text.contains("Endpoint = cc:"));
    }
    let own = c.pull(&"cc".to_string(), 3, &keys).unwrap();
    assert!(own.contains("Endpoint = a:"));
    assert!(own.contains("Endpoint = b:"));
    assert!(!own.contains("Endpoint = cc:"));
}

#[test]
fn deletion_consistency() {
    // After Delete(B), a Pull(A) carries no section referencing B.
    let mut c = coordinator();
    submit(&mut c, "a", 1).unwrap();
    submit(&mut c, "b", 2).unwrap();
    let targets = c.delete(&"b".to_string(), 2).unwrap();
    let ids: Vec<(String, u16)> = targets
        .iter()
        .map(|r| (r.endpoint.clone(), r.control_port))
        .collect();
    assert_eq!(ids, vec![("a".to_string(), 1)]);
    let keys = derive_keys(&c);
    let text = c.pull(&"a".to_string(), 1, &keys).unwrap();
    assert!(!text.contains("Endpoint = b:"));
    assert!(!text.contains("[Peer]"));
    let again = c.delete(&"b".to_string(), 2);
    assert!(matches!(again, Err(WireSyncError::NotFound)));
}

#[test]
fn submit_validates_fields() {
    let mut c = coordinator();
    let r = c.submit(
        "h1\n".to_string(),
        50051,
        51820,
        "K1".to_string(),
        "eth0".to_string(),
    );
    assert!(matches!(r, Err(WireSyncError::ValidationError)));
    let r = c.submit(
        "h1".to_string(),
        50051,
        51820,
        "K1".to_string(),
        "eth0\nPostUp = rm -rf /".to_string(),
    );
    assert!(matches!(r, Err(WireSyncError::ValidationError)));
    assert_eq!(c.registry.count(), 0);
    // Key material is never rendered, so no character of it is rejected.
    let r = c.submit(
        "h1".to_string(),
        50051,
        51820,
        "K1\nwith odd bytes".to_string(),
        "eth0".to_string(),
    );
    assert!(r.is_ok());
}

#[test]
fn submit_exhausts_small_subnet() {
    let cfg = ServerConfig::new(BASE, 2).unwrap();
    let mut c = MyWiresyncServerApi::new(cfg);
    assert_eq!(submit(&mut c, "h1", 1).unwrap().0, BASE + 1);
    assert_eq!(submit(&mut c, "h2", 2).unwrap().0, BASE + 2);
    let r = submit(&mut c, "h3", 3);
    assert!(matches!(r, Err(WireSyncError::AddressSpaceExhausted)));
}

#[test]
fn check_reconciles_changed_fields() {
    let mut c = coordinator();
    let (ip, _) = submit(&mut c, "h1", 50051).unwrap();
    submit(&mut c, "h2", 50052).unwrap();
    // Matching report: no-op, nothing to push.
    let (changed, targets) = c
        .check(&"h1".to_string(), 50051, "K-h1".to_string(), "eth0".to_string(), ip)
        .unwrap();
    assert!(!changed);
    assert!(targets.is_empty());
    // Changed interface name: record rewritten, everyone repushed.
    let (changed, targets) = c
        .check(&"h1".to_string(), 50051, "K-h1".to_string(), "eth1".to_string(), ip)
        .unwrap();
    assert!(changed);
    assert_eq!(targets.len(), 2);
    let stored = c.registry.get(&"h1".to_string(), 50051).unwrap();
    assert_eq!(stored.nic_name.as_str(), "eth1");
    assert_eq!(stored.overlay_ip, ip);
    // Unknown identity.
    let r = c.check(&"zz".to_string(), 9, "K".to_string(), "eth0".to_string(), ip);
    assert!(matches!(r, Err(WireSyncError::NotFound)));
}

#[test]
fn registry_keeps_identity_order() {
    let mut c = coordinator();
    submit(&mut c, "bb", 7).unwrap();
    submit(&mut c, "aa", 9).unwrap();
    submit(&mut c, "aa", 2).unwrap();
    let ids: Vec<(String, u16)> = c
        .registry
        .records()
        .iter()
        .map(|r| (r.endpoint.clone(), r.control_port))
        .collect();
    assert_eq!(
        ids,
        vec![("aa".to_string(), 2), ("aa".to_string(), 9), ("bb".to_string(), 7)]
    );
    let others = c.registry.list_others(&"aa".to_string(), 9);
    let oids: Vec<(String, u16)> = others
        .iter()
        .map(|r| (r.endpoint.clone(), r.control_port))
        .collect();
    assert_eq!(oids, vec![("aa".to_string(), 2), ("bb".to_string(), 7)]);
}

#[test]
fn agent_applies_config_idempotently() {
    let mut a = MyWiresyncClientServerApi::new();
    assert!(a.update_config("conf-1".to_string()));
    assert!(!a.update_config("conf-1".to_string()));
    assert!(a.update_config("conf-2".to_string()));
    assert!(!a.update_config("conf-2".to_string()));
    assert_eq!(a.current_config.as_deref(), Some("conf-2"));
}

#[test]
fn check_validates_fields() {
    let mut c = coordinator();
    let (ip, _) = submit(&mut c, "h1", 50051).unwrap();
    let r = c.check(
        &"h1".to_string(),
        50051,
        "K-h1".to_string(),
        "eth0\n".to_string(),
        ip,
    );
    assert!(matches!(r, Err(WireSyncError::ValidationError)));
    let stored = c.registry.get(&"h1".to_string(), 50051).unwrap();
    assert_eq!(stored.nic_name.as_str(), "eth0");
}

#[test]
fn pull_without_keys_reports_derivation_failure() {
    let mut c = coordinator();
    submit(&mut c, "h1", 50051).unwrap();
    let keys: Vec<String> = vec![];
    let r = c.pull(&"h1".to_string(), 50051, &keys);
    assert_eq!(r, Err(WireSyncError::KeyDerivationError));
}

#[test]
fn duplicate_identity_wins_over_validation() {
    // AlreadyExists is decided before field validation: a second Submit
    // of the same identity fails AlreadyExists whatever its fields.
    let mut c = coordinator();
    submit(&mut c, "h1", 50051).unwrap();
    let second = c.submit(
        "h1".to_string(),
        50051,
        51820,
        "K1".to_string(),
        "eth0\n".to_string(),
    );
    assert!(matches!(second, Err(WireSyncError::AlreadyExists)));
    assert_eq!(c.registry.count(), 1);
}

#[test]
fn restore_reinstalls_persisted_address() {
    let mut c = coordinator();
    c.restore(
        "h2".to_string(),
        50052,
        51820,
        "K2".to_string(),
        "eth0".to_string(),
        BASE + 7,
    )
    .unwrap();
    let stored = c.registry.get(&"h2".to_string(), 50052).unwrap();
    assert_eq!(stored.overlay_ip, BASE + 7);
    // The allocator keeps respecting the restored address: fresh
    // submits fill the smaller offsets around it.
    assert_eq!(submit(&mut c, "h1", 50051).unwrap().0, BASE + 1);
    // A colliding restore reports an inconsistent store.
    let clash = c.restore(
        "h3".to_string(),
        50053,
        51820,
        "K3".to_string(),
        "eth0".to_string(),
        BASE + 7,
    );
    assert!(matches!(clash, Err(WireSyncError::StorageError)));
    // An address outside the subnet's host range is rejected.
    let out = c.restore(
        "h4".to_string(),
        50054,
        51820,
        "K4".to_string(),
        "eth0".to_string(),
        BASE + 255,
    );
    assert!(matches!(out, Err(WireSyncError::ValidationError)));
}
