use wiresync::config::{config_text_factory, interface_config_factory, peer_config_factory};
use wiresync::errors::WireSyncError;
use wiresync::record::ServerData;

const BASE: u32 = (10 << 24) | (8 << 16);

fn rec(endpoint: &str, control_port: u16, offset: u32) -> ServerData {
    ServerData {
        endpoint: endpoint.to_string(),
        control_port,
        wireguard_port: 51820,
        nic_name: "eth0".to_string(),
        key_material: format!("K-{}", endpoint),
        overlay_ip: BASE + offset,
    }
}

#[test]
fn interface_section_exact_text() {
    let t = interface_config_factory(BASE + 1, 51820, &"eth0".to_string()).unwrap();
    assert_eq!(
        t.as_str(),
        "[Interface]\nAddress = 10.8.0.1\nPrivateKey = [KEY_MATERIAL]\nListenPort = 51820\n\
         PostUp = iptables -A FORWARD -i wg0 -j ACCEPT; iptables -t nat -A POSTROUTING -o eth0 -j MASQUERADE\n\
         PostDown = iptables -D FORWARD -i wg0 -j ACCEPT; iptables -t nat -D POSTROUTING -o eth0 -j MASQUERADE\n"
    );
}

#[test]
fn interface_section_rejects_unsafe_nic() {
    let r = interface_config_factory(BASE + 1, 51820, &"eth0\n[Peer]".to_string());
    assert_eq!(r, Err(WireSyncError::ValidationError));
}

#[test]
fn peer_section_exact_text() {
    let t = peer_config_factory(&"h2".to_string(), 51821, &"PUB2".to_string(), BASE + 2).unwrap();
    assert_eq!(
        t.as_str(),
        "[Peer]\nEndpoint = h2:51821\nPublicKey = PUB2\nAllowedIPs = 10.8.0.2/32\n\
         PersistentKeepalive = 25\n"
    );
}

#[test]
fn peer_section_rejects_unsafe_endpoint() {
    let r = peer_config_factory(&"h2\nevil".to_string(), 51821, &"PUB2".to_string(), BASE + 2);
    assert_eq!(r, Err(WireSyncError::ValidationError));
}

#[test]
fn full_render_lists_other_peers_in_order() {
    let recs = vec![rec("a", 1, 1), rec("b", 2, 2), rec("c", 3, 3)];
    let keys = vec!["PA".to_string(), "PB".to_string(), "PC".to_string()];
    let t = config_text_factory(&recs, &keys, &"b".to_string(), 2).unwrap();
    let ia = t.find("Endpoint = a:").unwrap();
    let ic = t.find("Endpoint = c:").unwrap();
    assert!(ia < ic);
    assert!(!t.contains("Endpoint = b:"));
    assert!(t.contains("Address = 10.8.0.2"));
    assert!(t.contains("PrivateKey = [KEY_MATERIAL]"));
    assert!(!t.contains("K-b"));
    assert!(t.contains("PublicKey = PA"));
    assert!(t.contains("PublicKey = PC"));
    assert!(!t.contains("PublicKey = PB"));
    assert!(!t.contains("K-a"));
    assert!(!t.contains("K-c"));
}

#[test]
fn render_is_deterministic() {
    let recs = vec![rec("a", 1, 1), rec("b", 2, 2), rec("c", 3, 3)];
    let keys = vec!["PA".to_string(), "PB".to_string(), "PC".to_string()];
    let t1 = config_text_factory(&recs, &keys, &"a".to_string(), 1).unwrap();
    let t2 = config_text_factory(&recs, &keys, &"a".to_string(), 1).unwrap();
    assert_eq!(t1, t2);
}

#[test]
fn render_unknown_identity_is_not_found() {
    let recs = vec![rec("a", 1, 1)];
    let keys = vec!["PA".to_string()];
    let r = config_text_factory(&recs, &keys, &"z".to_string(), 9);
    assert_eq!(r, Err(WireSyncError::NotFound));
}

#[test]
fn render_without_one_key_per_record_fails() {
    let recs = vec![rec("a", 1, 1), rec("b", 2, 2)];
    let keys = vec!["PA".to_string()];
    let r = config_text_factory(&recs, &keys, &"a".to_string(), 1);
    assert_eq!(r, Err(WireSyncError::KeyDerivationError));
}

#[test]
fn error_messages() {
    assert_eq!(WireSyncError::AlreadyExists.message().as_str(), "identity already exists");
    assert_eq!(WireSyncError::NotFound.message().as_str(), "identity not found");
    assert_eq!(
        WireSyncError::AddressSpaceExhausted.message().as_str(),
        "address space exhausted"
    );
    assert_eq!(WireSyncError::ValidationError.message().as_str(), "malformed input field");
    assert_eq!(
        WireSyncError::KeyDerivationError.message().as_str(),
        "public key derivation failed"
    );
    assert_eq!(WireSyncError::StorageError.message().as_str(), "storage failure");
    assert_eq!(WireSyncError::PropagationError.message().as_str(), "propagation failure");
    assert_eq!(WireSyncError::ConfigWriteError.message().as_str(), "config write failed");
}
