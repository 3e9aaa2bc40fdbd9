use wiresync::errors::WireSyncError;
use wiresync::subnet::{get_next_ip, ServerConfig};
use wiresync::text::parse_ipv4;
use wiresync::text::{format_ipv4, u32_to_dec};

const BASE: u32 = (10 << 24) | (8 << 16);

#[test]
fn first_address_on_empty_set() {
    let cfg = ServerConfig::subnet_24(10, 8, 0);
    let used: Vec<u32> = vec![];
    assert_eq!(get_next_ip(&used, &cfg), Ok(BASE + 1));
}

#[test]
fn smallest_free_offset_wins() {
    let cfg = ServerConfig::subnet_24(10, 8, 0);
    let used = vec![BASE + 1, BASE + 2, BASE + 5];
    assert_eq!(get_next_ip(&used, &cfg), Ok(BASE + 3));
}

#[test]
fn freed_slot_is_reused() {
    let cfg = ServerConfig::subnet_24(10, 8, 0);
    let used = vec![BASE + 2, BASE + 3];
    assert_eq!(get_next_ip(&used, &cfg), Ok(BASE + 1));
}

#[test]
fn insertion_order_does_not_matter() {
    let cfg = ServerConfig::subnet_24(10, 8, 0);
    let used_a = vec![BASE + 1, BASE + 3, BASE + 2];
    let used_b = vec![BASE + 3, BASE + 2, BASE + 1];
    assert_eq!(get_next_ip(&used_a, &cfg), get_next_ip(&used_b, &cfg));
    assert_eq!(get_next_ip(&used_a, &cfg), Ok(BASE + 4));
}

#[test]
fn exhausted_when_every_offset_taken() {
    let cfg = ServerConfig::new(BASE, 3).unwrap();
    let used = vec![BASE + 1, BASE + 2, BASE + 3];
    assert_eq!(get_next_ip(&used, &cfg), Err(WireSyncError::AddressSpaceExhausted));
}

#[test]
fn subnet_config_rejects_empty_host_range() {
    assert_eq!(
        ServerConfig::new(BASE, 0).map(|c| c.last_offset),
        Err(WireSyncError::ValidationError)
    );
    assert_eq!(
        ServerConfig::new(u32::MAX, 2).map(|c| c.last_offset),
        Err(WireSyncError::ValidationError)
    );
}

#[test]
fn decimal_rendering() {
    assert_eq!(u32_to_dec(0).as_str(), "0");
    assert_eq!(u32_to_dec(7).as_str(), "7");
    assert_eq!(u32_to_dec(10).as_str(), "10");
    assert_eq!(u32_to_dec(50051).as_str(), "50051");
    assert_eq!(u32_to_dec(4294967295).as_str(), "4294967295");
}

#[test]
fn dotted_quad_rendering() {
    assert_eq!(format_ipv4(BASE + 1).as_str(), "10.8.0.1");
    assert_eq!(format_ipv4(0).as_str(), "0.0.0.0");
    assert_eq!(format_ipv4(u32::MAX).as_str(), "255.255.255.255");
    assert_eq!(format_ipv4((192 << 24) | (168 << 16) | (1 << 8) | 77).as_str(), "192.168.1.77");
}

#[test]
fn dotted_quad_parsing() {
    assert_eq!(parse_ipv4("10.8.0.1"), Some(BASE + 1));
    assert_eq!(parse_ipv4("0.0.0.0"), Some(0));
    assert_eq!(parse_ipv4("255.255.255.255"), Some(u32::MAX));
    assert_eq!(parse_ipv4("010.8.0.1"), None);
    assert_eq!(parse_ipv4("10.8.0"), None);
    assert_eq!(parse_ipv4("10.8.0.1.2"), None);
    assert_eq!(parse_ipv4("256.8.0.1"), None);
    assert_eq!(parse_ipv4("10.8.0.1 "), None);
    assert_eq!(parse_ipv4(""), None);
    for ip in [0u32, 1, BASE + 7, 0x01020304, u32::MAX] {
        assert_eq!(parse_ipv4(format_ipv4(ip).as_str()), Some(ip));
    }
}
