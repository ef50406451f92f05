use hostfacts::collector::CollectError;
use hostfacts::network::build_network_facts;
use hostfacts::network::classify_state;
use hostfacts::network::mask_v4;
use hostfacts::network::mask_v6;
use hostfacts::network::normalize_device;
use hostfacts::network::select_primary;
use hostfacts::network::AddrEntry;
use hostfacts::network::DeviceRecord;
use hostfacts::network::Interface;
use hostfacts::network::InterfaceState;
use hostfacts::network::IpAddress;
use hostfacts::network::NetworkComponent;

fn v4(a: u8, b: u8, c: u8, d: u8) -> u32 {
    u32::from_be_bytes([a, b, c, d])
}

fn entry_v4(addr: u32, prefixlen: u32) -> AddrEntry {
    AddrEntry {
        addr: IpAddress::V4(addr),
        prefixlen,
        scope: "global".to_string(),
        label: None,
        broadcast: None,
    }
}

fn entry_v6(addr: u128, prefixlen: u32) -> AddrEntry {
    AddrEntry {
        addr: IpAddress::V6(addr),
        prefixlen,
        scope: "link".to_string(),
        label: None,
        broadcast: None,
    }
}

fn record(name: &str, operstate: &str, link_type: &str, entries: Vec<AddrEntry>) -> DeviceRecord {
    DeviceRecord {
        ifname: name.to_string(),
        mtu: 1500,
        operstate: operstate.to_string(),
        link_type: link_type.to_string(),
        mac: "3e:0a:ff:fd:7f:9f".to_string(),
        addr_info: entries,
    }
}

fn normalized(rec: &DeviceRecord) -> (String, Interface) {
    (rec.ifname.clone(), normalize_device(rec, None, String::new()))
}

#[test]
fn test_classify_state() {
    assert_eq!(classify_state("UP"), InterfaceState::UP);
    assert_eq!(classify_state("DOWN"), InterfaceState::DOWN);
    assert_eq!(classify_state("dormant"), InterfaceState::UNKNOWN);
    assert_eq!(classify_state(""), InterfaceState::UNKNOWN);
}

#[test]
fn test_mask_v4() {
    assert_eq!(mask_v4(v4(10, 0, 0, 1), 24), v4(10, 0, 0, 0));
    assert_eq!(mask_v4(v4(192, 168, 13, 77), 16), v4(192, 168, 0, 0));
    assert_eq!(mask_v4(v4(255, 255, 255, 255), 0), 0);
    assert_eq!(mask_v4(v4(203, 0, 113, 9), 32), v4(203, 0, 113, 9));
}

#[test]
fn test_mask_v6() {
    let addr: u128 = 0x2001_0db8_0000_0000_c468_27d4_bd86_a4f6;
    assert_eq!(mask_v6(addr, 64), 0x2001_0db8_0000_0000_0000_0000_0000_0000);
    assert_eq!(mask_v6(addr, 32), 0x2001_0db8_0000_0000_0000_0000_0000_0000);
    assert_eq!(mask_v6(addr, 0), 0);
    assert_eq!(mask_v6(addr, 128), addr);
}

#[test]
fn test_normalize_device_bindings_and_firsts() {
    let rec = record(
        "eth0",
        "UP",
        "ether",
        vec![
            entry_v4(v4(10, 0, 0, 1), 24),
            entry_v4(v4(10, 0, 0, 2), 24),
            entry_v6(0x2001_0db8_0000_0000_0000_0000_0000_0001, 64),
        ],
    );
    let iface = normalize_device(&rec, Some(v4(128, 223, 32, 36)), "link".to_string());
    assert_eq!(iface.bindings, vec![v4(10, 0, 0, 1), v4(10, 0, 0, 2)]);
    assert_eq!(iface.bindings6, vec![0x2001_0db8_0000_0000_0000_0000_0000_0001]);
    let f = &iface.interface_fields;
    assert_eq!(f.state, InterfaceState::UP);
    assert_eq!(f.link_type, "ether");
    assert_eq!(f.mac, "3e:0a:ff:fd:7f:9f");
    assert_eq!(f.mtu, 1500);
    assert_eq!(f.ip, Some(v4(10, 0, 0, 1)));
    assert_eq!(f.prefix, Some(24));
    assert_eq!(f.network, Some(v4(10, 0, 0, 0)));
    assert_eq!(f.ip6, Some(0x2001_0db8_0000_0000_0000_0000_0000_0001));
    assert_eq!(f.prefix6, Some(64));
    assert_eq!(f.network6, Some(0x2001_0db8_0000_0000_0000_0000_0000_0000));
    assert_eq!(f.dhcp, Some(v4(128, 223, 32, 36)));
    assert_eq!(f.scope6, "link");
}

#[test]
fn test_normalize_device_absent_families() {
    let rec = record("lo", "UNKNOWN", "loopback", vec![]);
    let iface = normalize_device(&rec, None, String::new());
    assert!(iface.bindings.is_empty());
    assert!(iface.bindings6.is_empty());
    let f = &iface.interface_fields;
    assert_eq!(f.state, InterfaceState::UNKNOWN);
    assert_eq!(f.ip, None);
    assert_eq!(f.prefix, None);
    assert_eq!(f.network, None);
    assert_eq!(f.ip6, None);
    assert_eq!(f.prefix6, None);
    assert_eq!(f.network6, None);
}

#[test]
fn test_normalize_device_skips_oversized_prefix() {
    let rec = record(
        "eth0",
        "UP",
        "ether",
        vec![entry_v4(v4(10, 0, 0, 1), 33), entry_v4(v4(10, 0, 0, 2), 16)],
    );
    let iface = normalize_device(&rec, None, String::new());
    assert_eq!(iface.bindings, vec![v4(10, 0, 0, 2)]);
    assert_eq!(iface.interface_fields.ip, Some(v4(10, 0, 0, 2)));
    assert_eq!(iface.interface_fields.prefix, Some(16));
}

#[test]
fn test_primary_selection_prefers_up_ether_with_v4() {
    let down = record("eth1", "DOWN", "ether", vec![entry_v4(v4(10, 0, 1, 1), 24)]);
    let up = record("eth0", "UP", "ether", vec![entry_v4(v4(10, 0, 0, 1), 24)]);
    let interfaces = vec![normalized(&down), normalized(&up)];
    assert_eq!(select_primary(&interfaces), Some(1));
}

#[test]
fn test_primary_selection_requires_ipv4_binding() {
    let no_v4 = record(
        "eth0",
        "UP",
        "ether",
        vec![entry_v6(0xfe80_0000_0000_0000_0000_0000_0000_0001, 64)],
    );
    let lo = record("lo", "UNKNOWN", "loopback", vec![entry_v4(v4(127, 0, 0, 1), 8)]);
    let interfaces = vec![normalized(&no_v4), normalized(&lo)];
    assert_eq!(select_primary(&interfaces), None);
}

#[test]
fn test_build_network_facts_primary_and_fqdn() {
    let down = record("eth1", "DOWN", "ether", vec![entry_v4(v4(10, 0, 1, 1), 24)]);
    let up = record("eth0", "UP", "ether", vec![entry_v4(v4(10, 0, 0, 1), 24)]);
    let interfaces = vec![normalized(&down), normalized(&up)];
    let facts = build_network_facts(
        interfaces,
        "myhostname".to_string(),
        Some("mydomain.org".to_string()),
    )
    .unwrap();
    assert_eq!(facts.primary, "eth0");
    assert_eq!(facts.fqdn, "myhostname.mydomain.org");
    assert_eq!(facts.hostname, "myhostname");
    assert_eq!(facts.domain, Some("mydomain.org".to_string()));
    assert_eq!(facts.interfaces.len(), 2);
    // the primary's fields are mirrored at the top level
    assert_eq!(facts.interface_fields.ip, Some(v4(10, 0, 0, 1)));
    assert_eq!(facts.interface_fields.state, InterfaceState::UP);
}

#[test]
fn test_build_network_facts_no_domain() {
    let up = record("eth0", "UP", "ether", vec![entry_v4(v4(10, 0, 0, 1), 24)]);
    let interfaces = vec![normalized(&up)];
    let facts = build_network_facts(interfaces, "solo".to_string(), None).unwrap();
    assert_eq!(facts.fqdn, "solo");
}

#[test]
fn test_build_network_facts_no_primary() {
    let down = record("eth1", "DOWN", "ether", vec![entry_v4(v4(10, 0, 1, 1), 24)]);
    let interfaces = vec![normalized(&down)];
    let err = build_network_facts(interfaces, "h".to_string(), None).unwrap_err();
    assert!(matches!(err, CollectError::NoPrimaryInterface));

    let none: Vec<(String, Interface)> = vec![];
    let err = build_network_facts(none, "h".to_string(), None).unwrap_err();
    assert!(matches!(err, CollectError::NoPrimaryInterface));
}

#[test]
fn test_network_component_name() {
    let c = NetworkComponent::new();
    assert_eq!(c.name(), "network");
}
