use pnet_datalink::adapters::{adapter_interface, find_adapter, interfaces, networks_of, AdapterDetails};
use pnet_datalink::datalink::{IpAddress, IpPrefix, NetworkInterface};

fn v4(a: u8, b: u8, c: u8, d: u8, prefix: u8) -> IpPrefix {
    IpPrefix { addr: IpAddress::V4([a, b, c, d]), prefix }
}

fn v6(last: u8, prefix: u8) -> IpPrefix {
    let mut octets = [0u8; 16];
    octets[0] = 0xfe;
    octets[1] = 0x80;
    octets[15] = last;
    IpPrefix { addr: IpAddress::V6(octets), prefix }
}

#[test]
fn networks_keep_only_prefixes_that_fit() {
    let addresses = vec![v4(192, 168, 1, 10, 24), v4(10, 0, 0, 1, 33), v6(1, 64), v4(10, 0, 0, 2, 32), v6(2, 129), v6(3, 128)];
    assert_eq!(networks_of(&addresses), vec![v4(192, 168, 1, 10, 24), v6(1, 64), v4(10, 0, 0, 2, 32), v6(3, 128)]);
}

#[test]
fn adapter_described_with_friendly_name() {
    let details = AdapterDetails {
        name: "\\DEVICE\\{4D36E972-E325-11CE-BFC1-08002BE10318}".to_string(),
        friendly_name: Some("Ethernet".to_string()),
        mac: Some([0x12, 0x34, 0x56, 0x78, 0x9a, 0xbc]),
        index: Some(7),
        addresses: vec![v4(192, 168, 1, 10, 24), v4(1, 2, 3, 4, 40)],
    };
    assert_eq!(
        adapter_interface(&details),
        Some(NetworkInterface {
            name: "\\DEVICE\\{4D36E972-E325-11CE-BFC1-08002BE10318}".to_string(),
            description: "Ethernet".to_string(),
            index: 7,
            mac: Some([0x12, 0x34, 0x56, 0x78, 0x9a, 0xbc]),
            ips: vec![v4(192, 168, 1, 10, 24)],
            flags: 0,
        })
    );
}

#[test]
fn adapter_description_falls_back_to_device_name() {
    let details = AdapterDetails {
        name: "\\DEVICE\\NDISWANIP".to_string(),
        friendly_name: None,
        mac: None,
        index: Some(3),
        addresses: Vec::new(),
    };
    let interface = adapter_interface(&details).unwrap();
    assert_eq!(interface.description, "\\DEVICE\\NDISWANIP");
    assert_eq!(interface.mac, None);
    assert!(interface.ips.is_empty());
}

#[test]
fn adapter_without_index_is_skipped() {
    let details = AdapterDetails {
        name: "\\DEVICE\\{bad}".to_string(),
        friendly_name: Some("Broken".to_string()),
        mac: Some([0; 6]),
        index: None,
        addresses: vec![v4(10, 0, 0, 1, 8)],
    };
    assert_eq!(adapter_interface(&details), None);
}

#[test]
fn interfaces_keep_indexed_adapters_in_order() {
    let mk = |name: &str, index: Option<u32>| AdapterDetails {
        name: name.to_string(),
        friendly_name: None,
        mac: None,
        index,
        addresses: Vec::new(),
    };
    let adapters = vec![mk("a", Some(1)), mk("b", None), mk("c", Some(3)), mk("d", None)];
    let found = interfaces(&adapters);
    assert_eq!(found.len(), 2);
    assert_eq!(found[0].name, "a");
    assert_eq!(found[0].index, 1);
    assert_eq!(found[1].name, "c");
    assert_eq!(found[1].index, 3);
    assert!(interfaces(&Vec::new()).is_empty());
}

#[test]
fn find_adapter_by_device_name() {
    let names = vec!["x".to_string(), "y".to_string(), "y".to_string()];
    assert_eq!(find_adapter(&names, &"y".to_string()), Some(1));
    assert_eq!(find_adapter(&names, &"x".to_string()), Some(0));
    assert_eq!(find_adapter(&names, &"z".to_string()), None);
}
