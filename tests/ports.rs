use libonm::sm::{
    reconcile_ports, PartitionKey, PhysicalPort, Port, PortConfig, PortMembership, PortType,
    VirtualPort,
};

fn record(guid: &str, lid: i32) -> PhysicalPort {
    PhysicalPort {
        guid: guid.to_string(),
        name: format!("{}_1", guid),
        system_id: format!("sys-{}", guid),
        lid,
        system_name: format!("host-{}", guid),
        logical_state: "Active".to_string(),
    }
}

fn binding(guid: &str, membership: PortMembership, index0: bool) -> PortConfig {
    PortConfig { guid: guid.to_string(), index0, membership }
}

fn key(k: i32) -> PartitionKey {
    PartitionKey::new(k).ok().unwrap()
}

fn assert_unknown(p: &Port, guid: &str) {
    assert_eq!(p.guid, guid);
    assert_eq!(p.lid, 65535);
    assert_eq!(p.logical_state, "Unknown");
    assert_eq!(p.system_id, "");
    assert_eq!(p.system_name, "");
    assert!(p.name.is_none() && p.parent_guid.is_none() && p.port_type.is_none());
}

#[test]
fn missing_inventory_gives_a_placeholder_in_order() {
    let configured = vec![
        binding("a", PortMembership::Full, true),
        binding("b", PortMembership::Full, true),
    ];
    let r = reconcile_ports(key(0x10), configured, vec![record("a", 7)]);
    assert_eq!(r.len(), 2);
    assert_eq!(r[0].guid, "a");
    assert_eq!(r[0].lid, 7);
    assert_eq!(r[0].name.as_deref(), Some("a_1"));
    assert_eq!(r[0].logical_state, "Active");
    assert_eq!(r[0].port_type, Some(PortType::Physical));
    assert_unknown(&r[1], "b");
}

#[test]
fn default_partition_lists_the_inventory() {
    let inventory = vec![record("a", 1), record("b", 2), record("c", 3)];
    let configured = vec![binding("z", PortMembership::Limited, false)];
    let r = reconcile_ports(key(0x7fff), configured, inventory);
    let guids: Vec<&str> = r.iter().map(|p| p.guid.as_str()).collect();
    assert_eq!(guids, vec!["a", "b", "c"]);
    let r2 = reconcile_ports(key(0x7fff), vec![], vec![record("a", 1), record("b", 2), record("c", 3)]);
    assert_eq!(r2.len(), 3);
}

#[test]
fn duplicate_inventory_records_keep_the_last() {
    let inventory = vec![record("a", 1), record("b", 2), record("a", 9)];
    let r = reconcile_ports(key(0x7fff), vec![], inventory);
    assert_eq!(r.len(), 2);
    assert_eq!((r[0].guid.as_str(), r[0].lid), ("b", 2));
    assert_eq!((r[1].guid.as_str(), r[1].lid), ("a", 9));
    let r = reconcile_ports(
        key(1),
        vec![binding("a", PortMembership::Full, true)],
        vec![record("a", 1), record("a", 9)],
    );
    assert_eq!(r[0].lid, 9);
}

#[test]
fn empty_partition_lists_nothing() {
    assert!(reconcile_ports(key(3), vec![], vec![record("a", 1)]).is_empty());
    assert!(reconcile_ports(key(0x7fff), vec![], vec![]).is_empty());
}

#[test]
fn default_port_is_the_placeholder() {
    let p = Port::default();
    assert_unknown(&p, "");
}

#[test]
fn virtual_port_view() {
    let p = Port::from_virtual(VirtualPort {
        virtual_port_guid: "v".to_string(),
        system_guid: "s".to_string(),
        virtual_port_lid: 4,
        system_name: "n".to_string(),
        virtual_port_state: "Active".to_string(),
        port_guid: "p".to_string(),
    });
    assert_eq!(p.guid, "v");
    assert_eq!(p.parent_guid.as_deref(), Some("p"));
    assert_eq!(p.port_type, Some(PortType::Virtual));
    assert!(p.name.is_none());
}
