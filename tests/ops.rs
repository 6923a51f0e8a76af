use libonm::rest::{RestClient, RestConfig, RestError, RestMethod};
use libonm::sm::{
    connect, partitions_from_records, Partition, PartitionKey, PartitionQoS, PartitionRecord,
    PortConfig, PortMembership, UFMConfig, UFMError,
};

fn ufm() -> libonm::sm::Ufm {
    connect(UFMConfig {
        address: "https://ufm.example.com".to_string(),
        username: Some("admin".to_string()),
        password: Some("secret".to_string()),
        token: None,
        cert: None,
        accept_invalid_certs: true,
    })
    .ok()
    .expect("connects")
}

fn partition(k: i32, qos: Option<PartitionQoS>) -> Partition {
    Partition { name: "p".to_string(), pkey: PartitionKey::new(k).ok().unwrap(), ipoib: true, qos }
}

fn qos() -> PartitionQoS {
    PartitionQoS { mtu_limit: 4096, service_level: 3, rate_limit: 25 }
}

#[test]
fn bind_uses_the_last_binding_for_all() {
    let ports = vec![
        PortConfig { guid: "a".to_string(), index0: true, membership: PortMembership::Full },
        PortConfig { guid: "b".to_string(), index0: false, membership: PortMembership::Limited },
    ];
    let (call, body) = ufm().bind_ports(partition(0x10, None), ports);
    assert_eq!(call.method, RestMethod::Post);
    assert_eq!(call.path, "/resources/pkeys");
    assert_eq!(body.pkey, "0x10");
    assert!(body.ip_over_ib);
    assert_eq!(body.guids, vec!["a".to_string(), "b".to_string()]);
    assert_eq!(body.membership, PortMembership::Limited);
    assert!(!body.index0);
}

#[test]
fn bind_with_no_ports_is_full_at_index0() {
    let (_, body) = ufm().bind_ports(partition(5, None), vec![]);
    assert!(body.guids.is_empty());
    assert_eq!(body.membership, PortMembership::Full);
    assert!(body.index0);
}

#[test]
fn qos_update_needs_qos() {
    assert!(matches!(
        ufm().update_partition_qos(partition(1, None)),
        Err(UFMError::InvalidConfig(_))
    ));
    let (call, body) = ufm().update_partition_qos(partition(0x20, Some(qos()))).ok().unwrap();
    assert_eq!(call.method, RestMethod::Put);
    assert_eq!(call.path, "/resources/pkeys/qos_conf");
    assert_eq!(body.pkey, "0x20");
    assert_eq!((body.mtu_limit, body.service_level, body.rate_limit), (4096, 3, 25));
}

#[test]
fn request_paths() {
    let u = ufm();
    assert_eq!(u.get_configuration().path, "/app/smconf");
    assert_eq!(u.version().path, "/app/ufm_version");
    assert_eq!(u.list_partition().path, "/resources/pkeys?qos_conf=true");
    let d = u.delete_partition("0x5");
    assert_eq!((d.method, d.path.as_str()), (RestMethod::Delete, "/resources/pkeys/0x5"));
    let (k, g) = u.get_partition("16").ok().unwrap();
    assert_eq!(k.value(), 16);
    assert_eq!(g.path, "/resources/pkeys/0x10?qos_conf=true");
    assert!(matches!(u.get_partition("0x9000"), Err(UFMError::InvalidPKey(_))));
    let (a, b) = u.list_port(PartitionKey::new(0x7fff).ok().unwrap());
    assert_eq!(a.path, "/resources/pkeys/0x7fff?guids_data=true");
    assert_eq!(b.path, "/resources/ports?sys_type=Computer");
    let (c, body) = u.unbind_ports(PartitionKey::new(2).ok().unwrap(), vec!["g".to_string()]);
    assert_eq!(c.path, "/actions/remove_guids_from_pkey");
    assert_eq!(body.pkey, "0x2");
    assert_eq!(body.guids, vec!["g".to_string()]);
}

#[test]
fn listing_converts_every_key() {
    let rec = |n: &str| PartitionRecord { partition: n.to_string(), ip_over_ib: false, qos_conf: qos() };
    let parts = partitions_from_records(vec![("0x1".to_string(), rec("one")), ("0x7fff".to_string(), rec("all"))])
        .ok()
        .unwrap();
    assert_eq!(parts.len(), 2);
    assert_eq!(parts[0].pkey.value(), 1);
    assert_eq!(parts[0].name, "one");
    assert!(parts[1].pkey.is_default());
    let bad = partitions_from_records(vec![("0x1".to_string(), rec("one")), ("zz".to_string(), rec("bad"))]);
    assert!(matches!(bad, Err(UFMError::InvalidPKey(_))));
}

#[test]
fn transport_errors_map_to_one_kind_each() {
    let m = |e: RestError| UFMError::from(e);
    assert!(matches!(m(RestError::NotFound("x".to_string())), UFMError::NotFound(s) if s == "x"));
    assert!(matches!(m(RestError::AuthFailure("x".to_string())), UFMError::InvalidConfig(s) if s == "x"));
    assert!(matches!(m(RestError::InvalidConfig("x".to_string())), UFMError::InvalidConfig(s) if s == "x"));
    for e in [
        RestError::Internal("x".to_string()),
        RestError::Json("x".to_string()),
        RestError::Http("x".to_string()),
    ] {
        assert!(matches!(m(e), UFMError::Unknown(s) if s == "Unknown Rest Error"));
    }
}

#[test]
fn transport_error_texts() {
    assert_eq!(RestError::NotFound("a".to_string()).message(), "'a' not found");
    assert_eq!(RestError::AuthFailure("a".to_string()).message(), "failed to auth 'a'");
    assert_eq!(RestError::InvalidConfig("a".to_string()).message(), "invalid configuration 'a'");
    assert_eq!(RestError::Http("a".to_string()).message(), "a");
}

#[test]
fn client_address_takes_host_and_port() {
    let cfg = |a: &str| RestConfig {
        address: a.to_string(),
        username: "u".to_string(),
        password: "p".to_string(),
        accept_invalid_certs: false,
    };
    let c = RestClient::new(&cfg("https://10.0.0.1")).ok().unwrap();
    assert_eq!(c.address(), "10.0.0.1:443");
    assert_eq!(c.user(), "u");
    assert_eq!(c.password(), "p");
    assert!(!c.accept_invalid_certs());
    let c = RestClient::new(&cfg("https://bmc.example.com:8443/redfish")).ok().unwrap();
    assert_eq!(c.address(), "bmc.example.com:8443");
    assert_eq!(c.url("/redfish/v1/"), "https://bmc.example.com:8443/redfish/v1");
    assert_eq!(c.url("app//x"), "https://bmc.example.com:8443/app//x");
    assert_eq!(c.url("///"), "https://bmc.example.com:8443/");
    assert!(matches!(RestClient::new(&cfg("10.0.0.1")), Err(RestError::InvalidConfig(m)) if m == "invalid url"));
    assert!(matches!(RestClient::new(&cfg("unix:/run/x")), Err(RestError::InvalidConfig(m)) if m == "invalid host"));
}

#[test]
fn connect_needs_credentials_and_a_host() {
    let conf = |a: &str, u: Option<&str>, p: Option<&str>| UFMConfig {
        address: a.to_string(),
        username: u.map(String::from),
        password: p.map(String::from),
        token: None,
        cert: None,
        accept_invalid_certs: false,
    };
    assert!(matches!(connect(conf("https://h", Some("u"), None)), Err(UFMError::InvalidConfig(_))));
    assert!(matches!(connect(conf("https://h", None, Some("p"))), Err(UFMError::InvalidConfig(_))));
    assert!(matches!(connect(conf("not a url", Some("u"), Some("p"))), Err(UFMError::InvalidConfig(_))));
    let u = connect(conf("https://h:9000", Some("u"), Some("p"))).ok().unwrap();
    assert_eq!(u.client().address(), "h:9000");
    assert!(!u.client().accept_invalid_certs());
    assert!(ufm().client().accept_invalid_certs());
}

#[test]
fn membership_names_in_any_case() {
    assert_eq!(PortMembership::parse("FULL").ok(), Some(PortMembership::Full));
    assert_eq!(PortMembership::parse("Limited").ok(), Some(PortMembership::Limited));
    assert_eq!(PortMembership::parse("full").ok(), Some(PortMembership::Full));
    assert!(matches!(PortMembership::parse("both"), Err(UFMError::InvalidConfig(_))));
    assert!(matches!(PortMembership::from_lowercase(&"FULL".to_string()), Err(UFMError::InvalidConfig(_))));
}
