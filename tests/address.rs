use mcstatus_http::{
    canonicalize, plan_address, AddressError, Endpoint, IpAddress, DEFAULT_PORT,
};

#[test]
fn default_port_is_implicit() {
    let a = plan_address("host").unwrap();
    let b = plan_address("host:25565").unwrap();
    assert_eq!(a.host, b.host);
    assert_eq!(a.port, DEFAULT_PORT);
    assert_eq!(a.port, b.port);
    assert_eq!(a.domain_name, b.domain_name);
    let ips = vec![IpAddress::V4(0x7f00_0001)];
    let ka = canonicalize(&a, Some(ips.clone())).unwrap();
    let kb = canonicalize(&b, Some(ips)).unwrap();
    assert_eq!(ka, kb);
    assert_eq!(ka.domain_name.as_deref(), Some("host"));
    assert_eq!(ka.address, Endpoint { ip: IpAddress::V4(0x7f00_0001), port: 25565 });
}

#[test]
fn too_many_colons_is_malformed() {
    assert_eq!(plan_address("host:1:2").unwrap_err(), AddressError::MalformedAddress);
}

#[test]
fn bad_port_is_malformed() {
    assert_eq!(plan_address("host:abc").unwrap_err(), AddressError::MalformedAddress);
    assert_eq!(plan_address("host:65536").unwrap_err(), AddressError::MalformedAddress);
    assert_eq!(plan_address("host:").unwrap_err(), AddressError::MalformedAddress);
}

#[test]
fn unresolvable_host_fails_resolution() {
    let plan = plan_address("no-such-host.invalid").unwrap();
    assert_eq!(canonicalize(&plan, None).unwrap_err(), AddressError::ResolutionFailed);
    assert_eq!(canonicalize(&plan, Some(vec![])).unwrap_err(), AddressError::ResolutionFailed);
}

#[test]
fn literal_ip_keeps_no_name() {
    let plan = plan_address("10.0.0.1:1234").unwrap();
    assert_eq!(plan.host, "10.0.0.1");
    assert_eq!(plan.port, 1234);
    assert_eq!(plan.domain_name, None);
    let key = canonicalize(
        &plan,
        Some(vec![IpAddress::V4(0x0a00_0001), IpAddress::V4(0x0a00_0002)]),
    )
    .unwrap();
    assert_eq!(key.domain_name, None);
    assert_eq!(key.address, Endpoint { ip: IpAddress::V4(0x0a00_0001), port: 1234 });
}

#[test]
fn names_of_one_ip_are_distinct_keys() {
    let ip = vec![IpAddress::V6(1)];
    let a = canonicalize(&plan_address("a.example").unwrap(), Some(ip.clone())).unwrap();
    let b = canonicalize(&plan_address("b.example").unwrap(), Some(ip)).unwrap();
    assert_eq!(a.address, b.address);
    assert_ne!(a, b);
    assert!(!a.same_key(&b));
    assert!(a.same_key(&a.duplicate()));
}
