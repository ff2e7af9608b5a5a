use owsvblocker::ip::Ipv4Address;
use owsvblocker::latency::first_ipv4_probe;

#[test]
fn picks_only_ipv4_probe() {
    assert_eq!(
        first_ipv4_probe(&["2600:1900::1", "34.95.128.1"]),
        Some("34.95.128.1".parse::<Ipv4Address>().expect("valid IPv4"))
    );
    assert_eq!(
        first_ipv4_probe(&["2600:1900::1", "34.95.128.1"]),
        Some(Ipv4Address::new(34, 95, 128, 1))
    );
    assert_eq!(first_ipv4_probe(&["2600:1900::1"]), None);
}
