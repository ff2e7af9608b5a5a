use owsvblocker::address::{normalize_address, parse_address_list};

#[test]
fn parses_ip_cidr_and_range() {
    let parsed = parse_address_list(
        "# one IP, CIDR, or range per line\n34.95.128.0/17\n37.244.42.0-37.244.42.255\n2600:1900:40f0::/44 # Brazil IPv6\n8.8.8.8",
    )
    .expect("valid addresses");

    assert_eq!(
        parsed,
        vec![
            "34.95.128.0/17",
            "37.244.42.0-37.244.42.255",
            "2600:1900:40f0::/44",
            "8.8.8.8"
        ]
    );
}

#[test]
fn rejects_invalid_ranges() {
    let error = normalize_address("10.0.0.10-10.0.0.1").expect_err("must reject");
    assert!(error.reason.contains("reversed"));
}

#[test]
fn deduplicates_without_reordering_first_occurrence() {
    let parsed = parse_address_list("8.8.8.8\n1.1.1.1\n8.8.8.8").expect("valid");
    assert_eq!(parsed, vec!["8.8.8.8", "1.1.1.1"]);
}
