use owsvblocker::firewall::{count_remote_addresses, decode_regions, encode_description};

#[test]
fn description_roundtrip_keeps_regions() {
    let regions = vec!["Brazil".to_string(), "Australia".to_string()];
    let description = encode_description(&regions, 12);
    assert_eq!(decode_regions(&description), regions);
}

#[test]
fn counts_remote_addresses() {
    assert_eq!(count_remote_addresses("1.1.1.1, 8.8.8.8/32,"), 2);
}
