use owsvblocker::address::{normalize_address, parse_address_list};

fn reason(token: &str) -> String {
    normalize_address(token).expect_err("must reject").reason
}

#[test]
fn ipv6_is_written_in_canonical_form() {
    assert_eq!(normalize_address("2600:1900:40F0:0:0:0:0:0/44").unwrap(), "2600:1900:40f0::/44");
    assert_eq!(normalize_address("2001:db8:0:0:1:0:0:1").unwrap(), "2001:db8::1:0:0:1");
    assert_eq!(normalize_address("0:0:0:0:0:0:0:1").unwrap(), "::1");
    assert_eq!(normalize_address("::").unwrap(), "::");
    assert_eq!(normalize_address("2001:db8:1:1:1:1:0:1").unwrap(), "2001:db8:1:1:1:1:0:1");
    assert_eq!(normalize_address("::ffff:1.2.3.4").unwrap(), "::ffff:1.2.3.4");
    assert_eq!(normalize_address("::1.2.3.4").unwrap(), "::102:304");
}

#[test]
fn tokens_are_trimmed_around_separators() {
    assert_eq!(normalize_address("  1.1.1.1 - 1.1.1.2 ").unwrap(), "1.1.1.1-1.1.1.2");
    assert_eq!(normalize_address(" 10.0.0.0 / 8 ").unwrap(), "10.0.0.0/8");
    assert_eq!(normalize_address("1.1.1.0/010").unwrap(), "1.1.1.0/10");
    assert_eq!(normalize_address("1.1.1.0/+5").unwrap(), "1.1.1.0/5");
    assert_eq!(normalize_address("::1-::2").unwrap(), "::1-::2");
}

#[test]
fn each_error_names_its_reason() {
    assert_eq!(reason("   "), "empty address");
    assert_eq!(reason("1.2.3"), "invalid IP");
    assert_eq!(reason("01.2.3.4"), "invalid IP");
    assert_eq!(reason("x-1.1.1.1"), "invalid range start");
    assert_eq!(reason("1.1.1.1-y"), "invalid range end");
    assert_eq!(reason("1.1.1.1-::1"), "range mixes IPv4 and IPv6");
    assert_eq!(reason("::2-::1"), "reversed range");
    assert_eq!(reason("z/8"), "invalid CIDR IP");
    assert_eq!(reason("1.1.1.1/x"), "invalid CIDR prefix");
    assert_eq!(reason("1.1.1.1/256"), "invalid CIDR prefix");
    assert_eq!(reason("1.1.1.1/33"), "CIDR prefix is greater than 32");
    assert_eq!(reason("::/129"), "CIDR prefix is greater than 128");
}

#[test]
fn error_keeps_the_trimmed_token() {
    let error = normalize_address(" 10.0.0.10-10.0.0.1 ").expect_err("must reject");
    assert_eq!(error.token, "10.0.0.10-10.0.0.1");
    assert_eq!(error.reason, "reversed range");
}

#[test]
fn list_reports_the_first_bad_token() {
    let error = parse_address_list("1.1.1.1\n2.2.2.2, bad, 3.3.3.3/99").expect_err("must reject");
    assert_eq!(error.token, "bad");
    assert_eq!(error.reason, "invalid IP");
}

#[test]
fn list_splits_commas_and_skips_comments() {
    let parsed = parse_address_list("# header\n 1.1.1.1 ,2.2.2.2,, \r\n\n3.3.3.3 # note, 4.4.4.4\n1.1.1.1").unwrap();
    assert_eq!(parsed, vec!["1.1.1.1", "2.2.2.2", "3.3.3.3"]);
}

#[test]
fn list_dedupes_after_normalizing() {
    let parsed = parse_address_list("2600:1900:0:0::1\n2600:1900::1\n8.8.8.8/32\n8.8.8.8/32").unwrap();
    assert_eq!(parsed, vec!["2600:1900::1", "8.8.8.8/32"]);
}

#[test]
fn empty_list_is_no_address() {
    assert_eq!(parse_address_list("").unwrap(), Vec::<String>::new());
    assert_eq!(parse_address_list("# nothing\n\n").unwrap(), Vec::<String>::new());
}

#[test]
fn normalized_text_normalizes_to_itself() {
    for token in [
        " 2600:1900:40F0:0:0:0:0:0/044 ",
        "::FFFF:10.0.0.1",
        "0:0:0:0:0:0:0:0",
        "fe80:0:0:1:0:0:0:0-fe80:0:0:1:0:0:0:ffff",
        "1.2.3.4 - 1.2.3.255",
        "10.0.0.0/+8",
        "2001:DB8::",
    ] {
        let once = normalize_address(token).expect("valid");
        assert_eq!(normalize_address(&once).expect("canonical"), once);
    }
    let list = parse_address_list("8.8.8.8\n::1,  ::0:1\n1.0.0.0/8 # x").unwrap();
    assert_eq!(parse_address_list(&list.join("\n")).unwrap(), list);
}

#[test]
fn ipv6_grammar_edges() {
    assert_eq!(reason("1::2::3"), "invalid IP");
    assert_eq!(reason(":1::2"), "invalid IP");
    assert_eq!(reason("1::2:"), "invalid IP");
    assert_eq!(reason("12345::"), "invalid IP");
    assert_eq!(reason("1:2:3:4:5:6:7:8::"), "invalid IP");
    assert_eq!(reason("1:2:3:4:5:6::1.2.3.4"), "invalid IP");
    assert_eq!(reason("1:2:3:4:5:1.2.3.4"), "invalid IP");
    assert_eq!(reason("::ffff:1.2.3.4:5"), "invalid IP");
    assert_eq!(normalize_address("1:2:3:4:5:6:7::").unwrap(), "1:2:3:4:5:6:7:0");
    assert_eq!(normalize_address("::2:3:4:5:6:7:8").unwrap(), "0:2:3:4:5:6:7:8");
    assert_eq!(normalize_address("1:2:3:4:5:6:1.2.3.4").unwrap(), "1:2:3:4:5:6:102:304");
    assert_eq!(normalize_address("0:0:1:0:0:0:1:0").unwrap(), "0:0:1::1:0");
    assert_eq!(normalize_address("000a:0B:0:0:0:0:0:0").unwrap(), "a:b::");
}

#[test]
fn ipv4_grammar_edges() {
    assert_eq!(reason("256.0.0.1"), "invalid IP");
    assert_eq!(reason("1.2.3.4.5"), "invalid IP");
    assert_eq!(reason("1..3.4"), "invalid IP");
    assert_eq!(reason("00.1.2.3"), "invalid IP");
    assert_eq!(normalize_address("0.0.0.0").unwrap(), "0.0.0.0");
    assert_eq!(normalize_address("255.255.255.255").unwrap(), "255.255.255.255");
    assert_eq!(reason("1.1.1.1/-1"), "invalid range start");
    assert_eq!(reason("1.1.1.1/"), "invalid CIDR prefix");
    assert_eq!(reason("1.1.1.1/+"), "invalid CIDR prefix");
}

#[test]
fn parsed_list_reads_back_joined_by_commas() {
    let list = parse_address_list("8.8.8.8\n::1, 1.0.0.0/8\n10.0.0.1-10.0.0.9").unwrap();
    assert_eq!(parse_address_list(&list.join(",")).unwrap(), list);
    assert_eq!(parse_address_list(&list.join("\n")).unwrap(), list);
    assert_eq!(parse_address_list(&Vec::<String>::new().join(",")).unwrap(), Vec::<String>::new());
}
