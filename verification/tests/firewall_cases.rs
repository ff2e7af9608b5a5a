use owsvblocker::firewall::{
    applied_report, count_remote_addresses, decode_regions, encode_description, removed_report,
    rule_action, rule_name_text, unavailable_report, unavailable_status, FirewallBackend,
    FirewallReport, FirewallStatus, RuleAction, RuleTraits, UnavailableFirewall, WindowsFirewall,
};
use owsvblocker::plan::FirewallPlan;

fn plan(regions: &[&str], addresses: &[&str], path: Option<&str>) -> FirewallPlan {
    FirewallPlan {
        selected_regions: regions.iter().map(|s| s.to_string()).collect(),
        selected_targets: Vec::new(),
        remote_addresses: addresses.iter().map(|s| s.to_string()).collect(),
        application_path: path.map(|p| p.to_string()),
    }
}

#[test]
fn description_text_is_exact() {
    let regions = vec!["Brazil".to_string(), "Australia".to_string()];
    assert_eq!(
        encode_description(&regions, 12),
        "OWServerBlocker\nregions=Brazil;Australia\naddresses=12"
    );
    assert_eq!(encode_description(&Vec::new(), 0), "OWServerBlocker\nregions=\naddresses=0");
}

#[test]
fn decoding_takes_the_first_regions_line() {
    assert_eq!(decode_regions("x\nregions= A ;; B \nregions=C"), vec!["A".to_string(), "B".to_string()]);
    assert_eq!(decode_regions("no regions here"), Vec::<String>::new());
    assert_eq!(decode_regions(""), Vec::<String>::new());
}

#[test]
fn counting_skips_blank_entries() {
    assert_eq!(count_remote_addresses(""), 0);
    assert_eq!(count_remote_addresses(" , ,"), 0);
    assert_eq!(count_remote_addresses("1.1.1.1"), 1);
}

#[test]
fn written_rule_reads_back() {
    let p = plan(&["Brazil", "Middle East"], &["1.1.1.1", "2.2.2.0/24", "::1-::2"], Some("C:\\Overwatch.exe"));
    match rule_action(&p) {
        Ok(RuleAction::Replace { description, application_path, remote_addresses, traits }) => {
            assert_eq!(
                traits,
                RuleTraits { outbound: true, block: true, enabled: true, all_profiles: true, any_protocol: true }
            );
            assert_eq!(remote_addresses, "1.1.1.1,2.2.2.0/24,::1-::2");
            assert_eq!(application_path, "C:\\Overwatch.exe");
            assert_eq!(decode_regions(&description), p.selected_regions);
            assert_eq!(count_remote_addresses(&remote_addresses), 3);
            let firewall = WindowsFirewall::new();
            let status = firewall.status_of_rule(true, true, &remote_addresses, &description, &application_path);
            assert!(status.rule_active);
            assert_eq!(status.active_regions, p.selected_regions);
            assert_eq!(status.active_address_count, 3);
            assert_eq!(status.application_path, Some("C:\\Overwatch.exe".to_string()));
            assert_eq!(status.note, "Single OWServerBlocker rule found.");
            assert_eq!(status.backend_name, "Windows Firewall");
        }
        _ => panic!("expected a rule"),
    }
}

#[test]
fn empty_selection_removes_and_blank_addresses_refuse() {
    assert!(matches!(rule_action(&plan(&[], &[], None)), Ok(RuleAction::Remove)));
    match rule_action(&plan(&["Brazil"], &["  "], Some("p"))) {
        Err(e) => assert_eq!(e, "Empty IP list. The rule will not be enabled for safety."),
        _ => panic!("expected a refusal"),
    }
}

#[test]
fn disabled_or_empty_rule_is_inactive() {
    let firewall = WindowsFirewall::new();
    let disabled = firewall.status_of_rule(false, false, "1.1.1.1", "", "  ");
    assert!(!disabled.rule_active);
    assert!(!disabled.is_admin);
    assert_eq!(disabled.note, "Rule exists, but it is disabled.");
    assert_eq!(disabled.application_path, None);
    assert!(disabled.active_regions.is_empty());
    let empty = firewall.status_of_rule(true, true, " , ", "regions=A", "x");
    assert!(!empty.rule_active);
    assert_eq!(empty.active_regions, vec!["A".to_string()]);
    let missing = firewall.status_without_rule(true);
    assert!(!missing.rule_active);
    assert!(missing.is_admin);
    assert_eq!(missing.note, "No active OWServerBlocker rule found.");
}

#[test]
fn errors_are_remembered_until_a_success() {
    let mut firewall = WindowsFirewall::new();
    assert_eq!(firewall.last_error(), None);
    let failed = firewall.sync(Err("access denied".to_string()));
    assert!(!failed.ok);
    assert_eq!(failed.summary, "access denied");
    assert_eq!(firewall.last_error(), Some("access denied".to_string()));
    let seen = firewall.status_without_rule(false);
    assert_eq!(seen.last_error, Some("access denied".to_string()));

    let status = firewall.status(Err("COM failed".to_string()), true);
    assert_eq!(status.note, "Could not read Windows Firewall status.");
    assert_eq!(status.last_error, Some("COM failed".to_string()));
    assert!(status.is_admin);
    assert_eq!(firewall.last_error(), Some("COM failed".to_string()));

    let ok = firewall.unblock_all(Ok(removed_report()));
    assert!(ok.ok);
    assert_eq!(ok.summary, "OWServerBlocker rule removed.");
    assert_eq!(firewall.last_error(), None);

    let read = firewall.status(Ok(unavailable_status()), false);
    assert_eq!(read.backend_name, "unavailable");
}

#[test]
fn reports_after_applying() {
    let removed = applied_report(&RuleAction::Remove);
    assert!(removed.ok);
    assert_eq!(removed.summary, "No servers selected. Rule removed.");
    let replaced = applied_report(&RuleAction::Replace {
        description: String::new(),
        application_path: String::new(),
        remote_addresses: String::new(),
        traits: RuleTraits { outbound: true, block: true, enabled: true, all_profiles: true, any_protocol: true },
    });
    assert!(replaced.ok);
    assert_eq!(replaced.summary, "Windows Firewall rule synchronized.");
    assert_eq!(rule_name_text(), "OWServerBlocker - Overwatch.exe");
    let idle = FirewallReport::idle();
    assert!(idle.ok);
    assert_eq!(idle.summary, "No action applied yet.");
    let error = FirewallReport::error("boom");
    assert!(!error.ok);
    assert_eq!(error.summary, "boom");
}

#[test]
fn unavailable_backend_refuses_everything() {
    let mut backend = UnavailableFirewall;
    let status: FirewallStatus = backend.status();
    assert_eq!(status.backend_name, "unavailable");
    assert_eq!(status.note, "Windows Firewall is only available on Windows.");
    assert!(!status.rule_active);
    let synced = backend.sync(plan(&["Brazil"], &["1.1.1.1"], Some("p")));
    assert!(!synced.ok);
    assert_eq!(synced.summary, "Windows Firewall is only available on Windows.");
    let removed = backend.unblock_all();
    assert!(!removed.ok);
    assert_eq!(removed.summary, unavailable_report().summary);
}
