use owsvblocker::firewall::FirewallStatus;
use owsvblocker::server::default_servers;
use owsvblocker::session::{initial_selected_targets, target_ids_for_regions};
use owsvblocker::settings::AppSettings;

fn status_with(regions: Vec<&str>, targets: Vec<&str>) -> FirewallStatus {
    FirewallStatus {
        backend_name: "test",
        is_admin: true,
        rule_active: true,
        active_regions: regions.into_iter().map(ToString::to_string).collect(),
        active_targets: targets.into_iter().map(ToString::to_string).collect(),
        active_address_count: 1,
        application_path: None,
        note: String::new(),
        last_error: None,
    }
}

#[test]
fn legacy_regions_select_every_target_in_that_region() {
    let servers = default_servers();
    let selected = target_ids_for_regions(&servers, &vec!["Australia".to_string()]);

    assert!(selected.contains("google:australia-southeast1"));
    assert!(selected.contains("blizzard:syd2"));
    assert!(selected.contains("community:aus"));
}

#[test]
fn active_target_ids_restore_exact_selection() {
    let servers = default_servers();
    let status = status_with(vec!["Australia"], vec!["blizzard:syd2"]);

    let selected = initial_selected_targets(&servers, &status, &AppSettings::default());

    assert_eq!(selected.len(), 1);
    assert!(selected.contains("blizzard:syd2"));
}

#[test]
fn invalid_target_ids_fall_back_to_legacy_regions() {
    let servers = default_servers();
    let status = status_with(vec!["Australia"], vec!["old:unknown"]);

    let selected = initial_selected_targets(&servers, &status, &AppSettings::default());

    assert!(selected.contains("google:australia-southeast1"));
    assert!(selected.contains("blizzard:syd2"));
    assert!(selected.contains("community:aus"));
}
