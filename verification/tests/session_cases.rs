use owsvblocker::firewall::FirewallStatus;
use owsvblocker::idset::TargetIdSet;
use owsvblocker::server::default_servers;
use owsvblocker::session::{
    current_settings, executable_choice_report, group_selected_count, initial_overwatch_path,
    initial_selected_targets, load_settings_report, path_from_input, plan_for_selection,
    save_error_report, selected_target_refs, set_group_selected, target_ids_for_regions,
};
use owsvblocker::session::{can_apply, group_fully_selected, start_state, toggle_group};
use owsvblocker::settings::{format_settings, parse_settings, AppSettings};

fn quiet_status() -> FirewallStatus {
    FirewallStatus {
        backend_name: "test",
        is_admin: false,
        rule_active: false,
        active_regions: Vec::new(),
        active_targets: Vec::new(),
        active_address_count: 0,
        application_path: None,
        note: String::new(),
        last_error: None,
    }
}

fn ids(set: &TargetIdSet) -> Vec<String> {
    set.to_vec()
}

#[test]
fn regions_match_by_name_in_any_case_or_by_id() {
    let servers = default_servers();
    let selected = target_ids_for_regions(&servers, &vec!["bRaZiL".to_string(), "eua-central".to_string()]);
    assert!(selected.contains("google:southamerica-east1"));
    let central = &servers[2];
    for target in &central.targets {
        assert!(selected.contains(target.id));
    }
    let expected = 1 + central.targets.len();
    assert_eq!(selected.len(), expected);
    assert!(target_ids_for_regions(&servers, &vec!["nowhere".to_string()]).is_empty());
}

#[test]
fn remembered_targets_come_before_remembered_regions() {
    let servers = default_servers();
    let settings = AppSettings {
        overwatch_path: None,
        selected_regions: vec!["australia".to_string()],
        selected_targets: vec!["blizzard:syd2".to_string(), "old:gone".to_string()],
    };
    let selected = initial_selected_targets(&servers, &quiet_status(), &settings);
    assert_eq!(ids(&selected), vec!["blizzard:syd2".to_string()]);

    let only_regions = AppSettings {
        overwatch_path: None,
        selected_regions: vec!["australia".to_string()],
        selected_targets: vec!["old:gone".to_string()],
    };
    let selected = initial_selected_targets(&servers, &quiet_status(), &only_regions);
    assert_eq!(selected.len(), 3);
    assert!(selected.contains("community:aus"));
}

#[test]
fn rule_regions_come_before_remembered_targets() {
    let servers = default_servers();
    let mut status = quiet_status();
    status.active_regions = vec!["Brazil".to_string()];
    let settings = AppSettings {
        overwatch_path: None,
        selected_regions: Vec::new(),
        selected_targets: vec!["blizzard:syd2".to_string()],
    };
    let selected = initial_selected_targets(&servers, &status, &settings);
    assert_eq!(ids(&selected), vec!["google:southamerica-east1".to_string()]);
}

#[test]
fn nothing_remembered_selects_nothing() {
    let servers = default_servers();
    let selected = initial_selected_targets(&servers, &quiet_status(), &AppSettings::default());
    assert!(selected.is_empty());
}

#[test]
fn group_toggle_selects_and_clears_the_group() {
    let servers = default_servers();
    let australia = &servers[1];
    let mut selected = TargetIdSet::new();
    selected.insert("google:southamerica-east1".to_string());
    set_group_selected(&mut selected, australia, true);
    assert_eq!(group_selected_count(australia, &selected), australia.target_count());
    assert_eq!(selected.len(), 4);
    set_group_selected(&mut selected, australia, false);
    assert_eq!(group_selected_count(australia, &selected), 0);
    assert_eq!(ids(&selected), vec!["google:southamerica-east1".to_string()]);
}

#[test]
fn saved_selection_is_restored() {
    let servers = default_servers();
    let mut selected = TargetIdSet::new();
    selected.insert("community:aus".to_string());
    selected.insert("google:southamerica-east1".to_string());
    selected.insert("blizzard:syd2".to_string());
    let settings = current_settings(&servers, &selected, "  C:\\Games\\Overwatch.exe ");
    assert_eq!(settings.overwatch_path, Some("C:\\Games\\Overwatch.exe".to_string()));
    assert_eq!(settings.selected_regions, vec!["brazil".to_string(), "australia".to_string()]);
    assert_eq!(
        settings.selected_targets,
        vec!["blizzard:syd2".to_string(), "community:aus".to_string(), "google:southamerica-east1".to_string()]
    );
    let loaded = parse_settings(&format_settings(&settings));
    assert_eq!(loaded, settings);
    let restored = initial_selected_targets(&servers, &quiet_status(), &loaded);
    assert_eq!(ids(&restored), ids(&selected));
}

#[test]
fn blank_path_is_not_remembered() {
    assert_eq!(path_from_input("   "), None);
    assert_eq!(path_from_input(""), None);
    assert_eq!(path_from_input(" a b "), Some("a b".to_string()));
}

#[test]
fn selected_targets_come_in_list_order_with_their_group() {
    let servers = default_servers();
    let mut selected = TargetIdSet::new();
    selected.insert("community:aus".to_string());
    selected.insert("google:southamerica-east1".to_string());
    let refs = selected_target_refs(&servers, &selected);
    let pairs: Vec<(&str, &str)> = refs.iter().map(|(g, t)| (g.name, t.id)).collect();
    assert_eq!(pairs, vec![("Brazil", "google:southamerica-east1"), ("Australia", "community:aus")]);
}

#[test]
fn plan_for_selection_takes_regions_targets_and_path() {
    let servers = default_servers();
    let mut selected = TargetIdSet::new();
    selected.insert("blizzard:syd2".to_string());
    selected.insert("community:aus".to_string());
    let plan = plan_for_selection(&servers, &selected, " D:\\Overwatch.exe ");
    assert_eq!(plan.selected_regions, vec!["Australia".to_string()]);
    assert_eq!(plan.selected_targets, vec!["blizzard:syd2".to_string(), "community:aus".to_string()]);
    assert_eq!(plan.application_path, Some("D:\\Overwatch.exe".to_string()));
    let mut expected: Vec<String> = Vec::new();
    for target in &servers[1].targets[1..] {
        for address in &target.addresses {
            if !expected.contains(address) {
                expected.push(address.clone());
            }
        }
    }
    assert_eq!(plan.remote_addresses, expected);
    assert_eq!(plan_for_selection(&servers, &selected, "  ").application_path, None);
}

#[test]
fn start_path_prefers_rule_then_settings_then_detected() {
    let s = |v: &str| Some(v.to_string());
    assert_eq!(initial_overwatch_path(s("a"), s("b"), s("c")), "a");
    assert_eq!(initial_overwatch_path(None, s("b"), s("c")), "b");
    assert_eq!(initial_overwatch_path(None, None, s("c")), "c");
    assert_eq!(
        initial_overwatch_path(None, None, None),
        "C:\\Program Files (x86)\\Overwatch\\_retail_\\Overwatch.exe"
    );
}

#[test]
fn load_failure_gives_defaults_and_a_report() {
    let (settings, report) = load_settings_report(Err("could not read x".to_string()), "/tmp/s.ini");
    assert_eq!(settings, AppSettings::default());
    let report = report.expect("report");
    assert!(!report.ok);
    assert_eq!(report.summary, "Could not load settings from /tmp/s.ini: could not read x");

    let kept = AppSettings {
        overwatch_path: Some("p".to_string()),
        selected_regions: Vec::new(),
        selected_targets: Vec::new(),
    };
    let (settings, report) = load_settings_report(Ok(kept.clone()), "/tmp/s.ini");
    assert_eq!(settings, kept);
    assert!(report.is_none());
}

#[test]
fn reports_for_saving_and_choosing_the_executable() {
    let report = save_error_report("disk full");
    assert!(!report.ok);
    assert_eq!(report.summary, "Could not save settings: disk full");

    let chosen = executable_choice_report("D:\\Games\\OVERWATCH.EXE", '\\');
    assert!(chosen.ok);
    assert_eq!(chosen.summary, "Overwatch executable selected.");
    let wrong = executable_choice_report("C:\\Battle.net.exe", '\\');
    assert!(!wrong.ok);
    assert_eq!(wrong.summary, "Select the file named Overwatch.exe.");
    assert!(!executable_choice_report("C:\\", '\\').ok);
}

#[test]
fn group_box_toggles_and_apply_enablement() {
    assert!(group_fully_selected(3, 3));
    assert!(!group_fully_selected(3, 2));
    assert!(!group_fully_selected(0, 0));
    let servers = default_servers();
    let au = &servers[1];
    let mut selected = TargetIdSet::new();
    selected.insert("blizzard:syd2".to_string());
    toggle_group(&mut selected, au);
    assert_eq!(group_selected_count(au, &selected), 3);
    toggle_group(&mut selected, au);
    assert!(selected.is_empty());
    assert!(can_apply(" p ", 3));
    assert!(can_apply("  ", 0));
    assert!(!can_apply("  ", 1));

    let start = start_state(&servers, &quiet_status(), Err("boom".to_string()), "/s.ini", Some("D:\\ow.exe".to_string()));
    assert!(start.selected_targets.is_empty());
    assert_eq!(start.overwatch_path, "D:\\ow.exe");
    assert!(!start.last_report.ok);
    assert_eq!(start.last_report.summary, "Could not load settings from /s.ini: boom");
    let settings = AppSettings {
        overwatch_path: Some("E:\\ow.exe".to_string()),
        selected_regions: Vec::new(),
        selected_targets: vec!["community:aus".to_string()],
    };
    let start = start_state(&servers, &quiet_status(), Ok(settings), "/s.ini", None);
    assert_eq!(ids(&start.selected_targets), vec!["community:aus".to_string()]);
    assert_eq!(start.overwatch_path, "E:\\ow.exe");
    assert!(start.last_report.ok);
    assert_eq!(start.last_report.summary, "No action applied yet.");
}
