use owsvblocker::plan::{parse_steam_library_paths, FirewallPlan};
use owsvblocker::server::default_servers;

#[test]
fn plan_deduplicates_addresses() {
    let servers = default_servers();
    let brazil = &servers[0];
    let brazil_target = &brazil.targets[0];
    let plan = FirewallPlan::from_targets(vec![(brazil, brazil_target)], None);

    assert_eq!(plan.selected_regions, vec!["Brazil"]);
    assert_eq!(plan.selected_targets, vec![brazil_target.id]);
    assert_eq!(plan.remote_addresses, brazil_target.addresses);
}

#[test]
fn parses_steam_libraryfolders_paths() {
    let raw = r#"
            "libraryfolders"
            {
                "0"
                {
                    "path"  "C:\\Program Files (x86)\\Steam"
                }
                "1"
                {
                    "path"  "D:\\SteamLibrary"
                }
            }
        "#;

    let paths = parse_steam_library_paths(raw);

    assert_eq!(
        paths,
        vec![
            String::from(r"C:\Program Files (x86)\Steam"),
            String::from(r"D:\SteamLibrary"),
        ]
    );
}
