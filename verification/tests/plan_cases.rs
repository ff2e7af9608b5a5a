use owsvblocker::plan::{
    detect_overwatch_path, file_name_of, is_overwatch_executable, join_path_exec, library_file_path,
    overwatch_path_candidates,
    push_candidate, steam_libraries, steam_roots, FirewallPlan, PathCheck,
};

fn plan(regions: &[&str], addresses: &[&str], path: Option<&str>) -> FirewallPlan {
    FirewallPlan {
        selected_regions: regions.iter().map(|s| s.to_string()).collect(),
        selected_targets: Vec::new(),
        remote_addresses: addresses.iter().map(|s| s.to_string()).collect(),
        application_path: path.map(|p| p.to_string()),
    }
}

#[test]
fn empty_selection_may_always_be_applied() {
    assert_eq!(plan(&[], &[], None).validate_for_apply(false, '\\'), Ok(()));
}

#[test]
fn each_refusal_names_its_reason() {
    assert_eq!(
        plan(&["Brazil"], &[], Some("x")).validate_for_apply(true, '\\'),
        Err("No valid IPs were found for the selected servers.".to_string())
    );
    assert_eq!(
        plan(&["Brazil"], &["1.1.1.1"], None).validate_for_apply(true, '\\'),
        Err("Select the Overwatch.exe path.".to_string())
    );
    assert_eq!(
        plan(&["Brazil"], &["1.1.1.1"], Some("C:\\x\\Overwatch.exe")).validate_for_apply(false, '\\'),
        Err("The executable does not exist: C:\\x\\Overwatch.exe".to_string())
    );
    assert_eq!(
        plan(&["Brazil"], &["1.1.1.1"], Some("C:\\x\\game.exe")).validate_for_apply(true, '\\'),
        Err("The path must point to a file named Overwatch.exe.".to_string())
    );
    assert_eq!(
        plan(&["Brazil"], &["1.1.1.1"], Some("C:\\x\\overwatch.EXE")).validate_for_apply(true, '\\'),
        Ok(())
    );
}

#[test]
fn executable_needs_existence_and_name() {
    assert!(is_overwatch_executable("C:\\Games\\Overwatch.exe", true, '\\'));
    assert!(!is_overwatch_executable("C:\\Games\\Overwatch.exe", false, '\\'));
    assert!(!is_overwatch_executable("C:\\Games\\Overwatch.exe.bak", true, '\\'));
    assert!(!is_overwatch_executable("C:\\", true, '\\'));
    assert!(is_overwatch_executable("/games/overwatch.EXE", true, '/'));
}

#[test]
fn detection_takes_the_first_executable() {
    let check = |path: &str, exists: bool| PathCheck { path: path.to_string(), exists };
    let candidates = vec![
        check("a\\Overwatch.exe", false),
        check("b\\other.exe", true),
        check("c\\overwatch.exe", true),
        check("d\\Overwatch.exe", true),
    ];
    assert_eq!(detect_overwatch_path(&candidates, '\\'), Some("c\\overwatch.exe".to_string()));
    let none_valid = vec![check("a\\Overwatch.exe", false), check("b\\other.exe", true)];
    assert_eq!(detect_overwatch_path(&none_valid, '\\'), None);
    assert_eq!(detect_overwatch_path(&Vec::new(), '\\'), None);
}

#[test]
fn file_name_is_the_last_normal_component() {
    let name = |p: &str, sep: char| file_name_of(p, sep);
    assert_eq!(name("/usr/bin/", '/'), Some("bin".to_string()));
    assert_eq!(name("tmp/foo.txt", '/'), Some("foo.txt".to_string()));
    assert_eq!(name("foo.txt/.", '/'), Some("foo.txt".to_string()));
    assert_eq!(name("foo.txt/.//", '/'), Some("foo.txt".to_string()));
    assert_eq!(name("foo.txt/..", '/'), None);
    assert_eq!(name("/", '/'), None);
    assert_eq!(name(".", '/'), None);
    assert_eq!(name("a\\b", '/'), Some("a\\b".to_string()));
    assert_eq!(name("C:\\x\\Overwatch.exe", '\\'), Some("Overwatch.exe".to_string()));
    assert_eq!(name("C:\\x/y.exe", '\\'), Some("y.exe".to_string()));
    assert_eq!(name("C:", '\\'), None);
    assert_eq!(name("C:\\", '\\'), None);
    assert_eq!(name("C:foo.exe", '\\'), Some("foo.exe".to_string()));
    assert_eq!(name("\\\\server\\share", '\\'), None);
    assert_eq!(name("\\\\server\\share\\a.exe", '\\'), Some("a.exe".to_string()));
    assert_eq!(name("\\\\?\\C:\\x\\.", '\\'), None);
    assert_eq!(name("\\\\?\\C:\\x/y", '\\'), Some("x/y".to_string()));
}

#[test]
fn candidates_are_kept_once_up_to_case() {
    let mut paths = vec!["C:\\Steam".to_string()];
    push_candidate(&mut paths, "c:\\steam".to_string());
    push_candidate(&mut paths, "D:\\Steam".to_string());
    assert_eq!(paths, vec!["C:\\Steam".to_string(), "D:\\Steam".to_string()]);
}

#[test]
fn steam_roots_follow_the_environment_then_the_usual_places() {
    assert_eq!(
        steam_roots(Some("C:\\Program Files (x86)"), Some("E:\\Apps\\"), '\\'),
        vec![
            "C:\\Program Files (x86)\\Steam".to_string(),
            "E:\\Apps\\Steam".to_string(),
            "C:\\Program Files\\Steam".to_string(),
        ]
    );
    assert_eq!(
        steam_roots(None, None, '\\'),
        vec!["C:\\Program Files (x86)\\Steam".to_string(), "C:\\Program Files\\Steam".to_string()]
    );
    assert_eq!(
        library_file_path("C:\\Steam", '\\'),
        "C:\\Steam\\steamapps\\libraryfolders.vdf"
    );
}

#[test]
fn steam_libraries_add_each_listed_library_once() {
    let vdf = "\"libraryfolders\"\n{\n \"0\" { \"path\" \"C:\\\\Steam\" }\n}\n\"1\"\n{\n\t\"PATH\"\t\t\"D:\\\\Games\\\\SteamLibrary\"\n}\n";
    let roots = vec![
        ("C:\\Steam".to_string(), Some(vdf.to_string())),
        ("C:\\Other".to_string(), None),
    ];
    assert_eq!(
        steam_libraries(&roots),
        vec!["C:\\Steam".to_string(), "D:\\Games\\SteamLibrary".to_string(), "C:\\Other".to_string()]
    );
}

#[test]
fn executable_candidates_cover_usual_places_and_libraries() {
    let libraries = vec!["D:\\Lib".to_string()];
    assert_eq!(
        overwatch_path_candidates(&libraries, '\\'),
        vec![
            "C:\\Program Files (x86)\\Overwatch\\_retail_\\Overwatch.exe".to_string(),
            "C:\\Program Files (x86)\\Overwatch\\Overwatch.exe".to_string(),
            "C:\\Program Files\\Overwatch\\_retail_\\Overwatch.exe".to_string(),
            "C:\\Program Files\\Overwatch\\Overwatch.exe".to_string(),
            "D:\\Lib\\steamapps\\common\\Overwatch\\Overwatch.exe".to_string(),
            "D:\\Lib\\steamapps\\common\\Overwatch\\_retail_\\Overwatch.exe".to_string(),
        ]
    );
    assert_eq!(overwatch_path_candidates(&Vec::new(), '\\').len(), 4);
}

#[test]
fn plan_keeps_first_region_name_and_address_order() {
    let servers = owsvblocker::server::default_servers();
    let australia = &servers[1];
    let brazil = &servers[0];
    let plan = FirewallPlan::from_targets(
        vec![
            (australia, &australia.targets[2]),
            (brazil, &brazil.targets[0]),
            (australia, &australia.targets[1]),
        ],
        Some("p".to_string()),
    );
    assert_eq!(plan.selected_regions, vec!["Australia".to_string(), "Brazil".to_string()]);
    assert_eq!(
        plan.selected_targets,
        vec!["community:aus".to_string(), "google:southamerica-east1".to_string(), "blizzard:syd2".to_string()]
    );
    let mut expected: Vec<String> = Vec::new();
    for target in [&australia.targets[2], &brazil.targets[0], &australia.targets[1]] {
        for address in &target.addresses {
            if !expected.contains(address) {
                expected.push(address.clone());
            }
        }
    }
    assert_eq!(plan.remote_addresses, expected);
}

#[test]
fn bare_drive_joins_without_separator() {
    assert_eq!(steam_roots(Some("C:"), Some("D:\\"), '\\')[..2].to_vec(), vec!["C:Steam".to_string(), "D:\\Steam".to_string()]);
    assert_eq!(library_file_path("C:", '/'), "C:/steamapps/libraryfolders.vdf");
    assert_eq!(library_file_path("/", '/'), "/steamapps/libraryfolders.vdf");
}

#[test]
fn australia_plan_carries_its_ranges_once() {
    let s = owsvblocker::server::default_servers();
    let au = &s[1];
    let (syd, aus) = (&au.targets[1], &au.targets[2]);
    let plan = FirewallPlan::from_targets(vec![(au, syd), (au, aus), (au, syd)], Some("Overwatch.exe".to_string()));
    assert_eq!(plan.selected_regions, vec!["Australia"]);
    assert_eq!(plan.selected_targets, vec!["blizzard:syd2", "community:aus", "blizzard:syd2"]);
    assert_eq!(plan.remote_addresses, vec!["158.115.196.0/23", "37.244.42.0-37.244.42.255"]);
    assert_eq!(plan.application_path, Some("Overwatch.exe".to_string()));
}

#[test]
fn verbatim_base_is_rebuilt_from_its_components() {
    assert_eq!(
        join_path_exec("\\\\?\\D:\\Steam\\\\Lib", "steamapps", '\\'),
        "\\\\?\\D:\\Steam\\Lib\\steamapps"
    );
    assert_eq!(join_path_exec("\\\\?\\D:\\Steam\\", "steamapps", '\\'), "\\\\?\\D:\\Steam\\steamapps");
    assert_eq!(join_path_exec("\\\\?\\C:", "x", '\\'), "\\\\?\\C:\\x");
    assert_eq!(join_path_exec("\\\\?\\D:\\a/b", "c", '\\'), "\\\\?\\D:\\a/b\\c");
    assert_eq!(
        join_path_exec("\\\\?\\UNC\\server\\share\\\\dir\\", "f", '\\'),
        "\\\\?\\UNC\\server\\share\\dir\\f"
    );
    assert_eq!(join_path_exec("D:\\Steam\\\\Lib", "steamapps", '\\'), "D:\\Steam\\\\Lib\\steamapps");
    assert_eq!(join_path_exec("\\\\?\\D:\\x", "y", '/'), "\\\\?\\D:\\x/y");
}

#[test]
fn candidates_hold_each_path_once_up_to_case() {
    let libraries = vec!["D:\\Lib".to_string(), "d:\\lib".to_string()];
    let c = overwatch_path_candidates(&libraries, '\\');
    assert_eq!(c.len(), 6);
    assert_eq!(c[4], "D:\\Lib\\steamapps\\common\\Overwatch\\Overwatch.exe");
    for i in 0..c.len() {
        for j in (i + 1)..c.len() {
            assert_ne!(c[i].to_ascii_lowercase(), c[j].to_ascii_lowercase());
        }
    }
}
