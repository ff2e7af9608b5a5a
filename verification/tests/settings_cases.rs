use owsvblocker::settings::{format_settings, parse_settings, settings_path, AppSettings};

#[test]
fn settings_file_text_is_exact() {
    let settings = AppSettings {
        overwatch_path: Some("C:\\Overwatch\\Overwatch.exe".to_string()),
        selected_regions: vec!["brazil".to_string(), "europe".to_string()],
        selected_targets: vec!["blizzard:ams1".to_string()],
    };
    assert_eq!(
        format_settings(&settings),
        "# OW Server Blocker settings\n# This file is safe to delete; the app will recreate it.\noverwatch_path=C:\\Overwatch\\Overwatch.exe\nselected_regions=brazil,europe\nselected_targets=blizzard:ams1\n"
    );
    assert_eq!(
        format_settings(&AppSettings::default()),
        "# OW Server Blocker settings\n# This file is safe to delete; the app will recreate it.\noverwatch_path=\nselected_regions=\nselected_targets=\n"
    );
}

#[test]
fn default_settings_roundtrip() {
    let settings = AppSettings::default();
    assert_eq!(parse_settings(&format_settings(&settings)), settings);
}

#[test]
fn blank_path_and_later_lines_win() {
    let parsed = parse_settings(
        "overwatch_path=   \r\nselected_regions=a\nselected_regions= b ,c\r\n  # overwatch_path=x\n",
    );
    assert_eq!(parsed.overwatch_path, None);
    assert_eq!(parsed.selected_regions, vec!["b".to_string(), "c".to_string()]);
    assert!(parsed.selected_targets.is_empty());
}

#[test]
fn path_value_is_trimmed() {
    let parsed = parse_settings("  overwatch_path=  D:\\Games\\Overwatch.exe  ");
    assert_eq!(parsed.overwatch_path, Some("D:\\Games\\Overwatch.exe".to_string()));
}

#[test]
fn settings_path_prefers_appdata_then_local_then_home() {
    assert_eq!(
        settings_path(Some("C:\\Users\\u\\AppData\\Roaming"), Some("L"), Some("H"), Some("D"), '\\'),
        "C:\\Users\\u\\AppData\\Roaming\\OWServerBlocker\\settings.ini"
    );
    assert_eq!(
        settings_path(None, Some("C:\\Local\\"), Some("H"), None, '\\'),
        "C:\\Local\\OWServerBlocker\\settings.ini"
    );
    assert_eq!(
        settings_path(None, None, Some("/home/u"), Some("/work"), '/'),
        "/home/u/.config/OWServerBlocker/settings.ini"
    );
    assert_eq!(settings_path(None, None, None, Some("/work/"), '/'), "/work/OWServerBlocker/settings.ini");
    assert_eq!(settings_path(None, None, None, None, '/'), "./OWServerBlocker/settings.ini");
}
