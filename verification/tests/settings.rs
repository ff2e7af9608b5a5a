use owsvblocker::settings::{format_settings, parse_settings, AppSettings};

#[test]
fn settings_roundtrip_keeps_fields() {
    let settings = AppSettings {
        overwatch_path: Some(r"C:\Games\Overwatch\_retail_\Overwatch.exe".into()),
        selected_regions: vec!["brazil".into(), "us_west".into()],
        selected_targets: vec!["google:southamerica-east1".into(), "blizzard:las1".into()],
    };

    let raw = format_settings(&settings);
    let parsed = parse_settings(&raw);

    assert_eq!(parsed, settings);
}

#[test]
fn settings_parser_ignores_empty_and_unknown_lines() {
    let parsed = parse_settings(
        "# comment\nversion=1\noverwatch_path=C:\\Overwatch\\Overwatch.exe\nselected_regions=brazil, us_east,,\nselected_targets=google:southamerica-east1, blizzard:ord1,,",
    );

    assert_eq!(
        parsed,
        AppSettings {
            overwatch_path: Some(r"C:\Overwatch\Overwatch.exe".into()),
            selected_regions: vec!["brazil".into(), "us_east".into()],
            selected_targets: vec!["google:southamerica-east1".into(), "blizzard:ord1".into()],
        }
    );
}
