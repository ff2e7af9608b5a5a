use owsvblocker::idset::TargetIdSet;

#[test]
fn insert_and_remove_report_changes() {
    let mut set = TargetIdSet::new();
    assert!(set.is_empty());
    assert!(set.insert("b".to_string()));
    assert!(set.insert("a".to_string()));
    assert!(!set.insert("b".to_string()));
    assert_eq!(set.len(), 2);
    assert!(set.contains("a"));
    assert!(!set.contains("c"));
    assert!(set.remove("a"));
    assert!(!set.remove("a"));
    assert_eq!(set.to_vec(), vec!["b".to_string()]);
}

#[test]
fn ids_come_out_in_ascending_order() {
    let mut set = TargetIdSet::new();
    for id in ["google:x", "blizzard:b", "blizzard:a", "community:z", "blizzard:ab", "Z"] {
        set.insert(id.to_string());
    }
    let mut expected: Vec<String> = ["google:x", "blizzard:b", "blizzard:a", "community:z", "blizzard:ab", "Z"]
        .iter()
        .map(|s| s.to_string())
        .collect();
    expected.sort();
    assert_eq!(set.to_vec(), expected);
}
