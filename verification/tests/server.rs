use std::collections::BTreeSet;

use owsvblocker::server::{default_servers, ServerRegion};

#[test]
fn every_default_server_has_addresses() {
    for group in default_servers() {
        assert!(
            !group.addresses().is_empty(),
            "{} must have at least one address",
            group.name
        );

        for target in &group.targets {
            assert!(
                !target.addresses.is_empty(),
                "{} must have at least one address",
                target.id
            );
        }
    }
}

#[test]
fn every_target_has_a_stable_unique_id() {
    let mut ids = BTreeSet::new();

    for group in default_servers() {
        for target in group.targets {
            assert!(
                target.id.contains(':'),
                "{} should include provider",
                target.id
            );
            assert!(ids.insert(target.id), "{} must be unique", target.id);
        }
    }
}

#[test]
fn region_ids_roundtrip_and_accept_legacy_names() {
    for server in default_servers() {
        assert_eq!(
            ServerRegion::from_id(server.region.id()),
            Some(server.region)
        );
    }

    assert_eq!(ServerRegion::from_id("Brasil"), Some(ServerRegion::Brazil));
    assert_eq!(
        ServerRegion::from_id("EUA Central"),
        Some(ServerRegion::UsaCentral)
    );
}
