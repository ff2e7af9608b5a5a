use owsvblocker::address::parse_address_list;
use owsvblocker::server::{default_servers, ServerProvider, ServerRegion, TargetConfidence};

#[test]
fn region_ids_and_spellings() {
    assert_eq!(ServerRegion::UsaEast.id(), "us_east");
    assert_eq!(ServerRegion::AsiaSingapore.id(), "asia_singapore");
    assert_eq!(ServerRegion::from_id("  US-East "), Some(ServerRegion::UsaEast));
    assert_eq!(ServerRegion::from_id("EUA West"), Some(ServerRegion::UsaWest));
    assert_eq!(ServerRegion::from_id("Europa"), Some(ServerRegion::Europe));
    assert_eq!(ServerRegion::from_id("oriente-medio"), Some(ServerRegion::MiddleEast));
    assert_eq!(ServerRegion::from_id("asia japan"), Some(ServerRegion::AsiaJapan));
    assert_eq!(ServerRegion::from_id("mars"), None);
    assert_eq!(ServerRegion::from_id(""), None);
}

#[test]
fn labels_are_the_shown_texts() {
    assert_eq!(ServerProvider::GoogleCloud.label(), "Google Cloud");
    assert_eq!(TargetConfidence::KnownOw.label(), "Known OW/Blizzard");
    assert_eq!(TargetConfidence::ProviderRegion.label(), "Provider region");
    assert_eq!(TargetConfidence::Community.label(), "Community");
}

#[test]
fn server_list_has_one_group_per_region_in_order() {
    let servers = default_servers();
    let regions: Vec<ServerRegion> = servers.iter().map(|g| g.region).collect();
    assert_eq!(
        regions,
        vec![
            ServerRegion::Brazil,
            ServerRegion::Australia,
            ServerRegion::UsaCentral,
            ServerRegion::UsaEast,
            ServerRegion::UsaWest,
            ServerRegion::Europe,
            ServerRegion::MiddleEast,
            ServerRegion::AsiaJapan,
            ServerRegion::AsiaKorea,
            ServerRegion::AsiaSingapore,
            ServerRegion::AsiaTaiwan,
        ]
    );
    let australia: Vec<&str> = servers[1].targets.iter().map(|t| t.id).collect();
    assert_eq!(australia, vec!["google:australia-southeast1", "blizzard:syd2", "community:aus"]);
}

#[test]
fn group_addresses_are_its_targets_addresses_once() {
    for group in default_servers() {
        let mut all = Vec::new();
        for target in &group.targets {
            assert_eq!(target.address_count(), target.addresses.len());
            for address in &target.addresses {
                if !all.contains(address) {
                    all.push(address.clone());
                }
            }
        }
        assert_eq!(group.addresses(), all);
        assert_eq!(group.target_count(), group.targets.len());
    }
}

#[test]
fn server_addresses_are_canonical_and_distinct() {
    for group in default_servers() {
        for target in &group.targets {
            let joined = target.addresses.join("\n");
            assert_eq!(parse_address_list(&joined).expect("valid"), target.addresses, "{}", target.id);
        }
    }
}

#[test]
fn excluded_ranges_belong_to_one_target() {
    let servers = default_servers();
    let australia = &servers[1];
    let google = &australia.targets[0];
    let blizzard = &australia.targets[1];
    for address in &blizzard.addresses {
        assert!(!google.addresses.contains(address), "{}", address);
    }
}

#[test]
fn sydney_and_community_ranges_leave_the_google_target() {
    let s = default_servers();
    assert_eq!(s[1].region, ServerRegion::Australia);
    assert_eq!(s[1].targets[1].id, "blizzard:syd2");
    assert_eq!(s[1].targets[1].addresses, vec!["158.115.196.0/23"]);
    assert_eq!(s[1].targets[2].addresses, vec!["37.244.42.0-37.244.42.255"]);
    assert!(s[1].targets[0]
        .addresses
        .iter()
        .all(|a| a != "158.115.196.0/23" && a != "37.244.42.0-37.244.42.255"));
    assert_eq!(s[1].targets[0].probe_ips, vec!["34.87.192.1", "35.189.0.1"]);
    assert_eq!(s[1].targets[0].label, "Australia, Sydney");
    assert_eq!(s[1].targets[0].provider, ServerProvider::GoogleCloud);
    assert_eq!(s[1].targets[0].identifier, "australia-southeast1");
    assert_eq!(s[1].targets[0].confidence, TargetConfidence::ProviderRegion);
}

#[test]
fn targets_of_a_group_hold_disjoint_ranges() {
    for group in default_servers() {
        let total: usize = group.targets.iter().map(|t| t.address_count()).sum();
        assert_eq!(group.addresses().len(), total, "{}", group.name);
        for t in &group.targets {
            assert!(owsvblocker::latency::first_ipv4_probe(&t.probe_ips).is_some(), "{}", t.id);
        }
    }
}
