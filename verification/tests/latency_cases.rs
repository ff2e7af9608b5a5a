use owsvblocker::latency::{
    cycle_wait_ms, echo_result, latency_label, latency_probes, LatencyResult, PROBE_INTERVAL_MS,
};
use owsvblocker::server::default_servers;

#[test]
fn labels_for_each_result() {
    assert_eq!(latency_label(Some(&LatencyResult::Ready { milliseconds: 0 }), true), "0 ms");
    assert_eq!(latency_label(Some(&LatencyResult::Ready { milliseconds: 1234 }), true), "1234 ms");
    assert_eq!(latency_label(Some(&LatencyResult::Timeout), true), "timeout");
    assert_eq!(latency_label(Some(&LatencyResult::Unavailable), true), "n/a");
    assert_eq!(latency_label(None, true), "checking...");
    assert_eq!(latency_label(None, false), "n/a");
}

#[test]
fn probes_use_each_targets_first_ipv4() {
    let servers = default_servers();
    let probes = latency_probes(&servers);
    let mut expected = Vec::new();
    for group in &servers {
        for target in &group.targets {
            if let Some(ip) = target.probe_ips.iter().find(|p| p.contains('.') && !p.contains(':')) {
                expected.push((target.id.to_string(), ip.to_string()));
            }
        }
    }
    let got: Vec<(String, String)> = probes
        .iter()
        .map(|p| {
            let o = p.ip.octets;
            (p.target_id.clone(), format!("{}.{}.{}.{}", o[0], o[1], o[2], o[3]))
        })
        .collect();
    assert_eq!(got, expected);
    assert_eq!(probes[0].target_id, "google:southamerica-east1");
}

#[test]
fn echo_replies_become_results() {
    assert_eq!(echo_result(0, true, 5), LatencyResult::Timeout);
    assert_eq!(echo_result(1, true, 42), LatencyResult::Ready { milliseconds: 42 });
    assert_eq!(echo_result(1, false, 42), LatencyResult::Timeout);
}

#[test]
fn rounds_wait_out_the_interval() {
    assert_eq!(cycle_wait_ms(0), PROBE_INTERVAL_MS);
    assert_eq!(cycle_wait_ms(2500), 7500);
    assert_eq!(cycle_wait_ms(10000), 0);
    assert_eq!(cycle_wait_ms(u64::MAX), 0);
}
