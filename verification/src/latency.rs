//! Latency probes: which address to ping for each target, and how a result
//! is shown.
use vstd::prelude::*;
use crate::ip::{Ipv4Address, parse_ipv4, parse_ipv4_spec, dec_text};
use crate::server::{ServerGroup, ServerTarget};
use crate::text::chars_of;

verus! {

/// One target to ping at one IPv4 address.
#[derive(Clone, Debug)]
pub struct LatencyProbe {
    pub target_id: String,
    pub ip: Ipv4Address,
}

/// The result of pinging one target.
#[derive(Clone, Debug)]
pub struct LatencyUpdate {
    pub target_id: String,
    pub result: LatencyResult,
}

/// How a ping went.
#[derive(Clone, Debug, Eq, PartialEq)]
pub enum LatencyResult {
    Ready { milliseconds: u32 },
    Timeout,
    Unavailable,
}

/// The first of the texts that is an IPv4 address.
pub open spec fn first_ipv4(ps: Seq<Seq<char>>) -> Option<Seq<u8>>
    decreases ps.len(),
{
    if ps.len() == 0 {
        None
    } else if parse_ipv4_spec(ps[0]) is Some {
        parse_ipv4_spec(ps[0])
    } else {
        first_ipv4(ps.drop_first())
    }
}

/// The texts as plain characters.
pub open spec fn str_views(ps: Seq<&'static str>) -> Seq<Seq<char>> {
    ps.map_values(|p: &'static str| p@)
}

/// The first probe address that is an IPv4 address (IPv6 ones are skipped).
pub fn first_ipv4_probe(probes: &[&'static str]) -> (r: Option<Ipv4Address>)
    ensures
        match r {
            Some(a) => first_ipv4(str_views(probes@)) == Some(a.octets@),
            None => first_ipv4(str_views(probes@)) is None,
        },
{
    let mut i: usize = 0;
    assert(str_views(probes@).skip(0) =~= str_views(probes@));
    while i < probes.len()
        invariant
            0 <= i <= probes@.len(),
            first_ipv4(str_views(probes@).skip(i as int)) == first_ipv4(str_views(probes@)),
        decreases probes.len() - i,
    {
        let s = chars_of(probes[i]);
        let ghost rest = str_views(probes@).skip(i as int);
        assert(rest[0] == probes@[i as int]@);
        assert(rest.drop_first() =~= str_views(probes@).skip(i + 1));
        assert(s@.subrange(0, s@.len() as int) =~= s@);
        match parse_ipv4(&s, 0, s.len()) {
            Some(a) => {
                return Some(a);
            },
            None => {},
        }
        i = i + 1;
    }
    None
}

impl core::str::FromStr for Ipv4Address {
    type Err = ();

    fn from_str(s: &str) -> (r: Result<Ipv4Address, ()>)
        ensures
            match r {
                Ok(a) => parse_ipv4_spec(s@) == Some(a.octets@),
                Err(_) => parse_ipv4_spec(s@) is None,
            },
    {
        let c = chars_of(s);
        assert(c@.subrange(0, c@.len() as int) =~= c@);
        match parse_ipv4(&c, 0, c.len()) {
            Some(a) => Ok(a),
            None => Err(()),
        }
    }
}

/// The targets of the groups, group after group.
pub open spec fn all_targets(gs: Seq<ServerGroup>) -> Seq<ServerTarget>
    decreases gs.len(),
{
    if gs.len() == 0 {
        Seq::empty()
    } else {
        all_targets(gs.drop_last()) + gs.last().targets@
    }
}

/// The probes of the targets: each target with an IPv4 probe address, at
/// its first one.
pub open spec fn probes_of(ts: Seq<ServerTarget>) -> Seq<(Seq<char>, Seq<u8>)>
    decreases ts.len(),
{
    if ts.len() == 0 {
        Seq::empty()
    } else {
        match first_ipv4(str_views(ts.last().probe_ips@)) {
            Some(a) => probes_of(ts.drop_last()).push((ts.last().id@, a)),
            None => probes_of(ts.drop_last()),
        }
    }
}

/// Each probe as its target id and its octets.
pub open spec fn probe_views(ps: Seq<LatencyProbe>) -> Seq<(Seq<char>, Seq<u8>)> {
    ps.map_values(|p: LatencyProbe| (p.target_id@, p.ip.octets@))
}

/// The probes to run for the server list.
pub fn latency_probes(servers: &[ServerGroup]) -> (r: Vec<LatencyProbe>)
    ensures
        probe_views(r@) == probes_of(all_targets(servers@)),
{
    let mut out: Vec<LatencyProbe> = Vec::new();
    let mut g: usize = 0;
    assert(servers@.take(0) =~= Seq::<ServerGroup>::empty());
    assert(probe_views(out@) =~= probes_of(all_targets(servers@.take(0))));
    while g < servers.len()
        invariant
            0 <= g <= servers@.len(),
            probe_views(out@) == probes_of(all_targets(servers@.take(g as int))),
        decreases servers.len() - g,
    {
        let group = &servers[g];
        let ghost before = all_targets(servers@.take(g as int));
        assert(servers@.take(g + 1).drop_last() =~= servers@.take(g as int));
        assert(servers@.take(g + 1).last() == *group);
        let mut t: usize = 0;
        assert(group.targets@.take(0) =~= Seq::<ServerTarget>::empty());
        assert(before + group.targets@.take(0) =~= before);
        while t < group.targets.len()
            invariant
                0 <= t <= group.targets@.len(),
                probe_views(out@) == probes_of(before + group.targets@.take(t as int)),
            decreases group.targets.len() - t,
        {
            let target = &group.targets[t];
            let ghost prev = before + group.targets@.take(t as int);
            let ghost next = before + group.targets@.take(t + 1);
            assert(next.drop_last() =~= prev);
            assert(next.last() == *target);
            match first_ipv4_probe(target.probe_ips.as_slice()) {
                Some(ip) => {
                    let ghost pv = probe_views(out@);
                    let id = target.id.to_string();
                    out.push(LatencyProbe { target_id: id, ip });
                    assert(probe_views(out@) =~= pv.push((target.id@, ip.octets@)));
                },
                None => {},
            }
            t = t + 1;
        }
        assert(group.targets@.take(group.targets.len() as int) =~= group.targets@);
        g = g + 1;
    }
    assert(servers@.take(servers.len() as int) =~= servers@);
    out
}

/// How a target's latency is shown: the milliseconds of a reply, `timeout`,
/// `n/a` where pinging is unavailable or the target has nothing to ping,
/// `checking...` before the first result.
pub fn latency_label(result: Option<&LatencyResult>, has_probe_ips: bool) -> (r: String)
    ensures
        r@ == match result {
            Some(LatencyResult::Ready { milliseconds }) => dec_text(*milliseconds as nat) + " ms"@,
            Some(LatencyResult::Timeout) => "timeout"@,
            Some(LatencyResult::Unavailable) => "n/a"@,
            None => if has_probe_ips {
                "checking..."@
            } else {
                "n/a"@
            },
        },
{
    match result {
        Some(LatencyResult::Ready { milliseconds }) => {
            let mut out = String::new();
            crate::firewall::push_dec_usize(&mut out, *milliseconds as usize);
            out.append(" ms");
            out
        },
        Some(LatencyResult::Timeout) => "timeout".to_string(),
        Some(LatencyResult::Unavailable) => "n/a".to_string(),
        None => if has_probe_ips {
            "checking...".to_string()
        } else {
            "n/a".to_string()
        },
    }
}

/// How long a round of pings may take before the next one starts.
pub const PROBE_INTERVAL_MS: u64 = 10000;

/// How long a ping waits for its reply.
pub const PROBE_TIMEOUT_MS: u32 = 900;

/// How many targets are pinged at once.
pub const MAX_PARALLEL_PROBES: usize = 6;

/// The wait before the next round, given how long this one took: what is
/// left of the interval, or nothing.
pub fn cycle_wait_ms(elapsed_ms: u64) -> (r: u64)
    ensures
        r == if elapsed_ms < PROBE_INTERVAL_MS {
            PROBE_INTERVAL_MS - elapsed_ms
        } else {
            0
        },
{
    PROBE_INTERVAL_MS.saturating_sub(elapsed_ms)
}

/// The result of one echo request: no reply is a timeout; a reply is the
/// round trip where it reports success, else a timeout.
pub fn echo_result(reply_count: u32, succeeded: bool, round_trip_ms: u32) -> (r: LatencyResult)
    ensures
        reply_count == 0 ==> r == LatencyResult::Timeout,
        reply_count > 0 && succeeded ==> r == (LatencyResult::Ready { milliseconds: round_trip_ms }),
        reply_count > 0 && !succeeded ==> r == LatencyResult::Timeout,
{
    if reply_count == 0 {
        LatencyResult::Timeout
    } else if succeeded {
        LatencyResult::Ready { milliseconds: round_trip_ms }
    } else {
        LatencyResult::Timeout
    }
}

} // verus!
