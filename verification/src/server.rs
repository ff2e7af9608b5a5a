//! The Overwatch server regions, their blockable targets and the address
//! ranges of each target.
use vstd::prelude::*;
use crate::address::{dedupe, normalize_spec, normalize_address, lex_le_from};
use crate::canonical::{all_canonical, push_canonical, lemma_v4_block, lemma_v6_block, lemma_v4_range};
use crate::ip::{dec_text, hex_text, longest_zero_run, zero_run};
use crate::text::join;
use crate::text::{chars_of, trim, to_lower, lower, trim_bounds};
use crate::server_data;

verus! {

/// A server region of the game.
#[derive(Clone, Copy, Debug, Eq, Hash, Ord, PartialEq, PartialOrd, Structural)]
pub enum ServerRegion {
    Brazil,
    Australia,
    UsaCentral,
    UsaEast,
    UsaWest,
    Europe,
    MiddleEast,
    AsiaJapan,
    AsiaKorea,
    AsiaSingapore,
    AsiaTaiwan,
}

/// The stable id of a region, as stored in settings.
pub open spec fn region_id(r: ServerRegion) -> Seq<char> {
    match r {
        ServerRegion::Brazil => "brazil"@,
        ServerRegion::Australia => "australia"@,
        ServerRegion::UsaCentral => "us_central"@,
        ServerRegion::UsaEast => "us_east"@,
        ServerRegion::UsaWest => "us_west"@,
        ServerRegion::Europe => "europe"@,
        ServerRegion::MiddleEast => "middle_east"@,
        ServerRegion::AsiaJapan => "asia_japan"@,
        ServerRegion::AsiaKorea => "asia_korea"@,
        ServerRegion::AsiaSingapore => "asia_singapore"@,
        ServerRegion::AsiaTaiwan => "asia_taiwan"@,
    }
}

/// `c` with spaces and hyphens turned into underscores.
pub open spec fn underscore(c: char) -> char {
    if c == ' ' || c == '-' {
        '_'
    } else {
        c
    }
}

/// A region id as written by a user: trimmed, lower case, with spaces and
/// hyphens as underscores.
pub open spec fn normalized_id(value: Seq<char>) -> Seq<char> {
    to_lower(trim(value)).map_values(|c: char| underscore(c))
}

/// The region that a normalized id names, current ids and older spellings alike.
pub open spec fn region_named(n: Seq<char>) -> Option<ServerRegion> {
    if n == "brazil"@ || n == "brasil"@ {
        Some(ServerRegion::Brazil)
    } else if n == "australia"@ {
        Some(ServerRegion::Australia)
    } else if n == "us_central"@ || n == "usa_central"@ || n == "eua_central"@ {
        Some(ServerRegion::UsaCentral)
    } else if n == "us_east"@ || n == "usa_east"@ || n == "eua_east"@ {
        Some(ServerRegion::UsaEast)
    } else if n == "us_west"@ || n == "usa_west"@ || n == "eua_west"@ {
        Some(ServerRegion::UsaWest)
    } else if n == "europe"@ || n == "europa"@ {
        Some(ServerRegion::Europe)
    } else if n == "middle_east"@ || n == "oriente_medio"@ {
        Some(ServerRegion::MiddleEast)
    } else if n == "asia_japan"@ {
        Some(ServerRegion::AsiaJapan)
    } else if n == "asia_korea"@ {
        Some(ServerRegion::AsiaKorea)
    } else if n == "asia_singapore"@ {
        Some(ServerRegion::AsiaSingapore)
    } else if n == "asia_taiwan"@ {
        Some(ServerRegion::AsiaTaiwan)
    } else {
        None
    }
}

/// Whether the chars of `v` are those of `lit`.
pub fn chars_eq_str(v: &Vec<char>, lit: &str) -> (b: bool)
    ensures
        b == (v@ == lit@),
{
    let l = chars_of(lit);
    if v.len() != l.len() {
        return false;
    }
    let mut i: usize = 0;
    while i < v.len()
        invariant
            0 <= i <= v.len() == l.len(),
            l@ == lit@,
            forall|k: int| 0 <= k < i ==> v@[k] == l@[k],
        decreases v.len() - i,
    {
        if v[i] != l[i] {
            return false;
        }
        i = i + 1;
    }
    assert(v@ =~= l@);
    true
}

/// `normalized_id` of `value`, as chars.
fn normalized_chars(value: &str) -> (r: Vec<char>)
    ensures
        r@ == normalized_id(value@),
{
    let s = chars_of(value);
    let (a, b) = trim_bounds(&s, 0, s.len());
    assert(s@.subrange(0, s@.len() as int) =~= s@);
    let mut r: Vec<char> = Vec::new();
    let mut i = a;
    while i < b
        invariant
            a <= i <= b <= s.len(),
            r@ == to_lower(s@.subrange(a as int, i as int)).map_values(|c: char| underscore(c)),
        decreases b - i,
    {
        let c = s[i];
        let lc = if 'A' <= c && c <= 'Z' {
            ((c as u32) + 32) as u8 as char
        } else {
            c
        };
        assert(lc == lower(c)) by {
            if 'A' <= c && c <= 'Z' {
                assert(((c as u32) + 32) as u8 as char == ((c as u32) + 32) as char);
            }
        }
        let uc = if lc == ' ' || lc == '-' {
            '_'
        } else {
            lc
        };
        r.push(uc);
        i = i + 1;
        assert(r@ =~= to_lower(s@.subrange(a as int, i as int)).map_values(|c: char| underscore(c)));
    }
    r
}

impl ServerRegion {
    /// The stable id of the region.
    pub fn id(self) -> (r: &'static str)
        ensures
            r@ == region_id(self),
    {
        match self {
            ServerRegion::Brazil => "brazil",
            ServerRegion::Australia => "australia",
            ServerRegion::UsaCentral => "us_central",
            ServerRegion::UsaEast => "us_east",
            ServerRegion::UsaWest => "us_west",
            ServerRegion::Europe => "europe",
            ServerRegion::MiddleEast => "middle_east",
            ServerRegion::AsiaJapan => "asia_japan",
            ServerRegion::AsiaKorea => "asia_korea",
            ServerRegion::AsiaSingapore => "asia_singapore",
            ServerRegion::AsiaTaiwan => "asia_taiwan",
        }
    }

    /// The region that `value` names, ignoring case, surrounding blanks and
    /// the difference between spaces, hyphens and underscores; older
    /// spellings are accepted too.
    pub fn from_id(value: &str) -> (r: Option<ServerRegion>)
        ensures
            r == region_named(normalized_id(value@)),
    {
        let n = normalized_chars(value);
        if chars_eq_str(&n, "brazil") || chars_eq_str(&n, "brasil") {
            Some(ServerRegion::Brazil)
        } else if chars_eq_str(&n, "australia") {
            Some(ServerRegion::Australia)
        } else if chars_eq_str(&n, "us_central") || chars_eq_str(&n, "usa_central")
            || chars_eq_str(&n, "eua_central") {
            Some(ServerRegion::UsaCentral)
        } else if chars_eq_str(&n, "us_east") || chars_eq_str(&n, "usa_east") || chars_eq_str(
            &n,
            "eua_east",
        ) {
            Some(ServerRegion::UsaEast)
        } else if chars_eq_str(&n, "us_west") || chars_eq_str(&n, "usa_west") || chars_eq_str(
            &n,
            "eua_west",
        ) {
            Some(ServerRegion::UsaWest)
        } else if chars_eq_str(&n, "europe") || chars_eq_str(&n, "europa") {
            Some(ServerRegion::Europe)
        } else if chars_eq_str(&n, "middle_east") || chars_eq_str(&n, "oriente_medio") {
            Some(ServerRegion::MiddleEast)
        } else if chars_eq_str(&n, "asia_japan") {
            Some(ServerRegion::AsiaJapan)
        } else if chars_eq_str(&n, "asia_korea") {
            Some(ServerRegion::AsiaKorea)
        } else if chars_eq_str(&n, "asia_singapore") {
            Some(ServerRegion::AsiaSingapore)
        } else if chars_eq_str(&n, "asia_taiwan") {
            Some(ServerRegion::AsiaTaiwan)
        } else {
            None
        }
    }
}

/// Who runs the servers of a target.
#[derive(Clone, Copy, Debug, Eq, PartialEq, Structural)]
pub enum ServerProvider {
    Blizzard,
    GoogleCloud,
    #[allow(dead_code)]
    Aws,
    Community,
}

impl ServerProvider {
    /// The name shown for it.
    pub fn label(self) -> (r: &'static str)
        ensures
            r@ == (match self {
                ServerProvider::Blizzard => "Blizzard"@,
                ServerProvider::GoogleCloud => "Google Cloud"@,
                ServerProvider::Aws => "AWS"@,
                ServerProvider::Community => "Community"@,
            }),
    {
        match self {
            ServerProvider::Blizzard => "Blizzard",
            ServerProvider::GoogleCloud => "Google Cloud",
            ServerProvider::Aws => "AWS",
            ServerProvider::Community => "Community",
        }
    }
}

/// How surely a target's ranges carry the game's servers.
#[derive(Clone, Copy, Debug, Eq, PartialEq, Structural)]
pub enum TargetConfidence {
    KnownOw,
    ProviderRegion,
    Community,
}

impl TargetConfidence {
    /// The name shown for it.
    pub fn label(self) -> (r: &'static str)
        ensures
            r@ == (match self {
                TargetConfidence::KnownOw => "Known OW/Blizzard"@,
                TargetConfidence::ProviderRegion => "Provider region"@,
                TargetConfidence::Community => "Community"@,
            }),
    {
        match self {
            TargetConfidence::KnownOw => "Known OW/Blizzard",
            TargetConfidence::ProviderRegion => "Provider region",
            TargetConfidence::Community => "Community",
        }
    }
}

/// A region and the targets that can be blocked in it.
#[derive(Clone, Debug)]
pub struct ServerGroup {
    pub region: ServerRegion,
    pub name: &'static str,
    pub hint: &'static str,
    pub targets: Vec<ServerTarget>,
}

/// One blockable set of address ranges.
#[derive(Clone, Debug)]
pub struct ServerTarget {
    pub id: &'static str,
    pub label: &'static str,
    pub provider: ServerProvider,
    pub identifier: &'static str,
    pub confidence: TargetConfidence,
    pub addresses: Vec<String>,
    pub probe_ips: Vec<&'static str>,
}

/// The addresses of the targets, target after target.
pub open spec fn target_addresses(ts: Seq<ServerTarget>) -> Seq<Seq<char>>
    decreases ts.len(),
{
    if ts.len() == 0 {
        Seq::empty()
    } else {
        target_addresses(ts.drop_last()) + ts.last().addresses.deep_view()
    }
}

/// `xs` deduplicated after `seen`: what `dedupe` adds to `seen` when `xs` follows.
pub(crate) fn push_new_addresses(out: &mut Vec<String>, xs: &Vec<String>, Ghost(before): Ghost<Seq<Seq<char>>>)
    requires
        old(out).deep_view() == dedupe(before),
    ensures
        final(out).deep_view() == dedupe(before + xs.deep_view()),
{
    let mut i: usize = 0;
    assert(before + xs.deep_view().take(0) =~= before);
    while i < xs.len()
        invariant
            0 <= i <= xs.len(),
            out.deep_view() == dedupe(before + xs.deep_view().take(i as int)),
        decreases xs.len() - i,
    {
        let ghost prev = before + xs.deep_view().take(i as int);
        let ghost next = before + xs.deep_view().take(i + 1);
        assert(next.drop_last() =~= prev);
        assert(next.last() == xs[i as int]@);
        let ghost d = out.deep_view();
        if !crate::address::contains_string(out, &xs[i]) {
            out.push(xs[i].clone());
            assert(out.deep_view() =~= d.push(xs[i as int]@));
        }
        i = i + 1;
    }
    assert(xs.deep_view().take(xs.len() as int) =~= xs.deep_view());
}

/// The addresses with every repeat after the first occurrence removed.
fn dedupe_addresses(addresses: &Vec<String>) -> (r: Vec<String>)
    ensures
        r.deep_view() == dedupe(addresses.deep_view()),
{
    let mut out: Vec<String> = Vec::new();
    assert(out.deep_view() =~= dedupe(Seq::empty()));
    push_new_addresses(&mut out, addresses, Ghost(Seq::empty()));
    assert(Seq::<Seq<char>>::empty() + addresses.deep_view() =~= addresses.deep_view());
    out
}

impl ServerGroup {
    /// The addresses of all targets of the group, each once, in order of
    /// first appearance.
    pub fn addresses(&self) -> (r: Vec<String>)
        ensures
            r.deep_view() == dedupe(target_addresses(self.targets@)),
    {
        let mut out: Vec<String> = Vec::new();
        let mut i: usize = 0;
        assert(self.targets@.take(0) =~= Seq::<ServerTarget>::empty());
        assert(out.deep_view() =~= dedupe(target_addresses(self.targets@.take(0))));
        while i < self.targets.len()
            invariant
                0 <= i <= self.targets.len(),
                out.deep_view() == dedupe(target_addresses(self.targets@.take(i as int))),
            decreases self.targets.len() - i,
        {
            let ghost prev = self.targets@.take(i as int);
            assert(self.targets@.take(i + 1).drop_last() =~= prev);
            push_new_addresses(&mut out, &self.targets[i].addresses, Ghost(target_addresses(prev)));
            i = i + 1;
        }
        assert(self.targets@.take(self.targets.len() as int) =~= self.targets@);
        out
    }

    /// Number of targets of the group.
    pub fn target_count(&self) -> (r: usize)
        ensures
            r == self.targets@.len(),
    {
        self.targets.len()
    }
}

impl ServerTarget {
    /// Number of address ranges of the target.
    pub fn address_count(&self) -> (r: usize)
        ensures
            r == self.addresses@.len(),
    {
        self.addresses.len()
    }
}


/// The views of string literals.
pub open spec fn strs_view(v: Seq<&'static str>) -> Seq<Seq<char>>
    decreases v.len(),
{
    if v.len() == 0 {
        Seq::empty()
    } else {
        strs_view(v.drop_last()).push(v.last()@)
    }
}

/// `xs` without the values in `excluded`.
pub open spec fn without(xs: Seq<Seq<char>>, excluded: Seq<Seq<char>>) -> Seq<Seq<char>>
    decreases xs.len(),
{
    if xs.len() == 0 {
        Seq::empty()
    } else if excluded.contains(xs.last()) {
        without(xs.drop_last(), excluded)
    } else {
        without(xs.drop_last(), excluded).push(xs.last())
    }
}

fn group(
    region: ServerRegion,
    name: &'static str,
    hint: &'static str,
    targets: Vec<ServerTarget>,
) -> (r: ServerGroup)
    ensures
        r.region == region,
        r.name == name,
        r.hint == hint,
        r.targets == targets,
{
    ServerGroup { region, name, hint, targets }
}

/// The normalized texts of the entries that are addresses, CIDR blocks or
/// ranges, in order; an entry that is none of these is left out.
pub open spec fn normalized_entries(xs: Seq<Seq<char>>) -> Seq<Seq<char>>
    decreases xs.len(),
{
    if xs.len() == 0 {
        Seq::empty()
    } else {
        match normalize_spec(xs.last()) {
            Ok(u) => normalized_entries(xs.drop_last()).push(u),
            Err(_) => normalized_entries(xs.drop_last()),
        }
    }
}

/// The addresses that a data list gives a target: its entries normalized,
/// each once, in order of first appearance.
pub open spec fn listed_addresses(raw: Seq<&'static str>) -> Seq<Seq<char>> {
    dedupe(normalized_entries(strs_view(raw)))
}

/// `listed_addresses(raw)` without the normalized entries of `excluded`.
pub open spec fn listed_addresses_without(raw: Seq<&'static str>, excluded: Seq<&'static str>) -> Seq<
    Seq<char>,
> {
    without(listed_addresses(raw), normalized_entries(strs_view(excluded)))
}

/// The entries of a data list, normalized.
fn normalized_list(v: &Vec<&'static str>) -> (r: Vec<String>)
    ensures
        r.deep_view() == normalized_entries(strs_view(v@)),
{
    let mut r: Vec<String> = Vec::new();
    let mut i: usize = 0;
    while i < v.len()
        invariant
            0 <= i <= v.len(),
            r.deep_view() == normalized_entries(strs_view(v@.take(i as int))),
        decreases v.len() - i,
    {
        assert(v@.take(i + 1).drop_last() =~= v@.take(i as int));
        let ghost prev = strs_view(v@.take(i as int));
        assert(strs_view(v@.take(i + 1)) == prev.push(v@[i as int]@));
        assert(prev.push(v@[i as int]@).drop_last() =~= prev);
        match normalize_address(v[i]) {
            Ok(u) => {
                let ghost d = r.deep_view();
                r.push(u);
                assert(r.deep_view() =~= d.push(u@));
            },
            Err(_) => {},
        }
        i = i + 1;
    }
    assert(v@.take(v.len() as int) =~= v@);
    r
}

fn target_from_addresses(
    id: &'static str,
    label: &'static str,
    provider: ServerProvider,
    identifier: &'static str,
    confidence: TargetConfidence,
    addresses: Vec<String>,
    probe_ips: Vec<&'static str>,
) -> (r: ServerTarget)
    ensures
        r.id == id,
        r.label == label,
        r.provider == provider,
        r.identifier == identifier,
        r.confidence == confidence,
        r.addresses == addresses,
        r.probe_ips == probe_ips,
{
    ServerTarget { id, label, provider, identifier, confidence, addresses, probe_ips }
}

/// A target whose addresses are the ranges `raw`, normalized, each once.
fn target(
    id: &'static str,
    label: &'static str,
    provider: ServerProvider,
    identifier: &'static str,
    confidence: TargetConfidence,
    raw: Vec<&'static str>,
    probe_ips: Vec<&'static str>,
) -> (r: ServerTarget)
    requires
        all_canonical(raw@),
    ensures
        r.id == id,
        r.label == label,
        r.provider == provider,
        r.identifier == identifier,
        r.confidence == confidence,
        r.addresses.deep_view() == listed_addresses(raw@),
        r.probe_ips == probe_ips,
{
    let addresses = dedupe_addresses(&normalized_list(&raw));
    target_from_addresses(id, label, provider, identifier, confidence, addresses, probe_ips)
}

/// A target whose addresses are the ranges `raw`, each once, except those in
/// `excluded` (the ranges that a more precise target of the region holds).
fn target_excluding(
    id: &'static str,
    label: &'static str,
    provider: ServerProvider,
    identifier: &'static str,
    confidence: TargetConfidence,
    raw: Vec<&'static str>,
    excluded: Vec<&'static str>,
    probe_ips: Vec<&'static str>,
) -> (r: ServerTarget)
    requires
        all_canonical(raw@),
        all_canonical(excluded@),
    ensures
        r.id == id,
        r.label == label,
        r.provider == provider,
        r.identifier == identifier,
        r.confidence == confidence,
        r.addresses.deep_view() == listed_addresses_without(raw@, excluded@),
        r.probe_ips == probe_ips,
{
    let addresses = dedupe_addresses(&normalized_list(&raw));
    let excluded = normalized_list(&excluded);
    let mut kept: Vec<String> = Vec::new();
    let mut i: usize = 0;
    while i < addresses.len()
        invariant
            0 <= i <= addresses.len(),
            kept.deep_view() == without(addresses.deep_view().take(i as int), excluded.deep_view()),
        decreases addresses.len() - i,
    {
        assert(addresses.deep_view().take(i + 1).drop_last() =~= addresses.deep_view().take(i as int));
        assert(addresses.deep_view().take(i + 1).last() == addresses[i as int]@);
        if !crate::address::contains_string(&excluded, &addresses[i]) {
            let ghost k = kept.deep_view();
            kept.push(addresses[i].clone());
            assert(kept.deep_view() =~= k.push(addresses[i as int]@));
        }
        i = i + 1;
    }
    assert(addresses.deep_view().take(addresses.len() as int) =~= addresses.deep_view());
    target_from_addresses(id, label, provider, identifier, confidence, kept, probe_ips)
}

/// The ids of the targets of group `g`.
pub open spec fn target_ids(g: ServerGroup) -> Seq<Seq<char>> {
    g.targets@.map_values(|t: ServerTarget| t.id@)
}

/// A group as the list shows it: its region, name and hint, and the ids of
/// its targets in order.
pub open spec fn group_layout(g: ServerGroup) -> (ServerRegion, Seq<char>, Seq<char>, Seq<Seq<char>>) {
    (g.region, g.name@, g.hint@, target_ids(g))
}

/// The server list, group by group.
pub open spec fn default_layout() -> Seq<(ServerRegion, Seq<char>, Seq<char>, Seq<Seq<char>>)> {
    seq![
        (ServerRegion::Brazil, "Brazil"@, "GBR1"@, seq!["google:southamerica-east1"@]),
        (
            ServerRegion::Australia,
            "Australia"@,
            "SYD2"@,
            seq!["google:australia-southeast1"@, "blizzard:syd2"@, "community:aus"@],
        ),
        (ServerRegion::UsaCentral, "US Central"@, "ORD1"@, seq!["google:us-central1"@, "blizzard:ord1"@]),
        (ServerRegion::UsaEast, "US East"@, "GUE4"@, seq!["google:us-east4"@]),
        (
            ServerRegion::UsaWest,
            "US West"@,
            "LAX/LAS"@,
            seq!["google:us-west"@, "blizzard:las1"@, "community:lax"@],
        ),
        (
            ServerRegion::Europe,
            "Europe"@,
            "EU"@,
            seq!["google:europe"@, "blizzard:ams1"@, "community:eu"@],
        ),
        (ServerRegion::MiddleEast, "Middle East"@, "ME"@, seq!["google:me-central1"@]),
        (ServerRegion::AsiaJapan, "Asia Japan"@, "GTK1"@, seq!["google:asia-northeast1"@]),
        (
            ServerRegion::AsiaKorea,
            "Asia Korea"@,
            "ICN1"@,
            seq!["google:asia-northeast3"@, "blizzard:icn1"@],
        ),
        (ServerRegion::AsiaSingapore, "Asia Singapore"@, "GSG1"@, seq!["google:asia-southeast1"@]),
        (ServerRegion::AsiaTaiwan, "Asia Taiwan"@, "TPE1"@, seq!["google:asia-east1"@, "blizzard:tpe1"@]),
    ]
}

/// A target as plain values: its id, label, provider, identifier and
/// confidence, its addresses, and the addresses it is pinged at.
pub type TargetView = (
    Seq<char>,
    Seq<char>,
    ServerProvider,
    Seq<char>,
    TargetConfidence,
    Seq<Seq<char>>,
    Seq<&'static str>,
);

/// `t` as plain values.
pub open spec fn target_view(t: ServerTarget) -> TargetView {
    (t.id@, t.label@, t.provider, t.identifier@, t.confidence, t.addresses.deep_view(), t.probe_ips@)
}

/// The targets of a group as plain values.
pub open spec fn group_targets(g: ServerGroup) -> Seq<TargetView> {
    g.targets@.map_values(|t: ServerTarget| target_view(t))
}

/// The targets of the server list, group by group: each with its data list
/// of ranges (the Google targets without the ranges that a Blizzard or
/// community target of the same region holds) and its ping addresses.
pub open spec fn default_targets() -> Seq<Seq<TargetView>> {
    seq![
        seq![
            (
                "google:southamerica-east1"@,
                "Brazil, Sao Paulo"@,
                ServerProvider::GoogleCloud,
                "southamerica-east1"@,
                TargetConfidence::ProviderRegion,
                listed_addresses(server_data::brazil_ranges()),
                seq!["34.95.128.1", "35.198.0.1"],
            ),
        ],
        seq![
            (
                "google:australia-southeast1"@,
                "Australia, Sydney"@,
                ServerProvider::GoogleCloud,
                "australia-southeast1"@,
                TargetConfidence::ProviderRegion,
                listed_addresses_without(server_data::australia_ranges(), seq!["158.115.196.0/23", "37.244.42.0-37.244.42.255"]),
                seq!["34.87.192.1", "35.189.0.1"],
            ),
            (
                "blizzard:syd2"@,
                "Australia, Sydney"@,
                ServerProvider::Blizzard,
                "SYD2"@,
                TargetConfidence::KnownOw,
                listed_addresses(seq!["158.115.196.0/23"]),
                seq!["158.115.196.1"],
            ),
            (
                "community:aus"@,
                "Australia community ranges"@,
                ServerProvider::Community,
                "AUS"@,
                TargetConfidence::Community,
                listed_addresses(seq!["37.244.42.0-37.244.42.255"]),
                seq!["37.244.42.1"],
            ),
        ],
        seq![
            (
                "google:us-central1"@,
                "United States, Iowa"@,
                ServerProvider::GoogleCloud,
                "us-central1"@,
                TargetConfidence::ProviderRegion,
                listed_addresses_without(server_data::usa_central_ranges(), seq!["64.224.0.0/21", "24.105.40.0/21"]),
                seq!["34.66.0.1", "35.184.0.1"],
            ),
            (
                "blizzard:ord1"@,
                "United States, Chicago"@,
                ServerProvider::Blizzard,
                "ORD1"@,
                TargetConfidence::KnownOw,
                listed_addresses(seq!["64.224.0.0/21", "24.105.40.0/21"]),
                seq!["64.224.0.1", "24.105.40.1"],
            ),
        ],
        seq![
            (
                "google:us-east4"@,
                "United States, Virginia"@,
                ServerProvider::GoogleCloud,
                "us-east4"@,
                TargetConfidence::ProviderRegion,
                listed_addresses(server_data::usa_east_ranges()),
                seq!["34.86.0.1", "35.245.0.1"],
            ),
        ],
        seq![
            (
                "google:us-west"@,
                "United States, Western Google regions"@,
                ServerProvider::GoogleCloud,
                "us-west1/us-west2"@,
                TargetConfidence::ProviderRegion,
                listed_addresses_without(server_data::usa_west_ranges(), seq!["64.224.24.0/23", "24.105.8.0-24.105.15.255"]),
                seq!["34.82.0.1", "35.185.192.1"],
            ),
            (
                "blizzard:las1"@,
                "United States, Nevada"@,
                ServerProvider::Blizzard,
                "LAS1"@,
                TargetConfidence::KnownOw,
                listed_addresses(seq!["64.224.24.0/23"]),
                seq!["64.224.24.1"],
            ),
            (
                "community:lax"@,
                "United States, Los Angeles"@,
                ServerProvider::Community,
                "LAX"@,
                TargetConfidence::Community,
                listed_addresses(seq!["24.105.8.0-24.105.15.255"]),
                seq!["24.105.8.1"],
            ),
        ],
        seq![
            (
                "google:europe"@,
                "Europe Google regions"@,
                ServerProvider::GoogleCloud,
                "europe-*"@,
                TargetConfidence::ProviderRegion,
                listed_addresses_without(server_data::europe_ranges(), seq!["64.224.26.0/23", "5.42.168.0-5.42.175.255", "5.42.184.0-5.42.191.255"]),
                seq!["34.76.0.1", "35.195.0.1"],
            ),
            (
                "blizzard:ams1"@,
                "Netherlands, Amsterdam"@,
                ServerProvider::Blizzard,
                "AMS1"@,
                TargetConfidence::KnownOw,
                listed_addresses(seq!["64.224.26.0/23"]),
                seq!["64.224.26.1"],
            ),
            (
                "community:eu"@,
                "Europe community ranges"@,
                ServerProvider::Community,
                "EU"@,
                TargetConfidence::Community,
                listed_addresses(seq!["5.42.168.0-5.42.175.255", "5.42.184.0-5.42.191.255"]),
                seq!["5.42.168.1"],
            ),
        ],
        seq![
            (
                "google:me-central1"@,
                "Qatar, Doha"@,
                ServerProvider::GoogleCloud,
                "me-central1"@,
                TargetConfidence::ProviderRegion,
                listed_addresses(server_data::middle_east_ranges()),
                seq!["34.18.0.1", "35.246.192.1"],
            ),
        ],
        seq![
            (
                "google:asia-northeast1"@,
                "Japan, Tokyo"@,
                ServerProvider::GoogleCloud,
                "asia-northeast1"@,
                TargetConfidence::ProviderRegion,
                listed_addresses(server_data::asia_japan_ranges()),
                seq!["34.84.0.1", "35.200.0.1"],
            ),
        ],
        seq![
            (
                "google:asia-northeast3"@,
                "South Korea, Seoul"@,
                ServerProvider::GoogleCloud,
                "asia-northeast3"@,
                TargetConfidence::ProviderRegion,
                listed_addresses_without(server_data::asia_korea_ranges(), korea_blizzard_list()),
                seq!["34.64.0.1", "35.216.0.1"],
            ),
            (
                "blizzard:icn1"@,
                "South Korea, Incheon"@,
                ServerProvider::Blizzard,
                "ICN1"@,
                TargetConfidence::KnownOw,
                listed_addresses(korea_blizzard_list()),
                seq!["110.45.208.1", "182.162.31.1"],
            ),
        ],
        seq![
            (
                "google:asia-southeast1"@,
                "Singapore, Jurong West"@,
                ServerProvider::GoogleCloud,
                "asia-southeast1"@,
                TargetConfidence::ProviderRegion,
                listed_addresses(server_data::asia_singapore_ranges()),
                seq!["34.87.0.1", "35.198.192.1"],
            ),
        ],
        seq![
            (
                "google:asia-east1"@,
                "Taiwan, Changhua County"@,
                ServerProvider::GoogleCloud,
                "asia-east1"@,
                TargetConfidence::ProviderRegion,
                listed_addresses_without(server_data::asia_taiwan_ranges(), seq!["5.42.160.0/22", "5.42.164.0/22"]),
                seq!["34.80.0.1", "35.194.128.1"],
            ),
            (
                "blizzard:tpe1"@,
                "Taiwan, Taipei"@,
                ServerProvider::Blizzard,
                "TPE1"@,
                TargetConfidence::KnownOw,
                listed_addresses(seq!["5.42.160.0/22", "5.42.164.0/22"]),
                seq!["5.42.160.1"],
            ),
        ],
    ]
}

/// The server list: one group per region, in the order of
/// `default_layout`, each with its Google Cloud region and, where they are
/// known, the game's own ranges as separate targets (removed from the
/// Google target so that each range belongs to one target).
pub fn default_servers() -> (r: Vec<ServerGroup>)
    ensures
        r@.map_values(|g: ServerGroup| group_layout(g)) == default_layout(),
        r@.map_values(|g: ServerGroup| group_targets(g)) == default_targets(),
{
    let mut r: Vec<ServerGroup> = Vec::new();
    r.push(brazil_group());
    r.push(australia_group());
    r.push(usa_central_group());
    r.push(usa_east_group());
    r.push(usa_west_group());
    r.push(europe_group());
    r.push(middle_east_group());
    r.push(asia_japan_group());
    r.push(asia_korea_group());
    r.push(asia_singapore_group());
    r.push(asia_taiwan_group());
    assert(r@.map_values(|g: ServerGroup| group_layout(g)) =~= default_layout());
    assert(r@.map_values(|g: ServerGroup| group_targets(g)) =~= default_targets());
    r
}

/// The group of the region `Brazil`, as `default_layout` and `default_targets` list it.
#[verifier::spinoff_prover]
#[verifier::rlimit(100)]
fn brazil_group() -> (g: ServerGroup)
    ensures
        group_layout(g) == default_layout()[0],
        group_targets(g) == default_targets()[0],
{
    let probes_1 = vec!["34.95.128.1", "35.198.0.1"];
    assert(probes_1@ =~= seq!["34.95.128.1", "35.198.0.1"]);
    let g = group(ServerRegion::Brazil, "Brazil", "GBR1", vec![target(
        "google:southamerica-east1",
        "Brazil, Sao Paulo",
        ServerProvider::GoogleCloud,
        "southamerica-east1",
        TargetConfidence::ProviderRegion,
        server_data::brazil(),
        probes_1,
    )]);
    assert(target_ids(g) =~= default_layout()[0].3);
    assert(group_targets(g) =~= default_targets()[0]);
    g
}

/// The group of the region `Australia`, as `default_layout` and `default_targets` list it.
#[verifier::spinoff_prover]
#[verifier::rlimit(100)]
fn australia_group() -> (g: ServerGroup)
    ensures
        group_layout(g) == default_layout()[1],
        group_targets(g) == default_targets()[1],
{
    let mut excluded_1: Vec<&'static str> = Vec::new();
    assert(normalize_spec("158.115.196.0/23"@) == Ok::<Seq<char>, (Seq<char>, Seq<char>)>("158.115.196.0/23"@)) by {
        reveal_strlit("158.115.196.0/23");
        reveal_with_fuel(dec_text, 4);
        lemma_v4_block("158.115.196.0/23"@, 158, 115, 196, 0, 23);
    }
    push_canonical(&mut excluded_1, "158.115.196.0/23");
    assert(normalize_spec("37.244.42.0-37.244.42.255"@) == Ok::<Seq<char>, (Seq<char>, Seq<char>)>("37.244.42.0-37.244.42.255"@)) by {
        reveal_strlit("37.244.42.0-37.244.42.255");
        reveal_with_fuel(dec_text, 4);
        reveal_with_fuel(lex_le_from, 5);
        lemma_v4_range("37.244.42.0-37.244.42.255"@, seq![37u8, 244u8, 42u8, 0u8], seq![37u8, 244u8, 42u8, 255u8]);
    }
    push_canonical(&mut excluded_1, "37.244.42.0-37.244.42.255");
    assert(excluded_1@ =~= seq!["158.115.196.0/23", "37.244.42.0-37.244.42.255"]);
    let probes_1 = vec!["34.87.192.1", "35.189.0.1"];
    assert(probes_1@ =~= seq!["34.87.192.1", "35.189.0.1"]);
    let mut ranges_1: Vec<&'static str> = Vec::new();
    assert(normalize_spec("158.115.196.0/23"@) == Ok::<Seq<char>, (Seq<char>, Seq<char>)>("158.115.196.0/23"@)) by {
        reveal_strlit("158.115.196.0/23");
        reveal_with_fuel(dec_text, 4);
        lemma_v4_block("158.115.196.0/23"@, 158, 115, 196, 0, 23);
    }
    push_canonical(&mut ranges_1, "158.115.196.0/23");
    assert(ranges_1@ =~= seq!["158.115.196.0/23"]);
    let probes_2 = vec!["158.115.196.1"];
    assert(probes_2@ =~= seq!["158.115.196.1"]);
    let mut ranges_2: Vec<&'static str> = Vec::new();
    assert(normalize_spec("37.244.42.0-37.244.42.255"@) == Ok::<Seq<char>, (Seq<char>, Seq<char>)>("37.244.42.0-37.244.42.255"@)) by {
        reveal_strlit("37.244.42.0-37.244.42.255");
        reveal_with_fuel(dec_text, 4);
        reveal_with_fuel(lex_le_from, 5);
        lemma_v4_range("37.244.42.0-37.244.42.255"@, seq![37u8, 244u8, 42u8, 0u8], seq![37u8, 244u8, 42u8, 255u8]);
    }
    push_canonical(&mut ranges_2, "37.244.42.0-37.244.42.255");
    assert(ranges_2@ =~= seq!["37.244.42.0-37.244.42.255"]);
    let probes_3 = vec!["37.244.42.1"];
    assert(probes_3@ =~= seq!["37.244.42.1"]);
    let g = group(ServerRegion::Australia, "Australia", "SYD2", vec![
        target_excluding(
            "google:australia-southeast1",
            "Australia, Sydney",
            ServerProvider::GoogleCloud,
            "australia-southeast1",
            TargetConfidence::ProviderRegion,
            server_data::australia(),
            excluded_1,
            probes_1,
        ),
        target(
            "blizzard:syd2",
            "Australia, Sydney",
            ServerProvider::Blizzard,
            "SYD2",
            TargetConfidence::KnownOw,
            ranges_1,
            probes_2,
        ),
        target(
            "community:aus",
            "Australia community ranges",
            ServerProvider::Community,
            "AUS",
            TargetConfidence::Community,
            ranges_2,
            probes_3,
        ),
    ]);
    assert(target_ids(g) =~= default_layout()[1].3);
    assert(group_targets(g) =~= default_targets()[1]);
    g
}

/// The group of the region `UsaCentral`, as `default_layout` and `default_targets` list it.
#[verifier::spinoff_prover]
#[verifier::rlimit(100)]
fn usa_central_group() -> (g: ServerGroup)
    ensures
        group_layout(g) == default_layout()[2],
        group_targets(g) == default_targets()[2],
{
    let mut excluded_1: Vec<&'static str> = Vec::new();
    assert(normalize_spec("64.224.0.0/21"@) == Ok::<Seq<char>, (Seq<char>, Seq<char>)>("64.224.0.0/21"@)) by {
        reveal_strlit("64.224.0.0/21");
        reveal_with_fuel(dec_text, 4);
        lemma_v4_block("64.224.0.0/21"@, 64, 224, 0, 0, 21);
    }
    push_canonical(&mut excluded_1, "64.224.0.0/21");
    assert(normalize_spec("24.105.40.0/21"@) == Ok::<Seq<char>, (Seq<char>, Seq<char>)>("24.105.40.0/21"@)) by {
        reveal_strlit("24.105.40.0/21");
        reveal_with_fuel(dec_text, 4);
        lemma_v4_block("24.105.40.0/21"@, 24, 105, 40, 0, 21);
    }
    push_canonical(&mut excluded_1, "24.105.40.0/21");
    assert(excluded_1@ =~= seq!["64.224.0.0/21", "24.105.40.0/21"]);
    let probes_1 = vec!["34.66.0.1", "35.184.0.1"];
    assert(probes_1@ =~= seq!["34.66.0.1", "35.184.0.1"]);
    let mut ranges_1: Vec<&'static str> = Vec::new();
    assert(normalize_spec("64.224.0.0/21"@) == Ok::<Seq<char>, (Seq<char>, Seq<char>)>("64.224.0.0/21"@)) by {
        reveal_strlit("64.224.0.0/21");
        reveal_with_fuel(dec_text, 4);
        lemma_v4_block("64.224.0.0/21"@, 64, 224, 0, 0, 21);
    }
    push_canonical(&mut ranges_1, "64.224.0.0/21");
    assert(normalize_spec("24.105.40.0/21"@) == Ok::<Seq<char>, (Seq<char>, Seq<char>)>("24.105.40.0/21"@)) by {
        reveal_strlit("24.105.40.0/21");
        reveal_with_fuel(dec_text, 4);
        lemma_v4_block("24.105.40.0/21"@, 24, 105, 40, 0, 21);
    }
    push_canonical(&mut ranges_1, "24.105.40.0/21");
    assert(ranges_1@ =~= seq!["64.224.0.0/21", "24.105.40.0/21"]);
    let probes_2 = vec!["64.224.0.1", "24.105.40.1"];
    assert(probes_2@ =~= seq!["64.224.0.1", "24.105.40.1"]);
    let g = group(ServerRegion::UsaCentral, "US Central", "ORD1", vec![
        target_excluding(
            "google:us-central1",
            "United States, Iowa",
            ServerProvider::GoogleCloud,
            "us-central1",
            TargetConfidence::ProviderRegion,
            server_data::usa_central(),
            excluded_1,
            probes_1,
        ),
        target(
            "blizzard:ord1",
            "United States, Chicago",
            ServerProvider::Blizzard,
            "ORD1",
            TargetConfidence::KnownOw,
            ranges_1,
            probes_2,
        ),
    ]);
    assert(target_ids(g) =~= default_layout()[2].3);
    assert(group_targets(g) =~= default_targets()[2]);
    g
}

/// The group of the region `UsaEast`, as `default_layout` and `default_targets` list it.
#[verifier::spinoff_prover]
#[verifier::rlimit(100)]
fn usa_east_group() -> (g: ServerGroup)
    ensures
        group_layout(g) == default_layout()[3],
        group_targets(g) == default_targets()[3],
{
    let probes_1 = vec!["34.86.0.1", "35.245.0.1"];
    assert(probes_1@ =~= seq!["34.86.0.1", "35.245.0.1"]);
    let g = group(ServerRegion::UsaEast, "US East", "GUE4", vec![target(
        "google:us-east4",
        "United States, Virginia",
        ServerProvider::GoogleCloud,
        "us-east4",
        TargetConfidence::ProviderRegion,
        server_data::usa_east(),
        probes_1,
    )]);
    assert(target_ids(g) =~= default_layout()[3].3);
    assert(group_targets(g) =~= default_targets()[3]);
    g
}

/// The group of the region `UsaWest`, as `default_layout` and `default_targets` list it.
#[verifier::spinoff_prover]
#[verifier::rlimit(100)]
fn usa_west_group() -> (g: ServerGroup)
    ensures
        group_layout(g) == default_layout()[4],
        group_targets(g) == default_targets()[4],
{
    let mut excluded_1: Vec<&'static str> = Vec::new();
    assert(normalize_spec("64.224.24.0/23"@) == Ok::<Seq<char>, (Seq<char>, Seq<char>)>("64.224.24.0/23"@)) by {
        reveal_strlit("64.224.24.0/23");
        reveal_with_fuel(dec_text, 4);
        lemma_v4_block("64.224.24.0/23"@, 64, 224, 24, 0, 23);
    }
    push_canonical(&mut excluded_1, "64.224.24.0/23");
    assert(normalize_spec("24.105.8.0-24.105.15.255"@) == Ok::<Seq<char>, (Seq<char>, Seq<char>)>("24.105.8.0-24.105.15.255"@)) by {
        reveal_strlit("24.105.8.0-24.105.15.255");
        reveal_with_fuel(dec_text, 4);
        reveal_with_fuel(lex_le_from, 5);
        lemma_v4_range("24.105.8.0-24.105.15.255"@, seq![24u8, 105u8, 8u8, 0u8], seq![24u8, 105u8, 15u8, 255u8]);
    }
    push_canonical(&mut excluded_1, "24.105.8.0-24.105.15.255");
    assert(excluded_1@ =~= seq!["64.224.24.0/23", "24.105.8.0-24.105.15.255"]);
    let probes_1 = vec!["34.82.0.1", "35.185.192.1"];
    assert(probes_1@ =~= seq!["34.82.0.1", "35.185.192.1"]);
    let mut ranges_1: Vec<&'static str> = Vec::new();
    assert(normalize_spec("64.224.24.0/23"@) == Ok::<Seq<char>, (Seq<char>, Seq<char>)>("64.224.24.0/23"@)) by {
        reveal_strlit("64.224.24.0/23");
        reveal_with_fuel(dec_text, 4);
        lemma_v4_block("64.224.24.0/23"@, 64, 224, 24, 0, 23);
    }
    push_canonical(&mut ranges_1, "64.224.24.0/23");
    assert(ranges_1@ =~= seq!["64.224.24.0/23"]);
    let probes_2 = vec!["64.224.24.1"];
    assert(probes_2@ =~= seq!["64.224.24.1"]);
    let mut ranges_2: Vec<&'static str> = Vec::new();
    assert(normalize_spec("24.105.8.0-24.105.15.255"@) == Ok::<Seq<char>, (Seq<char>, Seq<char>)>("24.105.8.0-24.105.15.255"@)) by {
        reveal_strlit("24.105.8.0-24.105.15.255");
        reveal_with_fuel(dec_text, 4);
        reveal_with_fuel(lex_le_from, 5);
        lemma_v4_range("24.105.8.0-24.105.15.255"@, seq![24u8, 105u8, 8u8, 0u8], seq![24u8, 105u8, 15u8, 255u8]);
    }
    push_canonical(&mut ranges_2, "24.105.8.0-24.105.15.255");
    assert(ranges_2@ =~= seq!["24.105.8.0-24.105.15.255"]);
    let probes_3 = vec!["24.105.8.1"];
    assert(probes_3@ =~= seq!["24.105.8.1"]);
    let g = group(ServerRegion::UsaWest, "US West", "LAX/LAS", vec![
        target_excluding(
            "google:us-west",
            "United States, Western Google regions",
            ServerProvider::GoogleCloud,
            "us-west1/us-west2",
            TargetConfidence::ProviderRegion,
            server_data::usa_west(),
            excluded_1,
            probes_1,
        ),
        target(
            "blizzard:las1",
            "United States, Nevada",
            ServerProvider::Blizzard,
            "LAS1",
            TargetConfidence::KnownOw,
            ranges_1,
            probes_2,
        ),
        target(
            "community:lax",
            "United States, Los Angeles",
            ServerProvider::Community,
            "LAX",
            TargetConfidence::Community,
            ranges_2,
            probes_3,
        ),
    ]);
    assert(target_ids(g) =~= default_layout()[4].3);
    assert(group_targets(g) =~= default_targets()[4]);
    g
}

/// The group of the region `Europe`, as `default_layout` and `default_targets` list it.
#[verifier::spinoff_prover]
#[verifier::rlimit(100)]
fn europe_group() -> (g: ServerGroup)
    ensures
        group_layout(g) == default_layout()[5],
        group_targets(g) == default_targets()[5],
{
    let mut excluded_1: Vec<&'static str> = Vec::new();
    assert(normalize_spec("64.224.26.0/23"@) == Ok::<Seq<char>, (Seq<char>, Seq<char>)>("64.224.26.0/23"@)) by {
        reveal_strlit("64.224.26.0/23");
        reveal_with_fuel(dec_text, 4);
        lemma_v4_block("64.224.26.0/23"@, 64, 224, 26, 0, 23);
    }
    push_canonical(&mut excluded_1, "64.224.26.0/23");
    assert(normalize_spec("5.42.168.0-5.42.175.255"@) == Ok::<Seq<char>, (Seq<char>, Seq<char>)>("5.42.168.0-5.42.175.255"@)) by {
        reveal_strlit("5.42.168.0-5.42.175.255");
        reveal_with_fuel(dec_text, 4);
        reveal_with_fuel(lex_le_from, 5);
        lemma_v4_range("5.42.168.0-5.42.175.255"@, seq![5u8, 42u8, 168u8, 0u8], seq![5u8, 42u8, 175u8, 255u8]);
    }
    push_canonical(&mut excluded_1, "5.42.168.0-5.42.175.255");
    assert(normalize_spec("5.42.184.0-5.42.191.255"@) == Ok::<Seq<char>, (Seq<char>, Seq<char>)>("5.42.184.0-5.42.191.255"@)) by {
        reveal_strlit("5.42.184.0-5.42.191.255");
        reveal_with_fuel(dec_text, 4);
        reveal_with_fuel(lex_le_from, 5);
        lemma_v4_range("5.42.184.0-5.42.191.255"@, seq![5u8, 42u8, 184u8, 0u8], seq![5u8, 42u8, 191u8, 255u8]);
    }
    push_canonical(&mut excluded_1, "5.42.184.0-5.42.191.255");
    assert(excluded_1@ =~= seq!["64.224.26.0/23", "5.42.168.0-5.42.175.255", "5.42.184.0-5.42.191.255"]);
    let probes_1 = vec!["34.76.0.1", "35.195.0.1"];
    assert(probes_1@ =~= seq!["34.76.0.1", "35.195.0.1"]);
    let mut ranges_1: Vec<&'static str> = Vec::new();
    assert(normalize_spec("64.224.26.0/23"@) == Ok::<Seq<char>, (Seq<char>, Seq<char>)>("64.224.26.0/23"@)) by {
        reveal_strlit("64.224.26.0/23");
        reveal_with_fuel(dec_text, 4);
        lemma_v4_block("64.224.26.0/23"@, 64, 224, 26, 0, 23);
    }
    push_canonical(&mut ranges_1, "64.224.26.0/23");
    assert(ranges_1@ =~= seq!["64.224.26.0/23"]);
    let probes_2 = vec!["64.224.26.1"];
    assert(probes_2@ =~= seq!["64.224.26.1"]);
    let mut ranges_2: Vec<&'static str> = Vec::new();
    assert(normalize_spec("5.42.168.0-5.42.175.255"@) == Ok::<Seq<char>, (Seq<char>, Seq<char>)>("5.42.168.0-5.42.175.255"@)) by {
        reveal_strlit("5.42.168.0-5.42.175.255");
        reveal_with_fuel(dec_text, 4);
        reveal_with_fuel(lex_le_from, 5);
        lemma_v4_range("5.42.168.0-5.42.175.255"@, seq![5u8, 42u8, 168u8, 0u8], seq![5u8, 42u8, 175u8, 255u8]);
    }
    push_canonical(&mut ranges_2, "5.42.168.0-5.42.175.255");
    assert(normalize_spec("5.42.184.0-5.42.191.255"@) == Ok::<Seq<char>, (Seq<char>, Seq<char>)>("5.42.184.0-5.42.191.255"@)) by {
        reveal_strlit("5.42.184.0-5.42.191.255");
        reveal_with_fuel(dec_text, 4);
        reveal_with_fuel(lex_le_from, 5);
        lemma_v4_range("5.42.184.0-5.42.191.255"@, seq![5u8, 42u8, 184u8, 0u8], seq![5u8, 42u8, 191u8, 255u8]);
    }
    push_canonical(&mut ranges_2, "5.42.184.0-5.42.191.255");
    assert(ranges_2@ =~= seq!["5.42.168.0-5.42.175.255", "5.42.184.0-5.42.191.255"]);
    let probes_3 = vec!["5.42.168.1"];
    assert(probes_3@ =~= seq!["5.42.168.1"]);
    let g = group(ServerRegion::Europe, "Europe", "EU", vec![
        target_excluding(
            "google:europe",
            "Europe Google regions",
            ServerProvider::GoogleCloud,
            "europe-*",
            TargetConfidence::ProviderRegion,
            server_data::europe(),
            excluded_1,
            probes_1,
        ),
        target(
            "blizzard:ams1",
            "Netherlands, Amsterdam",
            ServerProvider::Blizzard,
            "AMS1",
            TargetConfidence::KnownOw,
            ranges_1,
            probes_2,
        ),
        target(
            "community:eu",
            "Europe community ranges",
            ServerProvider::Community,
            "EU",
            TargetConfidence::Community,
            ranges_2,
            probes_3,
        ),
    ]);
    assert(target_ids(g) =~= default_layout()[5].3);
    assert(group_targets(g) =~= default_targets()[5]);
    g
}

/// The group of the region `MiddleEast`, as `default_layout` and `default_targets` list it.
#[verifier::spinoff_prover]
#[verifier::rlimit(100)]
fn middle_east_group() -> (g: ServerGroup)
    ensures
        group_layout(g) == default_layout()[6],
        group_targets(g) == default_targets()[6],
{
    let probes_1 = vec!["34.18.0.1", "35.246.192.1"];
    assert(probes_1@ =~= seq!["34.18.0.1", "35.246.192.1"]);
    let g = group(ServerRegion::MiddleEast, "Middle East", "ME", vec![target(
        "google:me-central1",
        "Qatar, Doha",
        ServerProvider::GoogleCloud,
        "me-central1",
        TargetConfidence::ProviderRegion,
        server_data::middle_east(),
        probes_1,
    )]);
    assert(target_ids(g) =~= default_layout()[6].3);
    assert(group_targets(g) =~= default_targets()[6]);
    g
}

/// The group of the region `AsiaJapan`, as `default_layout` and `default_targets` list it.
#[verifier::spinoff_prover]
#[verifier::rlimit(100)]
fn asia_japan_group() -> (g: ServerGroup)
    ensures
        group_layout(g) == default_layout()[7],
        group_targets(g) == default_targets()[7],
{
    let probes_1 = vec!["34.84.0.1", "35.200.0.1"];
    assert(probes_1@ =~= seq!["34.84.0.1", "35.200.0.1"]);
    let g = group(ServerRegion::AsiaJapan, "Asia Japan", "GTK1", vec![target(
        "google:asia-northeast1",
        "Japan, Tokyo",
        ServerProvider::GoogleCloud,
        "asia-northeast1",
        TargetConfidence::ProviderRegion,
        server_data::asia_japan(),
        probes_1,
    )]);
    assert(target_ids(g) =~= default_layout()[7].3);
    assert(group_targets(g) =~= default_targets()[7]);
    g
}

/// The group of the region `AsiaKorea`, as `default_layout` and `default_targets` list it.
#[verifier::spinoff_prover]
#[verifier::rlimit(100)]
fn asia_korea_group() -> (g: ServerGroup)
    ensures
        group_layout(g) == default_layout()[8],
        group_targets(g) == default_targets()[8],
{
    let probes_1 = vec!["34.64.0.1", "35.216.0.1"];
    assert(probes_1@ =~= seq!["34.64.0.1", "35.216.0.1"]);
    let probes_2 = vec!["110.45.208.1", "182.162.31.1"];
    assert(probes_2@ =~= seq!["110.45.208.1", "182.162.31.1"]);
    let g = group(ServerRegion::AsiaKorea, "Asia Korea", "ICN1", vec![
        target_excluding(
            "google:asia-northeast3",
            "South Korea, Seoul",
            ServerProvider::GoogleCloud,
            "asia-northeast3",
            TargetConfidence::ProviderRegion,
            server_data::asia_korea(),
            korea_blizzard_ranges(),
            probes_1,
        ),
        target(
            "blizzard:icn1",
            "South Korea, Incheon",
            ServerProvider::Blizzard,
            "ICN1",
            TargetConfidence::KnownOw,
            korea_blizzard_ranges(),
            probes_2,
        ),
    ]);
    assert(target_ids(g) =~= default_layout()[8].3);
    assert(group_targets(g) =~= default_targets()[8]);
    g
}

/// The group of the region `AsiaSingapore`, as `default_layout` and `default_targets` list it.
#[verifier::spinoff_prover]
#[verifier::rlimit(100)]
fn asia_singapore_group() -> (g: ServerGroup)
    ensures
        group_layout(g) == default_layout()[9],
        group_targets(g) == default_targets()[9],
{
    let probes_1 = vec!["34.87.0.1", "35.198.192.1"];
    assert(probes_1@ =~= seq!["34.87.0.1", "35.198.192.1"]);
    let g = group(ServerRegion::AsiaSingapore, "Asia Singapore", "GSG1", vec![target(
        "google:asia-southeast1",
        "Singapore, Jurong West",
        ServerProvider::GoogleCloud,
        "asia-southeast1",
        TargetConfidence::ProviderRegion,
        server_data::asia_singapore(),
        probes_1,
    )]);
    assert(target_ids(g) =~= default_layout()[9].3);
    assert(group_targets(g) =~= default_targets()[9]);
    g
}

/// The group of the region `AsiaTaiwan`, as `default_layout` and `default_targets` list it.
#[verifier::spinoff_prover]
#[verifier::rlimit(100)]
fn asia_taiwan_group() -> (g: ServerGroup)
    ensures
        group_layout(g) == default_layout()[10],
        group_targets(g) == default_targets()[10],
{
    let mut excluded_1: Vec<&'static str> = Vec::new();
    assert(normalize_spec("5.42.160.0/22"@) == Ok::<Seq<char>, (Seq<char>, Seq<char>)>("5.42.160.0/22"@)) by {
        reveal_strlit("5.42.160.0/22");
        reveal_with_fuel(dec_text, 4);
        lemma_v4_block("5.42.160.0/22"@, 5, 42, 160, 0, 22);
    }
    push_canonical(&mut excluded_1, "5.42.160.0/22");
    assert(normalize_spec("5.42.164.0/22"@) == Ok::<Seq<char>, (Seq<char>, Seq<char>)>("5.42.164.0/22"@)) by {
        reveal_strlit("5.42.164.0/22");
        reveal_with_fuel(dec_text, 4);
        lemma_v4_block("5.42.164.0/22"@, 5, 42, 164, 0, 22);
    }
    push_canonical(&mut excluded_1, "5.42.164.0/22");
    assert(excluded_1@ =~= seq!["5.42.160.0/22", "5.42.164.0/22"]);
    let probes_1 = vec!["34.80.0.1", "35.194.128.1"];
    assert(probes_1@ =~= seq!["34.80.0.1", "35.194.128.1"]);
    let mut ranges_1: Vec<&'static str> = Vec::new();
    assert(normalize_spec("5.42.160.0/22"@) == Ok::<Seq<char>, (Seq<char>, Seq<char>)>("5.42.160.0/22"@)) by {
        reveal_strlit("5.42.160.0/22");
        reveal_with_fuel(dec_text, 4);
        lemma_v4_block("5.42.160.0/22"@, 5, 42, 160, 0, 22);
    }
    push_canonical(&mut ranges_1, "5.42.160.0/22");
    assert(normalize_spec("5.42.164.0/22"@) == Ok::<Seq<char>, (Seq<char>, Seq<char>)>("5.42.164.0/22"@)) by {
        reveal_strlit("5.42.164.0/22");
        reveal_with_fuel(dec_text, 4);
        lemma_v4_block("5.42.164.0/22"@, 5, 42, 164, 0, 22);
    }
    push_canonical(&mut ranges_1, "5.42.164.0/22");
    assert(ranges_1@ =~= seq!["5.42.160.0/22", "5.42.164.0/22"]);
    let probes_2 = vec!["5.42.160.1"];
    assert(probes_2@ =~= seq!["5.42.160.1"]);
    let g = group(ServerRegion::AsiaTaiwan, "Asia Taiwan", "TPE1", vec![
        target_excluding(
            "google:asia-east1",
            "Taiwan, Changhua County",
            ServerProvider::GoogleCloud,
            "asia-east1",
            TargetConfidence::ProviderRegion,
            server_data::asia_taiwan(),
            excluded_1,
            probes_1,
        ),
        target(
            "blizzard:tpe1",
            "Taiwan, Taipei",
            ServerProvider::Blizzard,
            "TPE1",
            TargetConfidence::KnownOw,
            ranges_1,
            probes_2,
        ),
    ]);
    assert(target_ids(g) =~= default_layout()[10].3);
    assert(group_targets(g) =~= default_targets()[10]);
    g
}

/// The game's own ranges in South Korea.
pub open spec fn korea_blizzard_list() -> Seq<&'static str> {
    seq![
        "110.45.208.0/24",
        "117.52.6.0/24",
        "117.52.26.0/23",
        "117.52.28.0/23",
        "117.52.33.0/24",
        "117.52.34.0/23",
        "117.52.36.0/23",
        "121.254.137.0/24",
        "121.254.206.0/23",
        "121.254.218.0/24",
        "182.162.31.0/24",
    ]
}

/// Adds the entries of `korea_blizzard_ranges` from the 1. group of 12, each checked to be canonical.
#[verifier::spinoff_prover]
#[verifier::rlimit(100)]
fn korea_blizzard_ranges_part_1(r: &mut Vec<&'static str>)
    requires
        all_canonical(old(r)@),
    ensures
        final(r)@ == old(r)@ + seq!["110.45.208.0/24", "117.52.6.0/24", "117.52.26.0/23", "117.52.28.0/23", "117.52.33.0/24", "117.52.34.0/23", "117.52.36.0/23", "121.254.137.0/24", "121.254.206.0/23", "121.254.218.0/24", "182.162.31.0/24"],
        all_canonical(final(r)@),
{
    let ghost start = r@;
    assert(normalize_spec("110.45.208.0/24"@) == Ok::<Seq<char>, (Seq<char>, Seq<char>)>("110.45.208.0/24"@)) by {
        reveal_strlit("110.45.208.0/24");
        reveal_with_fuel(dec_text, 4);
        lemma_v4_block("110.45.208.0/24"@, 110, 45, 208, 0, 24);
    }
    push_canonical(r, "110.45.208.0/24");
    assert(normalize_spec("117.52.6.0/24"@) == Ok::<Seq<char>, (Seq<char>, Seq<char>)>("117.52.6.0/24"@)) by {
        reveal_strlit("117.52.6.0/24");
        reveal_with_fuel(dec_text, 4);
        lemma_v4_block("117.52.6.0/24"@, 117, 52, 6, 0, 24);
    }
    push_canonical(r, "117.52.6.0/24");
    assert(normalize_spec("117.52.26.0/23"@) == Ok::<Seq<char>, (Seq<char>, Seq<char>)>("117.52.26.0/23"@)) by {
        reveal_strlit("117.52.26.0/23");
        reveal_with_fuel(dec_text, 4);
        lemma_v4_block("117.52.26.0/23"@, 117, 52, 26, 0, 23);
    }
    push_canonical(r, "117.52.26.0/23");
    assert(normalize_spec("117.52.28.0/23"@) == Ok::<Seq<char>, (Seq<char>, Seq<char>)>("117.52.28.0/23"@)) by {
        reveal_strlit("117.52.28.0/23");
        reveal_with_fuel(dec_text, 4);
        lemma_v4_block("117.52.28.0/23"@, 117, 52, 28, 0, 23);
    }
    push_canonical(r, "117.52.28.0/23");
    assert(normalize_spec("117.52.33.0/24"@) == Ok::<Seq<char>, (Seq<char>, Seq<char>)>("117.52.33.0/24"@)) by {
        reveal_strlit("117.52.33.0/24");
        reveal_with_fuel(dec_text, 4);
        lemma_v4_block("117.52.33.0/24"@, 117, 52, 33, 0, 24);
    }
    push_canonical(r, "117.52.33.0/24");
    assert(normalize_spec("117.52.34.0/23"@) == Ok::<Seq<char>, (Seq<char>, Seq<char>)>("117.52.34.0/23"@)) by {
        reveal_strlit("117.52.34.0/23");
        reveal_with_fuel(dec_text, 4);
        lemma_v4_block("117.52.34.0/23"@, 117, 52, 34, 0, 23);
    }
    push_canonical(r, "117.52.34.0/23");
    assert(normalize_spec("117.52.36.0/23"@) == Ok::<Seq<char>, (Seq<char>, Seq<char>)>("117.52.36.0/23"@)) by {
        reveal_strlit("117.52.36.0/23");
        reveal_with_fuel(dec_text, 4);
        lemma_v4_block("117.52.36.0/23"@, 117, 52, 36, 0, 23);
    }
    push_canonical(r, "117.52.36.0/23");
    assert(normalize_spec("121.254.137.0/24"@) == Ok::<Seq<char>, (Seq<char>, Seq<char>)>("121.254.137.0/24"@)) by {
        reveal_strlit("121.254.137.0/24");
        reveal_with_fuel(dec_text, 4);
        lemma_v4_block("121.254.137.0/24"@, 121, 254, 137, 0, 24);
    }
    push_canonical(r, "121.254.137.0/24");
    assert(normalize_spec("121.254.206.0/23"@) == Ok::<Seq<char>, (Seq<char>, Seq<char>)>("121.254.206.0/23"@)) by {
        reveal_strlit("121.254.206.0/23");
        reveal_with_fuel(dec_text, 4);
        lemma_v4_block("121.254.206.0/23"@, 121, 254, 206, 0, 23);
    }
    push_canonical(r, "121.254.206.0/23");
    assert(normalize_spec("121.254.218.0/24"@) == Ok::<Seq<char>, (Seq<char>, Seq<char>)>("121.254.218.0/24"@)) by {
        reveal_strlit("121.254.218.0/24");
        reveal_with_fuel(dec_text, 4);
        lemma_v4_block("121.254.218.0/24"@, 121, 254, 218, 0, 24);
    }
    push_canonical(r, "121.254.218.0/24");
    assert(normalize_spec("182.162.31.0/24"@) == Ok::<Seq<char>, (Seq<char>, Seq<char>)>("182.162.31.0/24"@)) by {
        reveal_strlit("182.162.31.0/24");
        reveal_with_fuel(dec_text, 4);
        lemma_v4_block("182.162.31.0/24"@, 182, 162, 31, 0, 24);
    }
    push_canonical(r, "182.162.31.0/24");
    assert(r@ =~= start + seq!["110.45.208.0/24", "117.52.6.0/24", "117.52.26.0/23", "117.52.28.0/23", "117.52.33.0/24", "117.52.34.0/23", "117.52.36.0/23", "121.254.137.0/24", "121.254.206.0/23", "121.254.218.0/24", "182.162.31.0/24"]);
}

/// The game's own ranges in South Korea.
fn korea_blizzard_ranges() -> (r: Vec<&'static str>)
    ensures
        r@ == korea_blizzard_list(),
        all_canonical(r@),
{
    let mut r: Vec<&'static str> = Vec::new();
    korea_blizzard_ranges_part_1(&mut r);
    assert(r@ =~= korea_blizzard_list());
    r
}


/// A text of lowercase letters and underscores is its own normalized id.
proof fn lemma_plain_id(s: Seq<char>)
    requires
        s.len() > 0,
        forall|i: int| 0 <= i < s.len() ==> ('a' <= #[trigger] s[i] <= 'z' || s[i] == '_'),
    ensures
        normalized_id(s) == s,
{
    assert(trim_start_fixed(s)) by {
        assert(!crate::text::is_ws(s[0]));
    }
    assert(crate::text::trim_end(s) == s) by {
        assert(!crate::text::is_ws(s.last()));
    }
    assert(to_lower(s).map_values(|c: char| underscore(c)) =~= s);
}

/// Whether `s` starts with no whitespace to trim.
pub open spec fn trim_start_fixed(s: Seq<char>) -> bool {
    crate::text::trim_start(s) == s
}

/// Every region's id is lowercase letters and underscores.
pub proof fn lemma_region_id_plain(r: ServerRegion)
    ensures
        region_id(r).len() > 0,
        forall|i: int|
            0 <= i < region_id(r).len() ==> ('a' <= #[trigger] region_id(r)[i] <= 'z' || region_id(
                r,
            )[i] == '_'),
{
    reveal_strlit("brazil");
    reveal_strlit("australia");
    reveal_strlit("us_central");
    reveal_strlit("us_east");
    reveal_strlit("us_west");
    reveal_strlit("europe");
    reveal_strlit("middle_east");
    reveal_strlit("asia_japan");
    reveal_strlit("asia_korea");
    reveal_strlit("asia_singapore");
    reveal_strlit("asia_taiwan");
}

/// Every region's id is read back as that region by `from_id`.
pub proof fn lemma_region_id_roundtrip(r: ServerRegion)
    ensures
        region_named(normalized_id(region_id(r))) == Some(r),
{
    lemma_region_id_plain(r);
    reveal_strlit("brazil");
    reveal_strlit("brasil");
    reveal_strlit("australia");
    reveal_strlit("us_central");
    reveal_strlit("usa_central");
    reveal_strlit("eua_central");
    reveal_strlit("us_east");
    reveal_strlit("usa_east");
    reveal_strlit("eua_east");
    reveal_strlit("us_west");
    reveal_strlit("usa_west");
    reveal_strlit("eua_west");
    reveal_strlit("europe");
    reveal_strlit("europa");
    reveal_strlit("middle_east");
    reveal_strlit("oriente_medio");
    reveal_strlit("asia_japan");
    reveal_strlit("asia_korea");
    reveal_strlit("asia_singapore");
    reveal_strlit("asia_taiwan");
    lemma_plain_id(region_id(r));
    match r {
        ServerRegion::Brazil => {},
        ServerRegion::Australia => {
            assert("australia"@ != "brazil"@ && "australia"@ != "brasil"@);
        },
        ServerRegion::UsaCentral => {
            assert("us_central"@ != "brazil"@ && "us_central"@ != "brasil"@ && "us_central"@ != "australia"@);
        },
        ServerRegion::UsaEast => {
            assert("us_east"@ != "brazil"@ && "us_east"@ != "brasil"@ && "us_east"@ != "australia"@);
            assert("us_east"@ != "us_central"@ && "us_east"@ != "usa_central"@ && "us_east"@ != "eua_central"@);
        },
        ServerRegion::UsaWest => {
            assert("us_west"@ != "brazil"@ && "us_west"@ != "brasil"@ && "us_west"@ != "australia"@);
            assert("us_west"@ != "us_central"@ && "us_west"@ != "usa_central"@ && "us_west"@ != "eua_central"@);
            assert("us_west"@[3] != "us_east"@[3]);
            assert("us_west"@ != "us_east"@ && "us_west"@ != "usa_east"@ && "us_west"@ != "eua_east"@);
        },
        _ => {
            assert(region_id(r).len() >= 6);
            assert(region_id(r) != "brazil"@ ==> region_id(r) != "brasil"@);
        },
    }
}


/// An older spelling of region `r`, besides its id: `usa_` or `eua_` in
/// place of the `us_` that the id of a region of the USA starts with, and
/// the Portuguese names of Brazil, Europe and the Middle East.
pub open spec fn is_older_spelling(n: Seq<char>, r: ServerRegion) -> bool {
    ||| exists|suffix: Seq<char>|
        region_id(r) == "us_"@ + suffix && (n == "usa_"@ + suffix || n == "eua_"@ + suffix)
    ||| (r == ServerRegion::Brazil && n == "brasil"@)
    ||| (r == ServerRegion::Europe && n == "europa"@)
    ||| (r == ServerRegion::MiddleEast && n == "oriente_medio"@)
}

proof fn reveal_region_texts()
    ensures
        "brazil"@ =~= seq!['b', 'r', 'a', 'z', 'i', 'l'],
        "brasil"@ =~= seq!['b', 'r', 'a', 's', 'i', 'l'],
        "australia"@ =~= seq!['a', 'u', 's', 't', 'r', 'a', 'l', 'i', 'a'],
        "us_central"@ =~= seq!['u', 's', '_', 'c', 'e', 'n', 't', 'r', 'a', 'l'],
        "usa_central"@ =~= seq!['u', 's', 'a', '_', 'c', 'e', 'n', 't', 'r', 'a', 'l'],
        "eua_central"@ =~= seq!['e', 'u', 'a', '_', 'c', 'e', 'n', 't', 'r', 'a', 'l'],
        "us_east"@ =~= seq!['u', 's', '_', 'e', 'a', 's', 't'],
        "usa_east"@ =~= seq!['u', 's', 'a', '_', 'e', 'a', 's', 't'],
        "eua_east"@ =~= seq!['e', 'u', 'a', '_', 'e', 'a', 's', 't'],
        "us_west"@ =~= seq!['u', 's', '_', 'w', 'e', 's', 't'],
        "usa_west"@ =~= seq!['u', 's', 'a', '_', 'w', 'e', 's', 't'],
        "eua_west"@ =~= seq!['e', 'u', 'a', '_', 'w', 'e', 's', 't'],
        "europe"@ =~= seq!['e', 'u', 'r', 'o', 'p', 'e'],
        "europa"@ =~= seq!['e', 'u', 'r', 'o', 'p', 'a'],
        "middle_east"@ =~= seq!['m', 'i', 'd', 'd', 'l', 'e', '_', 'e', 'a', 's', 't'],
        "oriente_medio"@ =~= seq!['o', 'r', 'i', 'e', 'n', 't', 'e', '_', 'm', 'e', 'd', 'i', 'o'],
        "asia_japan"@ =~= seq!['a', 's', 'i', 'a', '_', 'j', 'a', 'p', 'a', 'n'],
        "asia_korea"@ =~= seq!['a', 's', 'i', 'a', '_', 'k', 'o', 'r', 'e', 'a'],
        "asia_singapore"@ =~= seq!['a', 's', 'i', 'a', '_', 's', 'i', 'n', 'g', 'a', 'p', 'o', 'r', 'e'],
        "asia_taiwan"@ =~= seq!['a', 's', 'i', 'a', '_', 't', 'a', 'i', 'w', 'a', 'n'],
        "us_"@ =~= seq!['u', 's', '_'],
        "usa_"@ =~= seq!['u', 's', 'a', '_'],
        "eua_"@ =~= seq!['e', 'u', 'a', '_'],
        "central"@ =~= seq!['c', 'e', 'n', 't', 'r', 'a', 'l'],
        "east"@ =~= seq!['e', 'a', 's', 't'],
        "west"@ =~= seq!['w', 'e', 's', 't'],
{
    reveal_strlit("brazil");
    reveal_strlit("brasil");
    reveal_strlit("australia");
    reveal_strlit("us_central");
    reveal_strlit("usa_central");
    reveal_strlit("eua_central");
    reveal_strlit("us_east");
    reveal_strlit("usa_east");
    reveal_strlit("eua_east");
    reveal_strlit("us_west");
    reveal_strlit("usa_west");
    reveal_strlit("eua_west");
    reveal_strlit("europe");
    reveal_strlit("europa");
    reveal_strlit("middle_east");
    reveal_strlit("oriente_medio");
    reveal_strlit("asia_japan");
    reveal_strlit("asia_korea");
    reveal_strlit("asia_singapore");
    reveal_strlit("asia_taiwan");
    reveal_strlit("us_");
    reveal_strlit("usa_");
    reveal_strlit("eua_");
    reveal_strlit("central");
    reveal_strlit("east");
    reveal_strlit("west");
}

/// Every older spelling of a region names that region.
pub proof fn lemma_older_spellings_name_their_region(n: Seq<char>, r: ServerRegion)
    requires
        is_older_spelling(n, r),
    ensures
        region_named(n) == Some(r),
{
    reveal_region_texts();
    if exists|suffix: Seq<char>|
        region_id(r) == "us_"@ + suffix && (n == "usa_"@ + suffix || n == "eua_"@ + suffix) {
        let suffix = choose|suffix: Seq<char>|
            region_id(r) == "us_"@ + suffix && (n == "usa_"@ + suffix || n == "eua_"@ + suffix);
        let id = region_id(r);
        assert(id[0] == 'u' && id[1] == 's' && id[2] == '_');
        assert(suffix =~= id.skip(3));
        match r {
            ServerRegion::UsaCentral => {
                assert(suffix =~= "central"@);
                assert("usa_"@ + suffix =~= "usa_central"@);
                assert("eua_"@ + suffix =~= "eua_central"@);
            },
            ServerRegion::UsaEast => {
                assert(suffix =~= "east"@);
                assert("usa_"@ + suffix =~= "usa_east"@);
                assert("eua_"@ + suffix =~= "eua_east"@);
                assert("usa_east"@ != "us_central"@);
            },
            ServerRegion::UsaWest => {
                assert(suffix =~= "west"@);
                assert("usa_"@ + suffix =~= "usa_west"@);
                assert("eua_"@ + suffix =~= "eua_west"@);
                assert("usa_west"@[4] != "usa_east"@[4]);
                assert("eua_west"@[4] != "eua_east"@[4]);
            },
            _ => {},
        }
    }
}

/// A text names a region only where it is the region's id or one of its
/// older spellings.
pub proof fn lemma_named_only_by_id_or_older_spelling(n: Seq<char>)
    ensures
        match region_named(n) {
            Some(r) => n == region_id(r) || is_older_spelling(n, r),
            None => true,
        },
{
    reveal_region_texts();
    if n == "usa_central"@ || n == "eua_central"@ {
        assert("us_central"@ =~= "us_"@ + "central"@);
        assert("usa_central"@ =~= "usa_"@ + "central"@);
        assert("eua_central"@ =~= "eua_"@ + "central"@);
    } else if n == "usa_east"@ || n == "eua_east"@ {
        assert("us_east"@ =~= "us_"@ + "east"@);
        assert("usa_east"@ =~= "usa_"@ + "east"@);
        assert("eua_east"@ =~= "eua_"@ + "east"@);
    } else if n == "usa_west"@ || n == "eua_west"@ {
        assert("us_west"@ =~= "us_"@ + "west"@);
        assert("usa_west"@ =~= "usa_"@ + "west"@);
        assert("eua_west"@ =~= "eua_"@ + "west"@);
    }
}

} // verus!
