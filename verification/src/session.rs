//! The selection of targets and the decisions of the app around it: what is
//! selected at start, what is remembered, what is reported.
use vstd::prelude::*;
use crate::firewall::{FirewallReport, FirewallStatus};
use crate::idset::TargetIdSet;
use crate::latency::all_targets;
use crate::server::{ServerGroup, ServerRegion, ServerTarget, region_named, normalized_id, region_id, lemma_region_id_plain};
use crate::settings::{AppSettings, is_field, settings_wf, parse_settings_spec, format_settings_spec, lemma_settings_roundtrip};
use crate::plan::{FirewallPlan, pair_group_names, pair_target_ids, pair_targets};
use crate::address::{dedupe, lemma_dedupe_distinct};
use crate::server::target_addresses;
use crate::text::{eq_ignore_case, trim, chars_of, trim_bounds, string_of_range, is_ws, lacks, lemma_trim_fixed, lemma_trim_idempotent};

verus! {

/// The ids of the targets, in order.
pub open spec fn ids_of(ts: Seq<ServerTarget>) -> Seq<Seq<char>> {
    ts.map_values(|t: ServerTarget| t.id@)
}

/// The ids of all targets of the server list.
pub open spec fn all_ids(gs: Seq<ServerGroup>) -> Set<Seq<char>> {
    ids_of(all_targets(gs)).to_set()
}

/// Whether one of `regions` names the group: by its display name in any
/// letter case, or as an id of its region.
pub open spec fn group_named(g: ServerGroup, regions: Seq<Seq<char>>) -> bool {
    exists|i: int|
        0 <= i < regions.len() && (eq_ignore_case(g.name@, #[trigger] regions[i]) || region_named(
            normalized_id(regions[i]),
        ) == Some(g.region))
}

/// The ids of the targets of the groups that `regions` name.
pub open spec fn region_target_ids(gs: Seq<ServerGroup>, regions: Seq<Seq<char>>) -> Set<Seq<char>> {
    Set::new(
        |x: Seq<char>|
            exists|g: int|
                0 <= g < gs.len() && group_named(#[trigger] gs[g], regions) && ids_of(
                    gs[g].targets@,
                ).contains(x),
    )
}

/// The ids among `ids` that name a known target.
pub open spec fn known_ids(ids: Seq<Seq<char>>, known: Set<Seq<char>>) -> Set<Seq<char>> {
    ids.to_set().filter(|x: Seq<char>| known.contains(x))
}

/// The selection to start with: the rule's targets that are still known;
/// else every target of the rule's regions; else the remembered targets
/// that are still known; else every target of the remembered regions.
pub open spec fn initial_selection(
    gs: Seq<ServerGroup>,
    active_targets: Seq<Seq<char>>,
    active_regions: Seq<Seq<char>>,
    settings_targets: Seq<Seq<char>>,
    settings_regions: Seq<Seq<char>>,
) -> Set<Seq<char>> {
    let known = all_ids(gs);
    if !known_ids(active_targets, known).is_empty() {
        known_ids(active_targets, known)
    } else if active_regions.len() > 0 {
        region_target_ids(gs, active_regions)
    } else if !known_ids(settings_targets, known).is_empty() {
        known_ids(settings_targets, known)
    } else {
        region_target_ids(gs, settings_regions)
    }
}

/// Adds the ids of `ts` to the set.
fn insert_ids(set: &mut TargetIdSet, ts: &Vec<ServerTarget>)
    ensures
        final(set)@.to_set() == old(set)@.to_set() + ids_of(ts@).to_set(),
{
    let ghost start = set@.to_set();
    let mut i: usize = 0;
    assert(ids_of(ts@).take(0).to_set() =~= Set::<Seq<char>>::empty());
    assert(start + ids_of(ts@).take(0).to_set() =~= start);
    while i < ts.len()
        invariant
            0 <= i <= ts@.len(),
            set@.to_set() == start + ids_of(ts@).take(i as int).to_set(),
        decreases ts.len() - i,
    {
        let ghost before = set@.to_set();
        set.insert(ts[i].id.to_string());
        assert(ids_of(ts@).take(i + 1) =~= ids_of(ts@).take(i as int).push(ts@[i as int].id@));
        proof { ids_of(ts@).take(i as int).lemma_push_to_set_commute(ts@[i as int].id@); }
        i = i + 1;
        assert(set@.to_set() =~= start + ids_of(ts@).take(i as int).to_set());
    }
    assert(ids_of(ts@).take(ts.len() as int) =~= ids_of(ts@));
}

/// The ids of all targets of the server list.
pub fn all_target_ids(servers: &[ServerGroup]) -> (r: TargetIdSet)
    ensures
        r@.to_set() == all_ids(servers@),
{
    let mut set = TargetIdSet::new();
    let mut g: usize = 0;
    assert(set@.to_set() =~= Set::<Seq<char>>::empty());
    assert(servers@.take(0) =~= Seq::<ServerGroup>::empty());
    assert(ids_of(all_targets(servers@.take(0))).to_set() =~= Set::<Seq<char>>::empty());
    while g < servers.len()
        invariant
            0 <= g <= servers@.len(),
            set@.to_set() == ids_of(all_targets(servers@.take(g as int))).to_set(),
        decreases servers.len() - g,
    {
        let ghost prev = all_targets(servers@.take(g as int));
        assert(servers@.take(g + 1).drop_last() =~= servers@.take(g as int));
        assert(servers@.take(g + 1).last() == servers@[g as int]);
        insert_ids(&mut set, &servers[g].targets);
        let ghost ts = servers@[g as int].targets@;
        assert(ids_of(prev + ts) =~= ids_of(prev) + ids_of(ts));
        proof { vstd::seq_lib::seq_to_set_distributes_over_add(ids_of(prev), ids_of(ts)); }
        g = g + 1;
    }
    assert(servers@.take(servers.len() as int) =~= servers@);
    set
}

/// Whether one of `regions` names the group.
fn group_is_named(group: &ServerGroup, regions: &Vec<String>) -> (r: bool)
    ensures
        r == group_named(*group, regions.deep_view()),
{
    let name = chars_of(group.name);
    let mut i: usize = 0;
    while i < regions.len()
        invariant
            0 <= i <= regions@.len(),
            name@ == group.name@,
            forall|k: int|
                0 <= k < i ==> !(eq_ignore_case(group.name@, #[trigger] regions.deep_view()[k])
                    || region_named(normalized_id(regions.deep_view()[k])) == Some(group.region)),
        decreases regions.len() - i,
    {
        let r = chars_of(regions[i].as_str());
        assert(regions.deep_view()[i as int] == regions[i as int]@);
        if crate::plan::chars_eq_ignore_case(&name, &r) {
            return true;
        }
        match ServerRegion::from_id(regions[i].as_str()) {
            Some(region) => {
                if region == group.region {
                    return true;
                }
            },
            None => {},
        }
        i = i + 1;
    }
    false
}

/// The ids of the targets of the groups that `regions` name: a region named
/// by its display name in any letter case or by one of its ids selects all
/// of its targets.
pub fn target_ids_for_regions(servers: &[ServerGroup], regions: &Vec<String>) -> (r: TargetIdSet)
    ensures
        r@.to_set() == region_target_ids(servers@, regions.deep_view()),
{
    let mut set = TargetIdSet::new();
    let ghost want = region_target_ids(servers@, regions.deep_view());
    let ghost part = |k: int| Set::new(
        |x: Seq<char>|
            exists|g: int|
                0 <= g < k && group_named(#[trigger] servers@[g], regions.deep_view()) && ids_of(
                    servers@[g].targets@,
                ).contains(x),
    );
    assert(set@.to_set() =~= part(0));
    let mut g: usize = 0;
    while g < servers.len()
        invariant
            0 <= g <= servers@.len(),
            set@.to_set() == part(g as int),
            part == (|k: int| Set::new(
                |x: Seq<char>|
                    exists|g: int|
                        0 <= g < k && group_named(#[trigger] servers@[g], regions.deep_view())
                            && ids_of(servers@[g].targets@).contains(x),
            )),
        decreases servers.len() - g,
    {
        let group = &servers[g];
        if group_is_named(group, regions) {
            insert_ids(&mut set, &group.targets);
            assert(set@.to_set() =~= part(g + 1)) by {
                assert forall|x: Seq<char>| part(g + 1).contains(x) implies set@.to_set().contains(x) by {
                    let gg = choose|gg: int|
                        0 <= gg < g + 1 && group_named(#[trigger] servers@[gg], regions.deep_view())
                            && ids_of(servers@[gg].targets@).contains(x);
                    if gg < g {
                        assert(part(g as int).contains(x));
                    } else {
                        assert(ids_of(group.targets@).to_set().contains(x));
                    }
                }
                assert forall|x: Seq<char>| set@.to_set().contains(x) implies part(g + 1).contains(x) by {
                    if part(g as int).contains(x) {
                        let gg = choose|gg: int|
                            0 <= gg < g && group_named(#[trigger] servers@[gg], regions.deep_view())
                                && ids_of(servers@[gg].targets@).contains(x);
                        assert(0 <= gg < g + 1);
                    } else {
                        assert(ids_of(group.targets@).to_set().contains(x));
                        assert(group_named(servers@[g as int], regions.deep_view()));
                        assert(ids_of(servers@[g as int].targets@).contains(x));
                    }
                }
            }
        } else {
            assert(set@.to_set() =~= part(g + 1)) by {
                let ghost next = part(g + 1);
                let ghost cur = part(g as int);
                assert forall|x: Seq<char>| #[trigger] next.contains(x) implies cur.contains(x) by {
                    let gg = choose|gg: int|
                        0 <= gg < g + 1 && group_named(#[trigger] servers@[gg], regions.deep_view())
                            && ids_of(servers@[gg].targets@).contains(x);
                    assert(gg != g);
                }
            }
        }
        g = g + 1;
    }
    assert(part(servers@.len() as int) =~= want);
    set
}

/// The ids among `ids` that are in `known`.
fn known_subset(ids: &Vec<String>, known: &TargetIdSet) -> (r: TargetIdSet)
    ensures
        r@.to_set() == known_ids(ids.deep_view(), known@.to_set()),
{
    let mut set = TargetIdSet::new();
    let mut i: usize = 0;
    let ghost k = known@.to_set();
    assert(set@.to_set() =~= known_ids(ids.deep_view().take(0), k));
    while i < ids.len()
        invariant
            0 <= i <= ids@.len(),
            k == known@.to_set(),
            set@.to_set() == known_ids(ids.deep_view().take(i as int), k),
        decreases ids.len() - i,
    {
        let ghost next = ids.deep_view().take(i + 1);
        assert(next =~= ids.deep_view().take(i as int).push(ids[i as int]@));
        proof { ids.deep_view().take(i as int).lemma_push_to_set_commute(ids[i as int]@); }
        if known.contains(ids[i].as_str()) {
            set.insert(ids[i].clone());
            assert(set@.to_set() =~= known_ids(next, k));
        } else {
            assert(set@.to_set() =~= known_ids(next, k));
        }
        i = i + 1;
    }
    assert(ids.deep_view().take(ids.len() as int) =~= ids.deep_view());
    set
}

/// The selection to start with (see `initial_selection`).
pub fn initial_selected_targets(
    servers: &[ServerGroup],
    status: &FirewallStatus,
    settings: &AppSettings,
) -> (r: TargetIdSet)
    ensures
        r@.to_set() == initial_selection(
            servers@,
            status.active_targets.deep_view(),
            status.active_regions.deep_view(),
            settings.selected_targets.deep_view(),
            settings.selected_regions.deep_view(),
        ),
{
    let known = all_target_ids(servers);
    let active = known_subset(&status.active_targets, &known);
    if !active.is_empty() {
        assert(!known_ids(status.active_targets.deep_view(), all_ids(servers@)).is_empty()) by {
            let x = active@[0];
            assert(active@.to_set().contains(x));
        }
        return active;
    }
    assert(known_ids(status.active_targets.deep_view(), all_ids(servers@)).is_empty()) by {
        assert(active@.to_set() =~= Set::<Seq<char>>::empty());
    }
    if status.active_regions.len() > 0 {
        return target_ids_for_regions(servers, &status.active_regions);
    }
    let remembered = known_subset(&settings.selected_targets, &known);
    if !remembered.is_empty() {
        assert(!known_ids(settings.selected_targets.deep_view(), all_ids(servers@)).is_empty()) by {
            let x = remembered@[0];
            assert(remembered@.to_set().contains(x));
        }
        return remembered;
    }
    assert(known_ids(settings.selected_targets.deep_view(), all_ids(servers@)).is_empty()) by {
        assert(remembered@.to_set() =~= Set::<Seq<char>>::empty());
    }
    target_ids_for_regions(servers, &settings.selected_regions)
}

/// Number of targets whose id is in `ids`.
pub open spec fn count_selected(ts: Seq<ServerTarget>, ids: Set<Seq<char>>) -> nat
    decreases ts.len(),
{
    if ts.len() == 0 {
        0
    } else {
        count_selected(ts.drop_last(), ids) + if ids.contains(ts.last().id@) {
            1nat
        } else {
            0nat
        }
    }
}

/// How many of the group's targets are selected.
pub fn group_selected_count(group: &ServerGroup, selected: &TargetIdSet) -> (r: usize)
    ensures
        r == count_selected(group.targets@, selected@.to_set()),
{
    let mut n: usize = 0;
    let mut i: usize = 0;
    assert(group.targets@.take(0) =~= Seq::<ServerTarget>::empty());
    while i < group.targets.len()
        invariant
            0 <= i <= group.targets@.len(),
            n == count_selected(group.targets@.take(i as int), selected@.to_set()),
            n <= i,
        decreases group.targets.len() - i,
    {
        assert(group.targets@.take(i + 1).drop_last() =~= group.targets@.take(i as int));
        assert(group.targets@.take(i + 1).last() == group.targets@[i as int]);
        if selected.contains(group.targets[i].id) {
            assert(selected@.to_set().contains(group.targets@[i as int].id@));
            n = n + 1;
        } else {
            assert(!selected@.to_set().contains(group.targets@[i as int].id@));
        }
        i = i + 1;
    }
    assert(group.targets@.take(group.targets.len() as int) =~= group.targets@);
    n
}

/// Selects or deselects all targets of the group.
pub fn set_group_selected(selected: &mut TargetIdSet, group: &ServerGroup, select: bool)
    ensures
        select ==> final(selected)@.to_set() == old(selected)@.to_set() + ids_of(group.targets@).to_set(),
        !select ==> final(selected)@.to_set() == old(selected)@.to_set() - ids_of(group.targets@).to_set(),
{
    if select {
        insert_ids(selected, &group.targets);
    } else {
        let ghost start = selected@.to_set();
        let mut i: usize = 0;
        assert(ids_of(group.targets@).take(0).to_set() =~= Set::<Seq<char>>::empty());
        assert(start - ids_of(group.targets@).take(0).to_set() =~= start);
        while i < group.targets.len()
            invariant
                0 <= i <= group.targets@.len(),
                selected@.to_set() == start - ids_of(group.targets@).take(i as int).to_set(),
            decreases group.targets.len() - i,
        {
            selected.remove(group.targets[i].id);
            assert(ids_of(group.targets@).take(i + 1) =~= ids_of(group.targets@).take(i as int).push(
                group.targets@[i as int].id@,
            ));
            proof { ids_of(group.targets@).take(i as int).lemma_push_to_set_commute(group.targets@[i as int].id@); }
            i = i + 1;
            assert(selected@.to_set() =~= start - ids_of(group.targets@).take(i as int).to_set());
        }
        assert(ids_of(group.targets@).take(group.targets.len() as int) =~= ids_of(group.targets@));
    }
}

/// Whether a group's box shows as checked: it has targets and all are
/// selected.
pub fn group_fully_selected(total_targets: usize, selected_targets: usize) -> (r: bool)
    ensures
        r == (total_targets > 0 && selected_targets == total_targets),
{
    total_targets > 0 && selected_targets == total_targets
}

/// A click on a group's box: deselects the whole group where all its targets
/// were selected, else selects them all.
pub fn toggle_group(selected: &mut TargetIdSet, group: &ServerGroup)
    ensures
        ({
            let all = group.targets@.len() > 0 && count_selected(group.targets@, old(selected)@.to_set())
                == group.targets@.len();
            &&& all ==> final(selected)@.to_set() == old(selected)@.to_set() - ids_of(group.targets@).to_set()
            &&& !all ==> final(selected)@.to_set() == old(selected)@.to_set() + ids_of(group.targets@).to_set()
        }),
{
    let count = group_selected_count(group, selected);
    let all = group_fully_selected(group.target_count(), count);
    set_group_selected(selected, group, !all);
}

/// Whether the apply button is enabled: a path is typed, or nothing is
/// selected (applying then removes the rule).
pub fn can_apply(overwatch_path: &str, selected_count: usize) -> (r: bool)
    ensures
        r == (trim(overwatch_path@).len() > 0 || selected_count == 0),
{
    let path = path_from_input(overwatch_path);
    path.is_some() || selected_count == 0
}

/// The ids of the regions of the groups with a selected target, in order.
pub open spec fn selected_region_ids(gs: Seq<ServerGroup>, ids: Set<Seq<char>>) -> Seq<Seq<char>>
    decreases gs.len(),
{
    if gs.len() == 0 {
        Seq::empty()
    } else if count_selected(gs.last().targets@, ids) > 0 {
        selected_region_ids(gs.drop_last(), ids).push(region_id(gs.last().region))
    } else {
        selected_region_ids(gs.drop_last(), ids)
    }
}

/// A path typed by the user: none where it is blank, else trimmed.
pub open spec fn path_input(text: Seq<char>) -> Option<Seq<char>> {
    if trim(text).len() == 0 {
        None
    } else {
        Some(trim(text))
    }
}

/// The path typed by the user, if it is not blank.
pub fn path_from_input(text: &str) -> (r: Option<String>)
    ensures
        crate::firewall::opt_view(r) == path_input(text@),
{
    let s = chars_of(text);
    let (a, b) = trim_bounds(&s, 0, s.len());
    assert(s@.subrange(0, s@.len() as int) =~= s@);
    if a == b {
        None
    } else {
        Some(string_of_range(&s, a, b))
    }
}

/// The settings to remember: the typed path, the regions with a selected
/// target and the selected targets in ascending order.
pub fn current_settings(servers: &[ServerGroup], selected: &TargetIdSet, overwatch_path: &str) -> (r:
    AppSettings)
    ensures
        r@.0 == path_input(overwatch_path@),
        r@.1 == selected_region_ids(servers@, selected@.to_set()),
        r@.2 == selected@,
{
    let path = path_from_input(overwatch_path);
    let mut regions: Vec<String> = Vec::new();
    let mut g: usize = 0;
    assert(servers@.take(0) =~= Seq::<ServerGroup>::empty());
    while g < servers.len()
        invariant
            0 <= g <= servers@.len(),
            regions.deep_view() == selected_region_ids(servers@.take(g as int), selected@.to_set()),
        decreases servers.len() - g,
    {
        assert(servers@.take(g + 1).drop_last() =~= servers@.take(g as int));
        assert(servers@.take(g + 1).last() == servers@[g as int]);
        if group_selected_count(&servers[g], selected) > 0 {
            let ghost d = regions.deep_view();
            regions.push(servers[g].region.id().to_string());
            assert(regions.deep_view() =~= d.push(region_id(servers@[g as int].region)));
        }
        g = g + 1;
    }
    assert(servers@.take(servers.len() as int) =~= servers@);
    let r = AppSettings { overwatch_path: path, selected_regions: regions, selected_targets: selected.to_vec() };
    assert(r@.0 == crate::firewall::opt_view(r.overwatch_path));
    r
}

/// The path to show at start: the rule's, else the remembered one, else
/// the detected one, else the usual install location.
pub fn initial_overwatch_path(
    rule_path: Option<String>,
    settings_path: Option<String>,
    detected_path: Option<String>,
) -> (r: String)
    ensures
        r@ == match (rule_path, settings_path, detected_path) {
            (Some(p), _, _) => p@,
            (None, Some(p), _) => p@,
            (None, None, Some(p)) => p@,
            (None, None, None) => "C:\\Program Files (x86)\\Overwatch\\_retail_\\Overwatch.exe"@,
        },
{
    match (rule_path, settings_path, detected_path) {
        (Some(p), _, _) => p,
        (None, Some(p), _) => p,
        (None, None, Some(p)) => p,
        (None, None, None) => crate::plan::default_overwatch_path(),
    }
}

/// The settings to start with and the report to show: a failed load gives
/// the defaults and a report naming the file and the error.
pub fn load_settings_report(loaded: Result<AppSettings, String>, settings_path: &str) -> (r: (
    AppSettings,
    Option<FirewallReport>,
))
    ensures
        match loaded {
            Ok(s) => r.0 == s && r.1 is None,
            Err(e) => {
                &&& r.0@ == (None::<Seq<char>>, Seq::<Seq<char>>::empty(), Seq::<Seq<char>>::empty())
                &&& r.1 matches Some(rep) && !rep.ok && rep.summary@ == "Could not load settings from "@
                    + settings_path@ + ": "@ + e@
            },
        },
{
    match loaded {
        Ok(s) => (s, None),
        Err(e) => {
            let mut summary = "Could not load settings from ".to_string();
            summary.append(settings_path);
            summary.append(": ");
            summary.append(e.as_str());
            (AppSettings::default(), Some(FirewallReport { ok: false, summary }))
        },
    }
}

/// The report when the settings could not be saved.
pub fn save_error_report(error: &str) -> (r: FirewallReport)
    ensures
        !r.ok,
        r.summary@ == "Could not save settings: "@ + error@,
{
    let mut summary = "Could not save settings: ".to_string();
    summary.append(error);
    FirewallReport { ok: false, summary }
}

/// The report after the user picked the file at `path`, on a platform whose
/// separator is `sep`: accepted only where its file name is `Overwatch.exe`
/// in any letter case.
pub fn executable_choice_report(path: &str, sep: char) -> (r: FirewallReport)
    ensures
        r.ok == crate::plan::is_overwatch_name(crate::plan::path_file_name(path@, sep)),
        r.ok ==> r.summary@ == "Overwatch executable selected."@,
        !r.ok ==> r.summary@ == "Select the file named Overwatch.exe."@,
{
    if crate::plan::names_overwatch(path, sep) {
        FirewallReport { ok: true, summary: "Overwatch executable selected.".to_string() }
    } else {
        FirewallReport { ok: false, summary: "Select the file named Overwatch.exe.".to_string() }
    }
}

/// The selected targets, group after group, each with its group.
pub open spec fn selected_pairs(gs: Seq<ServerGroup>, ids: Set<Seq<char>>) -> Seq<(ServerGroup, ServerTarget)>
    decreases gs.len(),
{
    if gs.len() == 0 {
        Seq::empty()
    } else {
        selected_pairs(gs.drop_last(), ids) + selected_in_group(gs.last(), gs.last().targets@, ids)
    }
}

/// The selected targets among `ts`, each with the group `g`.
pub open spec fn selected_in_group(g: ServerGroup, ts: Seq<ServerTarget>, ids: Set<Seq<char>>) -> Seq<(ServerGroup, ServerTarget)>
    decreases ts.len(),
{
    if ts.len() == 0 {
        Seq::empty()
    } else if ids.contains(ts.last().id@) {
        selected_in_group(g, ts.drop_last(), ids).push((g, ts.last()))
    } else {
        selected_in_group(g, ts.drop_last(), ids)
    }
}

/// The pairs by value.
pub open spec fn pair_values(ps: Seq<(&ServerGroup, &ServerTarget)>) -> Seq<(ServerGroup, ServerTarget)> {
    ps.map_values(|p: (&ServerGroup, &ServerTarget)| (*p.0, *p.1))
}

/// The selected targets of the server list with their groups, in list order.
pub fn selected_target_refs<'a>(servers: &'a [ServerGroup], selected: &TargetIdSet) -> (r: Vec<
    (&'a ServerGroup, &'a ServerTarget),
>)
    ensures
        pair_values(r@) == selected_pairs(servers@, selected@.to_set()),
{
    let mut out: Vec<(&'a ServerGroup, &'a ServerTarget)> = Vec::new();
    let mut g: usize = 0;
    assert(servers@.take(0) =~= Seq::<ServerGroup>::empty());
    assert(pair_values(out@) =~= selected_pairs(servers@.take(0), selected@.to_set()));
    while g < servers.len()
        invariant
            0 <= g <= servers@.len(),
            pair_values(out@) == selected_pairs(servers@.take(g as int), selected@.to_set()),
        decreases servers.len() - g,
    {
        let group = &servers[g];
        assert(servers@.take(g + 1).drop_last() =~= servers@.take(g as int));
        assert(servers@.take(g + 1).last() == *group);
        let ghost base = pair_values(out@);
        let mut t: usize = 0;
        assert(group.targets@.take(0) =~= Seq::<ServerTarget>::empty());
        assert(base + selected_in_group(*group, group.targets@.take(0), selected@.to_set()) =~= base);
        while t < group.targets.len()
            invariant
                0 <= t <= group.targets@.len(),
                pair_values(out@) == base + selected_in_group(
                    *group,
                    group.targets@.take(t as int),
                    selected@.to_set(),
                ),
            decreases group.targets.len() - t,
        {
            let target = &group.targets[t];
            assert(group.targets@.take(t + 1).drop_last() =~= group.targets@.take(t as int));
            assert(group.targets@.take(t + 1).last() == *target);
            if selected.contains(target.id) {
                let ghost pv = pair_values(out@);
                out.push((group, target));
                assert(pair_values(out@) =~= pv.push((*group, *target)));
            }
            t = t + 1;
        }
        assert(group.targets@.take(group.targets.len() as int) =~= group.targets@);
        g = g + 1;
    }
    assert(servers@.take(servers.len() as int) =~= servers@);
    out
}

/// The plan for the current selection and the typed path: the selected
/// targets in list order, their regions and addresses each once.
pub fn plan_for_selection(servers: &[ServerGroup], selected: &TargetIdSet, overwatch_path: &str) -> (r:
    FirewallPlan)
    ensures
        r.selected_regions.deep_view() == dedupe(
            selected_pairs(servers@, selected@.to_set()).map_values(
                |p: (ServerGroup, ServerTarget)| p.0.name@,
            ),
        ),
        r.selected_targets.deep_view() == selected_pairs(servers@, selected@.to_set()).map_values(
            |p: (ServerGroup, ServerTarget)| p.1.id@,
        ),
        r.remote_addresses.deep_view() == dedupe(
            target_addresses(
                selected_pairs(servers@, selected@.to_set()).map_values(
                    |p: (ServerGroup, ServerTarget)| p.1,
                ),
            ),
        ),
        crate::firewall::opt_view(r.application_path) == path_input(overwatch_path@),
{
    let refs = selected_target_refs(servers, selected);
    let ghost ps = selected_pairs(servers@, selected@.to_set());
    assert(pair_group_names(refs@) =~= ps.map_values(|p: (ServerGroup, ServerTarget)| p.0.name@));
    assert(pair_target_ids(refs@) =~= ps.map_values(|p: (ServerGroup, ServerTarget)| p.1.id@));
    assert(pair_targets(refs@) =~= ps.map_values(|p: (ServerGroup, ServerTarget)| p.1));
    let path = path_from_input(overwatch_path);
    FirewallPlan::from_targets(refs, path)
}

/// A region's id is a list entry that the settings file keeps as it is.
proof fn lemma_region_id_field(r: ServerRegion)
    ensures
        is_field(region_id(r)),
{
    lemma_region_id_plain(r);
    let s = region_id(r);
    assert(!is_ws(s[0]));
    assert(!is_ws(s[s.len() - 1]));
    lemma_trim_fixed(s);
    assert forall|i: int| 0 <= i < s.len() implies s[i] != ',' && s[i] != '\n' by {
        assert('a' <= s[i] <= 'z' || s[i] == '_');
    }
}

/// The remembered regions are list entries that the settings file keeps.
proof fn lemma_selected_regions_fields(gs: Seq<ServerGroup>, ids: Set<Seq<char>>)
    ensures
        forall|i: int|
            0 <= i < selected_region_ids(gs, ids).len() ==> is_field(
                #[trigger] selected_region_ids(gs, ids)[i],
            ),
    decreases gs.len(),
{
    if gs.len() > 0 {
        lemma_selected_regions_fields(gs.drop_last(), ids);
        if count_selected(gs.last().targets@, ids) > 0 {
            lemma_region_id_field(gs.last().region);
            let prev = selected_region_ids(gs.drop_last(), ids);
            assert forall|i: int|
                0 <= i < selected_region_ids(gs, ids).len() implies is_field(
                #[trigger] selected_region_ids(gs, ids)[i],
            ) by {
                if i < prev.len() {
                    assert(selected_region_ids(gs, ids)[i] == prev[i]);
                }
            }
        }
    }
}

/// No target of a list counts as selected when nothing is.
proof fn lemma_count_none(ts: Seq<ServerTarget>)
    ensures
        count_selected(ts, Set::empty()) == 0,
    decreases ts.len(),
{
    if ts.len() > 0 {
        lemma_count_none(ts.drop_last());
    }
}

/// No region is remembered when nothing is selected.
proof fn lemma_no_selected_regions(gs: Seq<ServerGroup>)
    ensures
        selected_region_ids(gs, Set::empty()) == Seq::<Seq<char>>::empty(),
    decreases gs.len(),
{
    if gs.len() > 0 {
        lemma_no_selected_regions(gs.drop_last());
        lemma_count_none(gs.last().targets@);
    }
}

/// What the app saves of a selection is what it starts with the next time,
/// where the firewall holds no rule of the app's: reading the settings
/// file gives back the typed path, the regions and the targets, and the
/// selection made from them is exactly the saved one.
pub proof fn lemma_remembered_selection(gs: Seq<ServerGroup>, selected: Seq<Seq<char>>, path: Seq<char>)
    requires
        forall|i: int|
            0 <= i < selected.len() ==> all_ids(gs).contains(#[trigger] selected[i]) && is_field(
                selected[i],
            ),
        lacks(path, '\n'),
    ensures
        ({
            let saved = (path_input(path), selected_region_ids(gs, selected.to_set()), selected);
            let loaded = parse_settings_spec(format_settings_spec(saved));
            &&& loaded == saved
            &&& initial_selection(gs, Seq::empty(), Seq::empty(), loaded.2, loaded.1)
                == selected.to_set()
        }),
{
    let regions = selected_region_ids(gs, selected.to_set());
    let saved = (path_input(path), regions, selected);
    lemma_trim_idempotent(path, '\n');
    lemma_selected_regions_fields(gs, selected.to_set());
    assert(settings_wf(saved));
    lemma_settings_roundtrip(saved);
    let known = all_ids(gs);
    assert(known_ids(Seq::<Seq<char>>::empty(), known) =~= Set::<Seq<char>>::empty());
    assert(known_ids(selected, known) =~= selected.to_set());
    if selected.len() == 0 {
        assert(selected.to_set() =~= Set::<Seq<char>>::empty());
        lemma_no_selected_regions(gs);
        assert(region_target_ids(gs, Seq::<Seq<char>>::empty()) =~= Set::<Seq<char>>::empty());
    } else {
        assert(selected.to_set().contains(selected[0]));
    }
}

/// Selecting a whole group makes all of its targets count as selected;
/// deselecting it makes none count.
pub proof fn lemma_group_toggle(g: ServerGroup, before: Set<Seq<char>>)
    ensures
        count_selected(g.targets@, before + ids_of(g.targets@).to_set()) == g.targets@.len(),
        count_selected(g.targets@, before - ids_of(g.targets@).to_set()) == 0,
{
    lemma_count_in(g.targets@, g.targets@, before);
}

proof fn lemma_count_in(ts: Seq<ServerTarget>, all: Seq<ServerTarget>, before: Set<Seq<char>>)
    requires
        forall|i: int| 0 <= i < ts.len() ==> all.contains(#[trigger] ts[i]),
    ensures
        count_selected(ts, before + ids_of(all).to_set()) == ts.len(),
        count_selected(ts, before - ids_of(all).to_set()) == 0,
    decreases ts.len(),
{
    if ts.len() > 0 {
        let t = ts.last();
        assert(all.contains(ts[ts.len() - 1]));
        let k = choose|k: int| 0 <= k < all.len() && all[k] == t;
        assert(ids_of(all)[k] == t.id@);
        assert(ids_of(all).to_set().contains(t.id@));
        assert forall|i: int| 0 <= i < ts.drop_last().len() implies all.contains(
            #[trigger] ts.drop_last()[i],
        ) by {
            assert(ts.drop_last()[i] == ts[i]);
        }
        lemma_count_in(ts.drop_last(), all, before);
    }
}

/// Whether `t` is a target of one of the groups.
pub open spec fn listed(gs: Seq<ServerGroup>, t: ServerTarget) -> bool {
    exists|g: int| 0 <= g < gs.len() && (#[trigger] gs[g].targets@).contains(t)
}

/// Whether `x` is an address of a target of the list whose id is selected.
pub open spec fn selected_address(gs: Seq<ServerGroup>, ids: Set<Seq<char>>, x: Seq<char>) -> bool {
    exists|t: ServerTarget|
        #[trigger] listed(gs, t) && ids.contains(t.id@) && t.addresses.deep_view().contains(x)
}

/// An address is in the addresses of a list of targets exactly when it is an
/// address of one of them.
proof fn lemma_addresses_of(ts: Seq<ServerTarget>, x: Seq<char>)
    ensures
        target_addresses(ts).contains(x) <==> exists|t: ServerTarget|
            #[trigger] ts.contains(t) && t.addresses.deep_view().contains(x),
    decreases ts.len(),
{
    if ts.len() > 0 {
        let init = ts.drop_last();
        let last = ts.last();
        lemma_addresses_of(init, x);
        let a = target_addresses(init);
        let b = last.addresses.deep_view();
        assert(ts[ts.len() - 1] == last);
        if (a + b).contains(x) {
            let k = choose|k: int| 0 <= k < (a + b).len() && (a + b)[k] == x;
            if k < a.len() {
                assert(a[k] == x);
                let t = choose|t: ServerTarget| #[trigger] init.contains(t) && t.addresses.deep_view().contains(x);
                let i = choose|i: int| 0 <= i < init.len() && init[i] == t;
                assert(ts[i] == t);
                assert(ts.contains(t));
            } else {
                assert(b[k - a.len()] == x);
                assert(ts.contains(last));
            }
        }
        if exists|t: ServerTarget| #[trigger] ts.contains(t) && t.addresses.deep_view().contains(x) {
            let t = choose|t: ServerTarget| #[trigger] ts.contains(t) && t.addresses.deep_view().contains(x);
            let i = choose|i: int| 0 <= i < ts.len() && ts[i] == t;
            if i < ts.len() - 1 {
                assert(init[i] == t);
                assert(init.contains(t));
                let k = choose|k: int| 0 <= k < a.len() && a[k] == x;
                assert((a + b)[k] == x);
            } else {
                let k = choose|k: int| 0 <= k < b.len() && b[k] == x;
                assert((a + b)[a.len() + k] == x);
            }
        }
    }
}

/// The selected targets of one group are the group's targets whose id is
/// selected.
proof fn lemma_selected_in_group(g: ServerGroup, ts: Seq<ServerTarget>, ids: Set<Seq<char>>, t: ServerTarget)
    ensures
        selected_in_group(g, ts, ids).map_values(|p: (ServerGroup, ServerTarget)| p.1).contains(t)
            <==> ts.contains(t) && ids.contains(t.id@),
    decreases ts.len(),
{
    if ts.len() > 0 {
        let init = ts.drop_last();
        let last = ts.last();
        lemma_selected_in_group(g, init, ids, t);
        let prev = selected_in_group(g, init, ids).map_values(|p: (ServerGroup, ServerTarget)| p.1);
        let now = selected_in_group(g, ts, ids).map_values(|p: (ServerGroup, ServerTarget)| p.1);
        assert(ts =~= init.push(last));
        assert(ts.contains(t) == (init.contains(t) || t == last)) by {
            if ts.contains(t) {
                let i = choose|i: int| 0 <= i < ts.len() && ts[i] == t;
                if i < ts.len() - 1 {
                    assert(init[i] == t);
                }
            }
            if init.contains(t) {
                let i = choose|i: int| 0 <= i < init.len() && init[i] == t;
                assert(ts[i] == t);
            }
            if t == last {
                assert(ts[ts.len() - 1] == t);
            }
        }
        if ids.contains(last.id@) {
            assert(now =~= prev.push(last));
            assert(now.contains(t) == (prev.contains(t) || t == last)) by {
                if now.contains(t) {
                    let i = choose|i: int| 0 <= i < now.len() && now[i] == t;
                    if i < prev.len() {
                        assert(prev[i] == t);
                    }
                }
                if prev.contains(t) {
                    let i = choose|i: int| 0 <= i < prev.len() && prev[i] == t;
                    assert(now[i] == t);
                }
                if t == last {
                    assert(now[prev.len() as int] == t);
                }
            }
        } else {
            assert(now =~= prev);
        }
    }
}

/// The selected targets of the list are its targets whose id is selected.
proof fn lemma_selected_pairs(gs: Seq<ServerGroup>, ids: Set<Seq<char>>, t: ServerTarget)
    ensures
        selected_pairs(gs, ids).map_values(|p: (ServerGroup, ServerTarget)| p.1).contains(t)
            <==> listed(gs, t) && ids.contains(t.id@),
    decreases gs.len(),
{
    if gs.len() > 0 {
        let init = gs.drop_last();
        let last = gs.last();
        lemma_selected_pairs(init, ids, t);
        lemma_selected_in_group(last, last.targets@, ids, t);
        let a = selected_pairs(init, ids).map_values(|p: (ServerGroup, ServerTarget)| p.1);
        let b = selected_in_group(last, last.targets@, ids).map_values(
            |p: (ServerGroup, ServerTarget)| p.1,
        );
        let now = selected_pairs(gs, ids).map_values(|p: (ServerGroup, ServerTarget)| p.1);
        assert(now =~= a + b);
        assert(gs[gs.len() - 1] == last);
        if now.contains(t) {
            let k = choose|k: int| 0 <= k < now.len() && now[k] == t;
            if k < a.len() {
                assert(a[k] == t);
                let g = choose|g: int| 0 <= g < init.len() && (#[trigger] init[g].targets@).contains(t);
                assert(gs[g] == init[g]);
            } else {
                assert(b[k - a.len()] == t);
            }
        }
        if listed(gs, t) && ids.contains(t.id@) {
            let g = choose|g: int| 0 <= g < gs.len() && (#[trigger] gs[g].targets@).contains(t);
            if g < gs.len() - 1 {
                assert(init[g] == gs[g]);
                assert(listed(init, t));
                let k = choose|k: int| 0 <= k < a.len() && a[k] == t;
                assert(now[k] == t);
            } else {
                let k = choose|k: int| 0 <= k < b.len() && b[k] == t;
                assert(now[a.len() + k] == t);
            }
        }
        if listed(init, t) {
            let g = choose|g: int| 0 <= g < init.len() && (#[trigger] init[g].targets@).contains(t);
            assert(gs[g] == init[g]);
        }
    }
}

/// The rule for a selection blocks exactly the addresses of the selected
/// targets, each once.
pub proof fn lemma_plan_blocks_selection(gs: Seq<ServerGroup>, ids: Set<Seq<char>>, x: Seq<char>)
    ensures
        dedupe(
            target_addresses(selected_pairs(gs, ids).map_values(|p: (ServerGroup, ServerTarget)| p.1)),
        ).contains(x) <==> selected_address(gs, ids, x),
        dedupe(
            target_addresses(selected_pairs(gs, ids).map_values(|p: (ServerGroup, ServerTarget)| p.1)),
        ).no_duplicates(),
{
    let ts = selected_pairs(gs, ids).map_values(|p: (ServerGroup, ServerTarget)| p.1);
    let xs = target_addresses(ts);
    lemma_dedupe_distinct(xs);
    lemma_addresses_of(ts, x);
    assert(dedupe(xs).contains(x) <==> xs.contains(x)) by {
        assert(dedupe(xs).contains(x) <==> dedupe(xs).to_set().contains(x));
        assert(xs.contains(x) <==> xs.to_set().contains(x));
    }
    if xs.contains(x) {
        let t = choose|t: ServerTarget| #[trigger] ts.contains(t) && t.addresses.deep_view().contains(x);
        lemma_selected_pairs(gs, ids, t);
        assert(listed(gs, t));
    }
    if selected_address(gs, ids, x) {
        let t = choose|t: ServerTarget|
            #[trigger] listed(gs, t) && ids.contains(t.id@) && t.addresses.deep_view().contains(x);
        lemma_selected_pairs(gs, ids, t);
        assert(ts.contains(t));
    }
}

/// What the window starts with: the selected targets, the path shown and
/// the report shown.
pub struct StartState {
    pub selected_targets: TargetIdSet,
    pub overwatch_path: String,
    pub last_report: FirewallReport,
}

/// The settings that a load gave: those read, or the defaults where reading
/// failed.
pub open spec fn loaded_settings(loaded: Result<AppSettings, String>) -> crate::settings::SettingsView {
    match loaded {
        Ok(s) => s@,
        Err(_) => (None::<Seq<char>>, Seq::<Seq<char>>::empty(), Seq::<Seq<char>>::empty()),
    }
}

/// The state to start with, from the firewall's status, the outcome of
/// loading the settings file at `settings_path`, and the path detected on
/// disk: the rule's path, else the remembered one, else the detected one,
/// else the usual install location; the selection of
/// `initial_selected_targets`; a report of a failed load, else the idle
/// report.
pub fn start_state(
    servers: &[ServerGroup],
    status: &FirewallStatus,
    loaded: Result<AppSettings, String>,
    settings_path: &str,
    detected_path: Option<String>,
) -> (r: StartState)
    ensures
        r.selected_targets@.to_set() == initial_selection(
            servers@,
            status.active_targets.deep_view(),
            status.active_regions.deep_view(),
            loaded_settings(loaded).2,
            loaded_settings(loaded).1,
        ),
        r.overwatch_path@ == match (
            crate::firewall::opt_view(status.application_path),
            loaded_settings(loaded).0,
            crate::firewall::opt_view(detected_path),
        ) {
            (Some(p), _, _) => p,
            (None, Some(p), _) => p,
            (None, None, Some(p)) => p,
            (None, None, None) => "C:\\Program Files (x86)\\Overwatch\\_retail_\\Overwatch.exe"@,
        },
        match loaded {
            Ok(_) => r.last_report.ok && r.last_report.summary@ == "No action applied yet."@,
            Err(e) => !r.last_report.ok && r.last_report.summary@ == "Could not load settings from "@
                + settings_path@ + ": "@ + e@,
        },
{
    let ghost view = loaded_settings(loaded);
    let (settings, report) = load_settings_report(loaded, settings_path);
    assert(settings@ == view);
    let rule_path = match &status.application_path {
        Some(p) => Some(p.clone()),
        None => None,
    };
    let remembered_path = match &settings.overwatch_path {
        Some(p) => Some(p.clone()),
        None => None,
    };
    let overwatch_path = initial_overwatch_path(rule_path, remembered_path, detected_path);
    let selected_targets = initial_selected_targets(servers, status, &settings);
    let last_report = match report {
        Some(rep) => rep,
        None => FirewallReport::idle(),
    };
    StartState { selected_targets, overwatch_path, last_report }
}

} // verus!
