//! The firewall rule as the app sees it: the status it reports, the text it
//! keeps in the rule's description, and the decisions around applying and
//! removing the rule.
use vstd::prelude::*;
use crate::ip::dec_text;
use crate::plan::FirewallPlan;
use crate::text::{
    lines, strip_prefix, trimmed_fields, join, chars_of, line_bounds, range_texts, trim,
    trim_bounds, split_on, push_char, lacks,
    lemma_split_lacks, lemma_split_on_concat, lemma_fields_of_join, lemma_join_lacks,
    lemma_lacks_concat, strip_cr,
};

verus! {

/// What the firewall backend reports about the app's rule.
#[derive(Clone, Debug)]
pub struct FirewallStatus {
    pub backend_name: &'static str,
    pub is_admin: bool,
    pub rule_active: bool,
    pub active_regions: Vec<String>,
    pub active_targets: Vec<String>,
    pub active_address_count: usize,
    pub application_path: Option<String>,
    pub note: String,
    pub last_error: Option<String>,
}

/// The outcome of an action, as shown to the user.
#[derive(Clone, Debug)]
pub struct FirewallReport {
    pub ok: bool,
    pub summary: String,
}

impl FirewallReport {
    /// The report before any action.
    pub fn idle() -> (r: Self)
        ensures
            r.ok,
            r.summary@ == "No action applied yet."@,
    {
        FirewallReport { ok: true, summary: "No action applied yet.".to_string() }
    }

    /// A failed action with its message.
    pub fn error(summary: &str) -> (r: Self)
        ensures
            !r.ok,
            r.summary@ == summary@,
    {
        FirewallReport { ok: false, summary: summary.to_string() }
    }
}

/// The name of the rule that the app owns.
pub open spec fn rule_name() -> Seq<char> {
    "OWServerBlocker - Overwatch.exe"@
}

/// The rule's name, group and backend name.
pub fn rule_name_text() -> (r: &'static str)
    ensures
        r@ == rule_name(),
{
    "OWServerBlocker - Overwatch.exe"
}

/// The Windows Firewall backend's memory between calls: the last error.
pub struct WindowsFirewall {
    last_error: Option<String>,
}

/// An optional text as plain characters.
pub open spec fn opt_view(o: Option<String>) -> Option<Seq<char>> {
    match o {
        Some(s) => Some(s@),
        None => None,
    }
}

impl WindowsFirewall {
    /// The error of the last failed call, if the last call failed.
    pub closed spec fn last_error_view(&self) -> Option<Seq<char>> {
        opt_view(self.last_error)
    }

    /// A backend with no error yet.
    pub fn new() -> (r: Self)
        ensures
            r.last_error_view() is None,
    {
        WindowsFirewall { last_error: None }
    }

    /// The last error, if any.
    pub fn last_error(&self) -> (r: Option<String>)
        ensures
            opt_view(r) == self.last_error_view(),
    {
        match &self.last_error {
            Some(e) => Some(e.clone()),
            None => None,
        }
    }

    /// Records the outcome of applying a plan: a success clears the last
    /// error and is reported as it is; a failure becomes the last error and
    /// a failed report with its message.
    pub fn sync(&mut self, outcome: Result<FirewallReport, String>) -> (r: FirewallReport)
        ensures
            match outcome {
                Ok(report) => r == report && final(self).last_error_view() is None,
                Err(e) => !r.ok && r.summary@ == e@ && final(self).last_error_view() == Some(e@),
            },
    {
        match outcome {
            Ok(report) => {
                self.last_error = None;
                report
            },
            Err(error) => {
                let r = FirewallReport { ok: false, summary: error.clone() };
                self.last_error = Some(error);
                r
            },
        }
    }

    /// Records the outcome of removing the rule, as `sync` does.
    pub fn unblock_all(&mut self, outcome: Result<FirewallReport, String>) -> (r: FirewallReport)
        ensures
            match outcome {
                Ok(report) => r == report && final(self).last_error_view() is None,
                Err(e) => !r.ok && r.summary@ == e@ && final(self).last_error_view() == Some(e@),
            },
    {
        self.sync(outcome)
    }

    /// The status to show: the one read, or, where reading failed, an
    /// inactive status that carries the error, which also becomes the last
    /// error.
    pub fn status(&mut self, outcome: Result<FirewallStatus, String>, is_admin: bool) -> (r:
        FirewallStatus)
        ensures
            match outcome {
                Ok(status) => r == status && final(self).last_error_view()
                    == old(self).last_error_view(),
                Err(e) => {
                    &&& r.backend_name@ == "Windows Firewall"@
                    &&& r.is_admin == is_admin
                    &&& !r.rule_active
                    &&& r.active_regions@.len() == 0
                    &&& r.active_targets@.len() == 0
                    &&& r.active_address_count == 0
                    &&& r.application_path is None
                    &&& r.note@ == "Could not read Windows Firewall status."@
                    &&& opt_view(r.last_error) == Some(e@)
                    &&& final(self).last_error_view() == Some(e@)
                },
            },
    {
        match outcome {
            Ok(status) => status,
            Err(error) => {
                self.last_error = Some(error.clone());
                FirewallStatus {
                    backend_name: "Windows Firewall",
                    is_admin,
                    rule_active: false,
                    active_regions: Vec::new(),
                    active_targets: Vec::new(),
                    active_address_count: 0,
                    application_path: None,
                    note: "Could not read Windows Firewall status.".to_string(),
                    last_error: Some(error),
                }
            },
        }
    }

    /// The status when the rule does not exist.
    pub fn status_without_rule(&self, is_admin: bool) -> (r: FirewallStatus)
        ensures
            r.backend_name@ == "Windows Firewall"@,
            r.is_admin == is_admin,
            !r.rule_active,
            r.active_regions@.len() == 0,
            r.active_targets@.len() == 0,
            r.active_address_count == 0,
            r.application_path is None,
            r.note@ == "No active OWServerBlocker rule found."@,
            opt_view(r.last_error) == self.last_error_view(),
    {
        FirewallStatus {
            backend_name: "Windows Firewall",
            is_admin,
            rule_active: false,
            active_regions: Vec::new(),
            active_targets: Vec::new(),
            active_address_count: 0,
            application_path: None,
            note: "No active OWServerBlocker rule found.".to_string(),
            last_error: self.last_error(),
        }
    }

    /// The status of the existing rule from what the firewall holds: it is
    /// active when enabled and blocking at least one address; the regions
    /// come from its description, the path from its application name where
    /// that is not blank.
    pub fn status_of_rule(
        &self,
        is_admin: bool,
        enabled: bool,
        remote_addresses: &str,
        description: &str,
        application_name: &str,
    ) -> (r: FirewallStatus)
        ensures
            r.backend_name@ == "Windows Firewall"@,
            r.is_admin == is_admin,
            r.active_address_count == trimmed_fields(remote_addresses@, ',').len(),
            r.rule_active == (enabled && r.active_address_count > 0),
            r.active_regions.deep_view() == decode_regions_spec(description@),
            r.active_targets@.len() == 0,
            opt_view(r.application_path) == (if trim(application_name@).len() == 0 {
                None::<Seq<char>>
            } else {
                Some(application_name@)
            }),
            r.note@ == (if enabled {
                "Single OWServerBlocker rule found."@
            } else {
                "Rule exists, but it is disabled."@
            }),
            opt_view(r.last_error) == self.last_error_view(),
    {
        let count = count_remote_addresses(remote_addresses);
        let regions = decode_regions(description);
        let name = chars_of(application_name);
        let (a, b) = trim_bounds(&name, 0, name.len());
        assert(name@.subrange(0, name@.len() as int) =~= name@);
        let application_path = if a == b {
            None
        } else {
            Some(application_name.to_string())
        };
        FirewallStatus {
            backend_name: "Windows Firewall",
            is_admin,
            rule_active: enabled && count > 0,
            active_regions: regions,
            active_targets: Vec::new(),
            active_address_count: count,
            application_path,
            note: if enabled {
                "Single OWServerBlocker rule found.".to_string()
            } else {
                "Rule exists, but it is disabled.".to_string()
            },
            last_error: self.last_error(),
        }
    }
}

/// The status that a system without Windows Firewall reports.
pub fn unavailable_status() -> (r: FirewallStatus)
    ensures
        r.backend_name@ == "unavailable"@,
        !r.is_admin,
        !r.rule_active,
        r.active_regions@.len() == 0,
        r.active_targets@.len() == 0,
        r.active_address_count == 0,
        r.application_path is None,
        r.note@ == "Windows Firewall is only available on Windows."@,
        r.last_error is None,
{
    FirewallStatus {
        backend_name: "unavailable",
        is_admin: false,
        rule_active: false,
        active_regions: Vec::new(),
        active_targets: Vec::new(),
        active_address_count: 0,
        application_path: None,
        note: "Windows Firewall is only available on Windows.".to_string(),
        last_error: None,
    }
}

/// The report of any action on a system without Windows Firewall.
pub fn unavailable_report() -> (r: FirewallReport)
    ensures
        !r.ok,
        r.summary@ == "Windows Firewall is only available on Windows."@,
{
    FirewallReport::error("Windows Firewall is only available on Windows.")
}

/// A firewall that the app asks for the state of its rule and tells to
/// apply a plan or to remove the rule.
pub trait FirewallBackend {
    fn status(&mut self) -> FirewallStatus;

    fn sync(&mut self, plan: FirewallPlan) -> FirewallReport;

    fn unblock_all(&mut self) -> FirewallReport;
}

/// The backend of a system without Windows Firewall: it reports so and
/// refuses every action.
pub struct UnavailableFirewall;

impl FirewallBackend for UnavailableFirewall {
    fn status(&mut self) -> (r: FirewallStatus)
        ensures
            r.backend_name@ == "unavailable"@,
            !r.is_admin,
            !r.rule_active,
            r.active_regions@.len() == 0,
            r.active_targets@.len() == 0,
            r.active_address_count == 0,
            r.application_path is None,
            r.note@ == "Windows Firewall is only available on Windows."@,
            r.last_error is None,
    {
        unavailable_status()
    }

    fn sync(&mut self, plan: FirewallPlan) -> (r: FirewallReport)
        ensures
            !r.ok,
            r.summary@ == "Windows Firewall is only available on Windows."@,
    {
        unavailable_report()
    }

    fn unblock_all(&mut self) -> (r: FirewallReport)
        ensures
            !r.ok,
            r.summary@ == "Windows Firewall is only available on Windows."@,
    {
        unavailable_report()
    }
}

/// The fixed traits of a firewall rule: its direction, its verdict, whether
/// it is enabled, the profiles and the protocol it covers.
#[derive(Clone, Copy, Debug, PartialEq, Eq)]
pub struct RuleTraits {
    pub outbound: bool,
    pub block: bool,
    pub enabled: bool,
    pub all_profiles: bool,
    pub any_protocol: bool,
}

/// The app's rule is an enabled outbound block, for every profile and any
/// protocol.
pub open spec fn blocking_traits() -> RuleTraits {
    RuleTraits { outbound: true, block: true, enabled: true, all_profiles: true, any_protocol: true }
}

/// What the firewall is to do with the app's rule.
pub enum RuleAction {
    /// Remove the rule; nothing is selected.
    Remove,
    /// Replace the rule with one of `traits` that blocks `remote_addresses`
    /// (comma-separated) for `application_path`, described by `description`.
    Replace {
        description: String,
        application_path: String,
        remote_addresses: String,
        traits: RuleTraits,
    },
}

/// The rule for a plan that `validate_for_apply` accepted: none where no
/// region is selected; otherwise one rule blocking all the plan's addresses
/// for its executable, refused where the address list is blank.
pub fn rule_action(plan: &FirewallPlan) -> (r: Result<RuleAction, String>)
    requires
        plan.selected_regions@.len() > 0 ==> plan.application_path is Some,
    ensures
        plan.selected_regions@.len() == 0 ==> r matches Ok(RuleAction::Remove),
        plan.selected_regions@.len() > 0 ==> match r {
            Ok(RuleAction::Replace { description, application_path, remote_addresses, traits }) => {
                &&& traits == blocking_traits()
                &&& remote_addresses@ == join(plan.remote_addresses.deep_view(), seq![','])
                &&& trim(remote_addresses@).len() > 0
                &&& description@ == description_text(
                    plan.selected_regions.deep_view(),
                    plan.remote_addresses@.len(),
                )
                &&& Some(application_path@) == opt_view(plan.application_path)
            },
            Ok(RuleAction::Remove) => false,
            Err(e) => trim(join(plan.remote_addresses.deep_view(), seq![','])).len() == 0 && e@
                == "Empty IP list. The rule will not be enabled for safety."@,
        },
{
    if plan.selected_regions.len() == 0 {
        return Ok(RuleAction::Remove);
    }
    let mut joined = String::new();
    crate::settings::append_joined(&mut joined, &plan.remote_addresses);
    assert(joined@ =~= join(plan.remote_addresses.deep_view(), seq![',']));
    let jc = chars_of(joined.as_str());
    let (a, b) = trim_bounds(&jc, 0, jc.len());
    assert(jc@.subrange(0, jc@.len() as int) =~= jc@);
    if a == b {
        return Err("Empty IP list. The rule will not be enabled for safety.".to_string());
    }
    let description = encode_description(&plan.selected_regions, plan.remote_addresses.len());
    let application_path = match &plan.application_path {
        Some(p) => p.clone(),
        None => String::new(),
    };
    let traits = RuleTraits {
        outbound: true,
        block: true,
        enabled: true,
        all_profiles: true,
        any_protocol: true,
    };
    Ok(RuleAction::Replace { description, application_path, remote_addresses: joined, traits })
}

/// The report after the firewall carried out `action`.
pub fn applied_report(action: &RuleAction) -> (r: FirewallReport)
    ensures
        r.ok,
        action matches RuleAction::Remove ==> r.summary@ == "No servers selected. Rule removed."@,
        action matches RuleAction::Replace { .. } ==> r.summary@
            == "Windows Firewall rule synchronized."@,
{
    match action {
        RuleAction::Remove => FirewallReport {
            ok: true,
            summary: "No servers selected. Rule removed.".to_string(),
        },
        RuleAction::Replace { .. } => FirewallReport {
            ok: true,
            summary: "Windows Firewall rule synchronized.".to_string(),
        },
    }
}

/// The report after the rule was removed on request.
pub fn removed_report() -> (r: FirewallReport)
    ensures
        r.ok,
        r.summary@ == "OWServerBlocker rule removed."@,
{
    FirewallReport { ok: true, summary: "OWServerBlocker rule removed.".to_string() }
}

/// The rule description: a header line, the selected regions separated by
/// semicolons, and the number of addresses.
pub open spec fn description_text(regions: Seq<Seq<char>>, address_count: nat) -> Seq<char> {
    "OWServerBlocker\nregions="@ + join(regions, seq![';']) + "\naddresses="@ + dec_text(
        address_count,
    )
}

/// The regions that a description names: the semicolon-separated, trimmed,
/// non-empty entries of its first `regions=` line; none without such a line.
pub open spec fn decode_regions_spec(description: Seq<char>) -> Seq<Seq<char>> {
    regions_in_lines(lines(description))
}

/// The entries of the first `regions=` line among `ls`.
pub open spec fn regions_in_lines(ls: Seq<Seq<char>>) -> Seq<Seq<char>>
    decreases ls.len(),
{
    if ls.len() == 0 {
        Seq::empty()
    } else {
        match strip_prefix(ls[0], "regions="@) {
            Some(rest) => trimmed_fields(rest, ';'),
            None => regions_in_lines(ls.drop_first()),
        }
    }
}

/// Appends the decimal text of `n`.
pub(crate) fn push_dec_usize(out: &mut String, n: usize)
    ensures
        final(out)@ == old(out)@ + dec_text(n as nat),
    decreases n,
{
    let ghost o = out@;
    if n >= 10 {
        push_dec_usize(out, n / 10);
    }
    let d = (n % 10) as u8;
    push_char(out, (d + 48) as char);
    assert(out@ =~= o + dec_text(n as nat));
}

/// Appends the items joined with semicolons.
fn append_joined_semicolon(out: &mut String, items: &Vec<String>)
    ensures
        final(out)@ == old(out)@ + join(items.deep_view(), seq![';']),
{
    let ghost o = out@;
    let mut i: usize = 0;
    assert(items.deep_view().take(0) =~= Seq::<Seq<char>>::empty());
    assert(out@ =~= o + join(items.deep_view().take(0), seq![';']));
    while i < items.len()
        invariant
            0 <= i <= items.len(),
            out@ == o + join(items.deep_view().take(i as int), seq![';']),
        decreases items.len() - i,
    {
        let ghost prev = items.deep_view().take(i as int);
        let ghost next = items.deep_view().take(i + 1);
        assert(next.drop_last() =~= prev);
        assert(next.last() == items[i as int]@);
        if i > 0 {
            push_char(out, ';');
        }
        out.append(items[i].as_str());
        if i > 0 {
            assert(join(next, seq![';']) == join(prev, seq![';']) + seq![';'] + items[i as int]@);
        } else {
            assert(join(next, seq![';']) == items[i as int]@);
        }
        assert(out@ =~= o + join(next, seq![';']));
        i = i + 1;
    }
    assert(items.deep_view().take(items.len() as int) =~= items.deep_view());
}

/// The rule description for the regions and the address count.
pub fn encode_description(regions: &Vec<String>, address_count: usize) -> (r: String)
    ensures
        r@ == description_text(regions.deep_view(), address_count as nat),
{
    let mut out = String::new();
    out.append("OWServerBlocker\nregions=");
    append_joined_semicolon(&mut out, regions);
    out.append("\naddresses=");
    push_dec_usize(&mut out, address_count);
    out
}

/// The regions that the description names.
pub fn decode_regions(description: &str) -> (r: Vec<String>)
    ensures
        r.deep_view() == decode_regions_spec(description@),
{
    let s = chars_of(description);
    let ls = line_bounds(&s);
    let ghost lns = lines(s@);
    assert(lns.skip(0) =~= lns);
    let mut i: usize = 0;
    while i < ls.len()
        invariant
            0 <= i <= ls.len(),
            lns == lines(s@),
            range_texts(s@, ls@) == lns,
            forall|k: int| 0 <= k < ls@.len() ==> (#[trigger] ls@[k]).0 <= ls@[k].1 <= s@.len(),
            regions_in_lines(lns.skip(i as int)) == regions_in_lines(lns),
            s@ == description@,
        decreases ls.len() - i,
    {
        let (a, b) = ls[i];
        let ghost line = s@.subrange(a as int, b as int);
        assert(lns[i as int] == line);
        assert(lns.skip(i as int)[0] == line);
        assert(lns.skip(i as int).drop_first() =~= lns.skip(i + 1));
        if crate::settings::has_prefix(&s, a, b, "regions=") {
            assert("regions="@.len() == 8) by {
                reveal_strlit("regions=");
            }
            assert(line.skip(8) =~= s@.subrange(a + 8, b as int));
            assert(strip_prefix(line, "regions="@) == Some(line.skip(8)));
            assert(regions_in_lines(lns.skip(i as int)) == trimmed_fields(line.skip(8), ';'));
            return crate::settings::fields_of_sep(&s, a + 8, b, ';');
        }
        i = i + 1;
    }
    Vec::new()
}

/// The number of non-blank comma-separated entries of the rule's address list.
pub fn count_remote_addresses(remote_addresses: &str) -> (r: usize)
    ensures
        r == trimmed_fields(remote_addresses@, ',').len(),
{
    let s = chars_of(remote_addresses);
    assert(s@.subrange(0, s@.len() as int) =~= s@);
    let fields = crate::settings::fields_of_sep(&s, 0, s.len(), ',');
    fields.len()
}

/// A region name that the rule description keeps as it is: non-empty,
/// trimmed, without semicolons or line breaks.
pub open spec fn is_region_entry(e: Seq<char>) -> bool {
    e.len() > 0 && trim(e) == e && lacks(e, ';') && lacks(e, '\n')
}

/// Decoding the description of a rule gives back its regions.
pub proof fn lemma_description_roundtrip(regions: Seq<Seq<char>>, address_count: nat)
    requires
        forall|i: int| 0 <= i < regions.len() ==> is_region_entry(#[trigger] regions[i]),
    ensures
        decode_regions_spec(description_text(regions, address_count)) == regions,
{
    reveal_strlit("OWServerBlocker\nregions=");
    reveal_strlit("\naddresses=");
    reveal_strlit("OWServerBlocker");
    reveal_strlit("regions=");
    reveal_strlit("addresses=");
    let l1 = "OWServerBlocker"@;
    let j = join(regions, seq![';']);
    let l2 = "regions="@ + j;
    let l3 = "addresses="@ + dec_text(address_count);
    let nl = seq!['\n'];
    let text = description_text(regions, address_count);
    assert(text =~= l1 + nl + (l2 + nl + l3));
    assert forall|i: int| 0 <= i < regions.len() implies lacks(#[trigger] regions[i], '\n') by {}
    lemma_join_lacks(regions, ';', '\n');
    lemma_lacks_concat("regions="@, j, '\n');
    crate::ip::lemma_dec_text_digits(address_count);
    lemma_lacks_concat("addresses="@, dec_text(address_count), '\n');
    lemma_split_lacks(l1, '\n');
    lemma_split_lacks(l2, '\n');
    lemma_split_lacks(l3, '\n');
    lemma_split_on_concat(l2, l3, '\n');
    lemma_split_on_concat(l1, l2 + nl + l3, '\n');
    let pieces = split_on(text, '\n');
    assert(pieces =~= seq![l1, l2, l3]);
    assert(l3.len() > 0);
    assert(strip_cr(l1) == l1);
    if regions.len() > 0 {
        assert(is_region_entry(regions[regions.len() - 1]));
        crate::text::lemma_trimmed_ends(regions.last());
        crate::text::lemma_join_last(regions, seq![';']);
        assert(l2.last() == j.last());
    } else {
        assert(l2 =~= "regions="@);
    }
    assert(strip_cr(l2) == l2);
    let ls = lines(text);
    assert(ls =~= seq![l1, l2, l3]);
    assert(strip_prefix(l1, "regions="@) is None) by {
        assert(l1.take(8)[0] != "regions="@[0]);
    }
    assert(ls.drop_first() =~= seq![l2, l3]);
    assert(ls[0] == l1);
    assert(ls.drop_first()[0] == l2);
    assert(strip_prefix(l2, "regions="@) == Some(j)) by {
        assert(l2.take(8) =~= "regions="@);
        assert(l2.skip(8) =~= j);
    }
    assert forall|i: int|
        0 <= i < regions.len() implies trim(#[trigger] regions[i]) == regions[i] && regions[i].len()
        > 0 && !regions[i].contains(';') by {
        assert(is_region_entry(regions[i]));
    }
    lemma_fields_of_join(regions, ';');
    assert(regions_in_lines(ls.drop_first()) == trimmed_fields(j, ';'));
    assert(regions_in_lines(ls) == regions_in_lines(ls.drop_first()));
}

/// What the status reads back of the rule written for a plan: the rule's
/// description gives back the plan's regions, and its address list counts
/// the plan's addresses.
pub proof fn lemma_rule_reads_back(regions: Seq<Seq<char>>, addresses: Seq<Seq<char>>)
    requires
        forall|i: int| 0 <= i < regions.len() ==> is_region_entry(#[trigger] regions[i]),
        forall|i: int|
            0 <= i < addresses.len() ==> trim(#[trigger] addresses[i]) == addresses[i]
                && addresses[i].len() > 0 && lacks(addresses[i], ','),
    ensures
        decode_regions_spec(description_text(regions, addresses.len())) == regions,
        trimmed_fields(join(addresses, seq![',']), ',').len() == addresses.len(),
{
    lemma_description_roundtrip(regions, addresses.len());
    assert forall|i: int| 0 <= i < addresses.len() implies !(#[trigger] addresses[i]).contains(',') by {
        if addresses[i].contains(',') {
            let k = choose|k: int| 0 <= k < addresses[i].len() && addresses[i][k] == ',';
            assert(addresses[i][k] != ',');
        }
    }
    lemma_fields_of_join(addresses, ',');
}

} // verus!
