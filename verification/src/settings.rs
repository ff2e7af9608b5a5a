//! The settings file: the chosen executable and the selected regions and
//! targets, one `key=value` line each.
use vstd::prelude::*;
use crate::text::{
    lines, trim, strip_prefix, trimmed_fields, join, chars_of, line_bounds, range_texts,
    trim_bounds, split_bounds, split_on, string_of_range, nonblank, lacks, is_ws, strip_cr,
    lemma_lacks_concat, lemma_join_lacks, lemma_join_last, lemma_trim_fixed, lemma_trimmed_ends,
    lemma_split_lacks, lemma_split_on_concat, lemma_fields_of_join,
};

use crate::plan::{join_path, join_path_exec};

verus! {

/// What the app remembers between runs.
#[derive(Clone, Debug, Eq, PartialEq)]
pub struct AppSettings {
    pub overwatch_path: Option<String>,
    pub selected_regions: Vec<String>,
    pub selected_targets: Vec<String>,
}

/// The settings as plain values.
pub type SettingsView = (Option<Seq<char>>, Seq<Seq<char>>, Seq<Seq<char>>);

impl AppSettings {
    /// The path, the regions and the targets.
    pub open spec fn view(&self) -> SettingsView {
        (
            match self.overwatch_path {
                Some(p) => Some(p@),
                None => None,
            },
            self.selected_regions.deep_view(),
            self.selected_targets.deep_view(),
        )
    }
}

impl Default for AppSettings {
    fn default() -> (r: Self)
        ensures
            r@ == (None::<Seq<char>>, Seq::<Seq<char>>::empty(), Seq::<Seq<char>>::empty()),
    {
        let r = AppSettings {
            overwatch_path: None,
            selected_regions: Vec::new(),
            selected_targets: Vec::new(),
        };
        assert(r@.1 =~= Seq::<Seq<char>>::empty());
        assert(r@.2 =~= Seq::<Seq<char>>::empty());
        r
    }
}

/// The folder that holds the app's settings folder: `APPDATA`, else
/// `LOCALAPPDATA`, else `.config` under `HOME`, else the working directory,
/// else `.`.
pub open spec fn settings_base(
    appdata: Option<Seq<char>>,
    local_appdata: Option<Seq<char>>,
    home: Option<Seq<char>>,
    current_dir: Option<Seq<char>>,
    sep: char,
) -> Seq<char> {
    match (appdata, local_appdata, home, current_dir) {
        (Some(p), _, _, _) => p,
        (None, Some(p), _, _) => p,
        (None, None, Some(h), _) => join_path(h, ".config"@, sep),
        (None, None, None, Some(d)) => d,
        (None, None, None, None) => "."@,
    }
}

/// An optional text as plain characters.
pub open spec fn str_opt(o: Option<&str>) -> Option<Seq<char>> {
    match o {
        Some(s) => Some(s@),
        None => None,
    }
}

/// The settings file, `OWServerBlocker/settings.ini` under the folder that
/// `settings_base` picks from the environment's values.
pub fn settings_path(
    appdata: Option<&str>,
    local_appdata: Option<&str>,
    home: Option<&str>,
    current_dir: Option<&str>,
    sep: char,
) -> (r: String)
    ensures
        r@ == join_path(
            join_path(
                settings_base(
                    str_opt(appdata),
                    str_opt(local_appdata),
                    str_opt(home),
                    str_opt(current_dir),
                    sep,
                ),
                "OWServerBlocker"@,
                sep,
            ),
            "settings.ini"@,
            sep,
        ),
{
    proof {
        reveal_strlit(".config");
        reveal_strlit("OWServerBlocker");
        reveal_strlit("settings.ini");
        assert(crate::plan::plain_name(".config"@));
        assert(crate::plan::plain_name("OWServerBlocker"@));
        assert(crate::plan::plain_name("settings.ini"@));
    }
    let base = match (appdata, local_appdata, home, current_dir) {
        (Some(p), _, _, _) => p.to_string(),
        (None, Some(p), _, _) => p.to_string(),
        (None, None, Some(h), _) => join_path_exec(h, ".config", sep),
        (None, None, None, Some(d)) => d.to_string(),
        (None, None, None, None) => ".".to_string(),
    };
    let dir = join_path_exec(base.as_str(), "OWServerBlocker", sep);
    join_path_exec(dir.as_str(), "settings.ini", sep)
}

/// The settings after reading one line: blank lines, `#` comments and
/// unknown keys change nothing; an empty path is ignored.
pub open spec fn settings_line(st: SettingsView, raw_line: Seq<char>) -> SettingsView {
    let line = trim(raw_line);
    if line.len() == 0 || line[0] == '#' {
        st
    } else {
        match strip_prefix(line, "overwatch_path="@) {
            Some(v) => if trim(v).len() > 0 {
                (Some(trim(v)), st.1, st.2)
            } else {
                st
            },
            None => match strip_prefix(line, "selected_regions="@) {
                Some(v) => (st.0, trimmed_fields(v, ','), st.2),
                None => match strip_prefix(line, "selected_targets="@) {
                    Some(v) => (st.0, st.1, trimmed_fields(v, ',')),
                    None => st,
                },
            },
        }
    }
}

/// The settings that the lines `ls` describe, read in order from the defaults.
pub open spec fn settings_of_lines(ls: Seq<Seq<char>>) -> SettingsView
    decreases ls.len(),
{
    if ls.len() == 0 {
        (None, Seq::empty(), Seq::empty())
    } else {
        settings_line(settings_of_lines(ls.drop_last()), ls.last())
    }
}

/// What `parse_settings` gives for `raw`.
pub open spec fn parse_settings_spec(raw: Seq<char>) -> SettingsView {
    settings_of_lines(lines(raw))
}

/// What `format_settings` writes for `st`.
pub open spec fn format_settings_spec(st: SettingsView) -> Seq<char> {
    "# OW Server Blocker settings\n"@ + "# This file is safe to delete; the app will recreate it.\n"@
        + "overwatch_path="@ + (match st.0 {
        Some(p) => p,
        None => Seq::empty(),
    }) + "\nselected_regions="@ + join(st.1, seq![',']) + "\nselected_targets="@ + join(
        st.2,
        seq![','],
    ) + "\n"@
}

/// The trimmed, non-empty `sep`-separated fields of `s[a..b]`.
pub(crate) fn fields_of_sep(s: &Vec<char>, a: usize, b: usize, sep: char) -> (r: Vec<String>)
    requires
        a <= b <= s.len(),
    ensures
        r.deep_view() == trimmed_fields(s@.subrange(a as int, b as int), sep),
{
    let fs = split_bounds(s, a, b, sep);
    let ghost pieces = split_on(s@.subrange(a as int, b as int), sep);
    let mut out: Vec<String> = Vec::new();
    let mut j: usize = 0;
    assert(pieces.take(0) =~= Seq::<Seq<char>>::empty());
    while j < fs.len()
        invariant
            0 <= j <= fs.len(),
            a <= b <= s@.len(),
            range_texts(s@, fs@) == pieces,
            pieces == split_on(s@.subrange(a as int, b as int), sep),
            forall|k: int| 0 <= k < fs@.len() ==> a <= (#[trigger] fs@[k]).0 <= fs@[k].1 <= b,
            out.deep_view() == nonblank(pieces.take(j as int)),
        decreases fs.len() - j,
    {
        let (fa0, fb0) = fs[j];
        assert(pieces[j as int] == s@.subrange(fa0 as int, fb0 as int));
        let (fa, fb) = trim_bounds(s, fa0, fb0);
        assert(pieces.take(j + 1).drop_last() =~= pieces.take(j as int));
        assert(pieces.take(j + 1).last() == pieces[j as int]);
        if fa != fb {
            let ghost d = out.deep_view();
            out.push(string_of_range(s, fa, fb));
            assert(out.deep_view() =~= d.push(s@.subrange(fa as int, fb as int)));
        }
        j = j + 1;
    }
    assert(pieces.take(fs.len() as int) =~= pieces);
    out
}

/// Whether `s[a..b]` starts with the chars of `p`.
pub(crate) fn has_prefix(s: &Vec<char>, a: usize, b: usize, p: &str) -> (r: bool)
    requires
        a <= b <= s.len(),
    ensures
        r == (strip_prefix(s@.subrange(a as int, b as int), p@) is Some),
{
    let pc = chars_of(p);
    if pc.len() > b - a {
        return false;
    }
    let mut i: usize = 0;
    while i < pc.len()
        invariant
            0 <= i <= pc.len() <= b - a,
            a <= b <= s.len(),
            pc@ == p@,
            forall|k: int| 0 <= k < i ==> s@[a + k] == pc@[k],
        decreases pc.len() - i,
    {
        if s[a + i] != pc[i] {
            assert(s@.subrange(a as int, b as int).take(pc@.len() as int)[i as int] != p@[i as int]);
            return false;
        }
        i = i + 1;
    }
    assert(s@.subrange(a as int, b as int).take(pc@.len() as int) =~= p@);
    true
}

/// Reads the settings file text: `key=value` lines for `overwatch_path`,
/// `selected_regions` and `selected_targets` (comma-separated), where
/// blank lines, `#` comments and unknown keys are skipped and a later line
/// overrides an earlier one.
pub fn parse_settings(raw: &str) -> (r: AppSettings)
    ensures
        r@ == parse_settings_spec(raw@),
{
    let s = chars_of(raw);
    let ls = line_bounds(&s);
    let mut st = AppSettings::default();
    let mut i: usize = 0;
    let ghost lns = lines(s@);
    assert(lns.take(0) =~= Seq::<Seq<char>>::empty());
    while i < ls.len()
        invariant
            0 <= i <= ls.len(),
            lns == lines(s@),
            range_texts(s@, ls@) == lns,
            forall|k: int| 0 <= k < ls@.len() ==> (#[trigger] ls@[k]).0 <= ls@[k].1 <= s@.len(),
            st@ == settings_of_lines(lns.take(i as int)),
        decreases ls.len() - i,
    {
        let (la, lb) = ls[i];
        assert(lns[i as int] == s@.subrange(la as int, lb as int));
        assert(lns.take(i + 1).drop_last() =~= lns.take(i as int));
        assert(lns.take(i + 1).last() == lns[i as int]);
        let (a, b) = trim_bounds(&s, la, lb);
        let ghost line = s@.subrange(a as int, b as int);
        if a == b || s[a] == '#' {
        } else if has_prefix(&s, a, b, "overwatch_path=") {
            let n: usize = 15;
            assert("overwatch_path="@.len() == 15) by {
                reveal_strlit("overwatch_path=");
            }
            assert(line.skip(15) =~= s@.subrange(a + 15, b as int));
            let (va, vb) = trim_bounds(&s, a + n, b);
            if va != vb {
                st.overwatch_path = Some(string_of_range(&s, va, vb));
            }
        } else if has_prefix(&s, a, b, "selected_regions=") {
            assert("selected_regions="@.len() == 17) by {
                reveal_strlit("selected_regions=");
            }
            assert(line.skip(17) =~= s@.subrange(a + 17, b as int));
            st.selected_regions = fields_of_sep(&s, a + 17, b, ',');
        } else if has_prefix(&s, a, b, "selected_targets=") {
            assert("selected_targets="@.len() == 17) by {
                reveal_strlit("selected_targets=");
            }
            assert(line.skip(17) =~= s@.subrange(a + 17, b as int));
            st.selected_targets = fields_of_sep(&s, a + 17, b, ',');
        }
        i = i + 1;
    }
    assert(lns.take(ls.len() as int) =~= lns);
    st
}

/// Writes the settings file text: two comment lines, then one line per key;
/// lists are comma-separated, an absent path is written empty.
pub fn format_settings(settings: &AppSettings) -> (r: String)
    ensures
        r@ == format_settings_spec(settings@),
{
    let mut out = String::new();
    out.append("# OW Server Blocker settings\n");
    out.append("# This file is safe to delete; the app will recreate it.\n");
    out.append("overwatch_path=");
    match &settings.overwatch_path {
        Some(p) => out.append(p.as_str()),
        None => {},
    }
    out.append("\nselected_regions=");
    append_joined(&mut out, &settings.selected_regions);
    out.append("\nselected_targets=");
    append_joined(&mut out, &settings.selected_targets);
    out.append("\n");
    assert(out@ =~= format_settings_spec(settings@));
    out
}

/// Appends the items joined with commas (`[String]::join(",")`).
pub(crate) fn append_joined(out: &mut String, items: &Vec<String>)
    ensures
        final(out)@ == old(out)@ + join(items.deep_view(), seq![',']),
{
    let ghost o = out@;
    let mut i: usize = 0;
    assert(items.deep_view().take(0) =~= Seq::<Seq<char>>::empty());
    assert(out@ =~= o + join(items.deep_view().take(0), seq![',']));
    while i < items.len()
        invariant
            0 <= i <= items.len(),
            out@ == o + join(items.deep_view().take(i as int), seq![',']),
        decreases items.len() - i,
    {
        let ghost prev = items.deep_view().take(i as int);
        let ghost next = items.deep_view().take(i + 1);
        assert(next.drop_last() =~= prev);
        assert(next.last() == items[i as int]@);
        if i > 0 {
            out.append(",");
            proof {
                reveal_strlit(",");
            }
        }
        out.append(items[i].as_str());
        if i > 0 {
            assert(join(next, seq![',']) == join(prev, seq![',']) + seq![','] + items[i as int]@);
        } else {
            assert(join(next, seq![',']) == items[i as int]@);
        }
        assert(out@ =~= o + join(next, seq![',']));
        i = i + 1;
    }
    assert(items.deep_view().take(items.len() as int) =~= items.deep_view());
}


/// A list entry that the settings file keeps as it is: non-empty, trimmed,
/// without commas or line breaks.
pub open spec fn is_field(e: Seq<char>) -> bool {
    e.len() > 0 && trim(e) == e && lacks(e, ',') && lacks(e, '\n')
}

/// Settings that survive a write and a read: a path, if any, non-empty,
/// trimmed and on one line; list entries as `is_field` says.
pub open spec fn settings_wf(st: SettingsView) -> bool {
    &&& (st.0 matches Some(p) ==> p.len() > 0 && trim(p) == p && lacks(p, '\n'))
    &&& forall|i: int| 0 <= i < st.1.len() ==> is_field(#[trigger] st.1[i])
    &&& forall|i: int| 0 <= i < st.2.len() ==> is_field(#[trigger] st.2[i])
}

/// A `key=` line holding a list: on one line, and its own trim and its own
/// `strip_cr`.
proof fn lemma_list_line(key: Seq<char>, items: Seq<Seq<char>>)
    requires
        key.len() > 0,
        !is_ws(key[0]),
        !is_ws(key.last()),
        lacks(key, '\n'),
        key.last() != '\r',
        forall|i: int| 0 <= i < items.len() ==> is_field(#[trigger] items[i]),
    ensures
        lacks(key + join(items, seq![',']), '\n'),
        trim(key + join(items, seq![','])) == key + join(items, seq![',']),
        strip_cr(key + join(items, seq![','])) == key + join(items, seq![',']),
        trimmed_fields(join(items, seq![',']), ',') == items,
{
    let j = join(items, seq![',']);
    let l = key + j;
    assert forall|i: int| 0 <= i < items.len() implies lacks(#[trigger] items[i], '\n') by {}
    lemma_join_lacks(items, ',', '\n');
    lemma_lacks_concat(key, j, '\n');
    assert(l[0] == key[0]);
    if items.len() > 0 {
        assert(is_field(items[items.len() - 1]));
        lemma_trimmed_ends(items.last());
        lemma_join_last(items, seq![',']);
        assert(l.last() == j.last());
    } else {
        assert(j =~= Seq::<char>::empty());
        assert(l =~= key);
    }
    lemma_trim_fixed(l);
    assert forall|i: int|
        0 <= i < items.len() implies trim(#[trigger] items[i]) == items[i] && items[i].len() > 0
        && !items[i].contains(',') by {
        assert(is_field(items[i]));
    }
    lemma_fields_of_join(items, ',');
}

/// Writing settings and reading them back gives the same settings.
pub proof fn lemma_settings_roundtrip(st: SettingsView)
    requires
        settings_wf(st),
    ensures
        parse_settings_spec(format_settings_spec(st)) == st,
{
    reveal_strlit("# OW Server Blocker settings\n");
    reveal_strlit("# This file is safe to delete; the app will recreate it.\n");
    reveal_strlit("overwatch_path=");
    reveal_strlit("\nselected_regions=");
    reveal_strlit("\nselected_targets=");
    reveal_strlit("\n");
    reveal_strlit("selected_regions=");
    reveal_strlit("selected_targets=");
    reveal_strlit("# OW Server Blocker settings");
    reveal_strlit("# This file is safe to delete; the app will recreate it.");
    let l1 = "# OW Server Blocker settings"@;
    let l2 = "# This file is safe to delete; the app will recreate it."@;
    let p = match st.0 {
        Some(p) => p,
        None => Seq::<char>::empty(),
    };
    let l3 = "overwatch_path="@ + p;
    let l4 = "selected_regions="@ + join(st.1, seq![',']);
    let l5 = "selected_targets="@ + join(st.2, seq![',']);
    let nl = seq!['\n'];
    let e = Seq::<char>::empty();
    let text = format_settings_spec(st);
    let t5 = l5 + nl + e;
    let t4 = l4 + nl + t5;
    let t3 = l3 + nl + t4;
    let t2 = l2 + nl + t3;
    assert(text =~= l1 + nl + t2);
    // each line is on one line, and its own trim
    assert(lacks(l1, '\n'));
    assert(lacks(l2, '\n'));
    assert(lacks("overwatch_path="@, '\n'));
    lemma_lacks_concat("overwatch_path="@, p, '\n');
    lemma_list_line("selected_regions="@, st.1);
    lemma_list_line("selected_targets="@, st.2);
    if p.len() > 0 {
        lemma_trimmed_ends(p);
        assert(l3.last() == p.last());
    } else {
        assert(l3 =~= "overwatch_path="@);
    }
    lemma_trim_fixed(l1);
    lemma_trim_fixed(l2);
    lemma_trim_fixed(l3);
    // the pieces between line breaks
    lemma_split_lacks(l1, '\n');
    lemma_split_lacks(l2, '\n');
    lemma_split_lacks(l3, '\n');
    lemma_split_lacks(l4, '\n');
    lemma_split_lacks(l5, '\n');
    lemma_split_on_concat(l5, e, '\n');
    lemma_split_on_concat(l4, t5, '\n');
    lemma_split_on_concat(l3, t4, '\n');
    lemma_split_on_concat(l2, t3, '\n');
    lemma_split_on_concat(l1, t2, '\n');
    assert(split_on(e, '\n') =~= seq![e]);
    let pieces = split_on(text, '\n');
    assert(pieces =~= seq![l1, l2, l3, l4, l5, e]);
    let ls = seq![l1, l2, l3, l4, l5];
    assert(strip_cr(l1) == l1);
    assert(strip_cr(l2) == l2);
    assert(strip_cr(l3) == l3);
    assert(lines(text) =~= ls);
    // reading the lines in order
    let s0 = (None::<Seq<char>>, Seq::<Seq<char>>::empty(), Seq::<Seq<char>>::empty());
    assert(ls.take(1).drop_last() =~= Seq::<Seq<char>>::empty());
    assert(settings_of_lines(ls.take(1).drop_last()) == s0);
    assert(ls.take(1).last() == l1);
    assert(trim(l1)[0] == '#');
    assert(settings_line(s0, l1) == s0);
    assert(settings_of_lines(ls.take(1)) == s0);
    assert(ls.take(2).last() == l2);
    assert(trim(l2)[0] == '#');
    assert(ls.take(2).drop_last() =~= ls.take(1));
    assert(settings_of_lines(ls.take(2)) == s0);
    assert(ls.take(3).drop_last() =~= ls.take(2));
    assert(strip_prefix(l3, "overwatch_path="@) == Some(p)) by {
        assert(l3.take(15) =~= "overwatch_path="@);
        assert(l3.skip(15) =~= p);
    }
    let s3 = (st.0, Seq::<Seq<char>>::empty(), Seq::<Seq<char>>::empty());
    assert(settings_of_lines(ls.take(3)) == s3);
    assert(ls.take(4).drop_last() =~= ls.take(3));
    assert(l4[0] == 's');
    assert(strip_prefix(l4, "overwatch_path="@) is None) by {
        if l4.len() >= 15 {
            assert(l4.take(15)[0] != "overwatch_path="@[0]);
        }
    }
    assert(strip_prefix(l4, "selected_regions="@) == Some(join(st.1, seq![',']))) by {
        assert(l4.take(17) =~= "selected_regions="@);
        assert(l4.skip(17) =~= join(st.1, seq![',']));
    }
    assert(settings_of_lines(ls.take(4)) == (st.0, st.1, Seq::<Seq<char>>::empty()));
    assert(ls.take(5).drop_last() =~= ls.take(4));
    assert(ls.take(5) =~= ls);
    assert(strip_prefix(l5, "overwatch_path="@) is None) by {
        if l5.len() >= 15 {
            assert(l5.take(15)[0] != "overwatch_path="@[0]);
        }
    }
    assert(strip_prefix(l5, "selected_regions="@) is None) by {
        assert(l5.take(17)[9] != "selected_regions="@[9]);
    }
    assert(strip_prefix(l5, "selected_targets="@) == Some(join(st.2, seq![',']))) by {
        assert(l5.take(17) =~= "selected_targets="@);
        assert(l5.skip(17) =~= join(st.2, seq![',']));
    }
}

} // verus!
