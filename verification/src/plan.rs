//! What to block, and where the game's executable is.
use vstd::prelude::*;
use crate::address::{dedupe, contains_string};
use crate::server::{ServerGroup, ServerTarget, target_addresses};
use crate::text::{
    lines, split_on, to_lower, lower, eq_ignore_case, chars_of, line_bounds, split_bounds,
    range_texts, push_char,
};

verus! {

/// The block that the firewall rule is to carry.
#[derive(Clone, Debug)]
pub struct FirewallPlan {
    pub selected_regions: Vec<String>,
    pub selected_targets: Vec<String>,
    pub remote_addresses: Vec<String>,
    pub application_path: Option<String>,
}

/// The names of the groups of the selected targets, in order.
pub open spec fn pair_group_names(ts: Seq<(&ServerGroup, &ServerTarget)>) -> Seq<Seq<char>> {
    ts.map_values(|p: (&ServerGroup, &ServerTarget)| p.0.name@)
}

/// The ids of the selected targets, in order.
pub open spec fn pair_target_ids(ts: Seq<(&ServerGroup, &ServerTarget)>) -> Seq<Seq<char>> {
    ts.map_values(|p: (&ServerGroup, &ServerTarget)| p.1.id@)
}

/// The selected targets themselves.
pub open spec fn pair_targets(ts: Seq<(&ServerGroup, &ServerTarget)>) -> Seq<ServerTarget> {
    ts.map_values(|p: (&ServerGroup, &ServerTarget)| *p.1)
}

impl FirewallPlan {
    /// The plan for the selected targets: the names of their regions and
    /// their addresses, each once in order of first appearance, and the
    /// target ids in the order given.
    pub fn from_targets(
        targets: Vec<(&ServerGroup, &ServerTarget)>,
        application_path: Option<String>,
    ) -> (r: Self)
        ensures
            r.selected_regions.deep_view() == dedupe(pair_group_names(targets@)),
            r.selected_targets.deep_view() == pair_target_ids(targets@),
            r.remote_addresses.deep_view() == dedupe(target_addresses(pair_targets(targets@))),
            r.application_path == application_path,
    {
        let mut selected_regions: Vec<String> = Vec::new();
        let mut selected_targets: Vec<String> = Vec::new();
        let mut remote_addresses: Vec<String> = Vec::new();
        let mut i: usize = 0;
        assert(targets@.take(0) =~= Seq::<(&ServerGroup, &ServerTarget)>::empty());
        assert(pair_group_names(targets@.take(0)) =~= Seq::<Seq<char>>::empty());
        assert(pair_targets(targets@.take(0)) =~= Seq::<ServerTarget>::empty());
        while i < targets.len()
            invariant
                0 <= i <= targets.len(),
                selected_regions.deep_view() == dedupe(pair_group_names(targets@.take(i as int))),
                selected_targets.deep_view() == pair_target_ids(targets@.take(i as int)),
                remote_addresses.deep_view() == dedupe(
                    target_addresses(pair_targets(targets@.take(i as int))),
                ),
            decreases targets.len() - i,
        {
            let (group, target) = targets[i];
            let ghost prev = targets@.take(i as int);
            let ghost next = targets@.take(i + 1);
            assert(next.drop_last() =~= prev);
            assert(next.last() == (group, target));
            assert(pair_group_names(next).drop_last() =~= pair_group_names(prev));
            assert(pair_group_names(next).last() == group.name@);
            let name = group.name.to_string();
            if !contains_string(&selected_regions, &name) {
                let ghost d = selected_regions.deep_view();
                selected_regions.push(name);
                assert(selected_regions.deep_view() =~= d.push(group.name@));
            }
            let ghost t = selected_targets.deep_view();
            let id_s = target.id.to_string();
            assert(id_s@ == target.id@);
            selected_targets.push(id_s);
            assert(selected_targets.deep_view() =~= t.push(target.id@));
            assert(pair_target_ids(next).drop_last() =~= pair_target_ids(prev));
            assert(pair_target_ids(next).last() == target.id@);
            assert(selected_targets.deep_view() =~= pair_target_ids(next));
            assert(pair_targets(next).drop_last() =~= pair_targets(prev));
            assert(pair_targets(next).last() == *target);
            let ghost before = target_addresses(pair_targets(prev));
            crate::server::push_new_addresses(
                &mut remote_addresses,
                &target.addresses,
                Ghost(before),
            );
            i = i + 1;
        }
        assert(targets@.take(targets.len() as int) =~= targets@);
        FirewallPlan { selected_regions, selected_targets, remote_addresses, application_path }
    }

    /// Whether the plan may be applied, given whether the plan's executable
    /// path exists, on a platform whose separator is `sep`: an empty
    /// selection always may (it removes the rule); otherwise there must be
    /// addresses, a path, an existing file, named `Overwatch.exe` in any
    /// letter case.
    pub fn validate_for_apply(&self, path_exists: bool, sep: char) -> (r: Result<
        (),
        String,
    >)
        ensures
            self.selected_regions@.len() == 0 ==> r is Ok,
            self.selected_regions@.len() > 0 ==> match r {
                Ok(_) => self.remote_addresses@.len() > 0 && self.application_path is Some
                    && path_exists && is_overwatch_name(path_file_name(self.application_path->0@, sep)),
                Err(e) => if self.remote_addresses@.len() == 0 {
                    e@ == "No valid IPs were found for the selected servers."@
                } else if self.application_path is None {
                    e@ == "Select the Overwatch.exe path."@
                } else if !path_exists {
                    e@ == "The executable does not exist: "@ + self.application_path->0@
                } else {
                    !is_overwatch_name(path_file_name(self.application_path->0@, sep)) && e@
                        == "The path must point to a file named Overwatch.exe."@
                },
            },
    {
        if self.selected_regions.len() == 0 {
            return Ok(());
        }
        if self.remote_addresses.len() == 0 {
            return Err("No valid IPs were found for the selected servers.".to_string());
        }
        let path = match &self.application_path {
            Some(p) => p,
            None => return Err("Select the Overwatch.exe path.".to_string()),
        };
        if !path_exists {
            let mut e = "The executable does not exist: ".to_string();
            e.append(path.as_str());
            return Err(e);
        }
        if !names_overwatch(path.as_str(), sep) {
            return Err("The path must point to a file named Overwatch.exe.".to_string());
        }
        Ok(())
    }
}

/// Whether a file name is `Overwatch.exe`, in any letter case.
pub open spec fn is_overwatch_name(file_name: Option<Seq<char>>) -> bool {
    match file_name {
        Some(n) => eq_ignore_case(n, "Overwatch.exe"@),
        None => false,
    }
}

/// `str::eq_ignore_ascii_case` on chars.
pub fn chars_eq_ignore_case(a: &Vec<char>, b: &Vec<char>) -> (r: bool)
    ensures
        r == eq_ignore_case(a@, b@),
{
    if a.len() != b.len() {
        assert(to_lower(a@).len() != to_lower(b@).len());
        return false;
    }
    let mut i: usize = 0;
    while i < a.len()
        invariant
            0 <= i <= a.len() == b.len(),
            forall|k: int| 0 <= k < i ==> lower(a@[k]) == lower(b@[k]),
        decreases a.len() - i,
    {
        let x = ascii_lower(a[i]);
        let y = ascii_lower(b[i]);
        if x != y {
            assert(to_lower(a@)[i as int] != to_lower(b@)[i as int]);
            return false;
        }
        i = i + 1;
    }
    assert(to_lower(a@) =~= to_lower(b@));
    true
}

/// `char::to_ascii_lowercase`.
pub fn ascii_lower(c: char) -> (r: char)
    ensures
        r == lower(c),
{
    if 'A' <= c && c <= 'Z' {
        let r = ((c as u32) + 32) as u8 as char;
        assert(((c as u32) + 32) as u8 as char == ((c as u32) + 32) as char);
        r
    } else {
        c
    }
}

/// Whether the file name of `path` is `Overwatch.exe` in any letter case.
pub fn names_overwatch(path: &str, sep: char) -> (r: bool)
    ensures
        r == is_overwatch_name(path_file_name(path@, sep)),
{
    match file_name_of(path, sep) {
        Some(n) => chars_eq_ignore_case(&chars_of(n.as_str()), &chars_of("Overwatch.exe")),
        None => false,
    }
}

/// The usual install location of the game.
pub fn default_overwatch_path() -> (r: String)
    ensures
        r@ == "C:\\Program Files (x86)\\Overwatch\\_retail_\\Overwatch.exe"@,
{
    "C:\\Program Files (x86)\\Overwatch\\_retail_\\Overwatch.exe".to_string()
}

/// Whether a path is the game's executable: it exists and its file name is
/// `Overwatch.exe` in any letter case.
pub fn is_overwatch_executable(path: &str, exists: bool, sep: char) -> (r: bool)
    ensures
        r == (exists && is_overwatch_name(path_file_name(path@, sep))),
{
    exists && names_overwatch(path, sep)
}

/// A candidate path and whether the file system holds it.
pub struct PathCheck {
    pub path: String,
    pub exists: bool,
}

/// Whether the checked path is the game's executable.
pub open spec fn check_is_executable(c: PathCheck, sep: char) -> bool {
    c.exists && is_overwatch_name(path_file_name(c.path@, sep))
}

/// The first candidate that is the game's executable.
pub fn detect_overwatch_path(candidates: &Vec<PathCheck>, sep: char) -> (r: Option<String>)
    ensures
        match r {
            Some(p) => exists|i: int|
                0 <= i < candidates@.len() && check_is_executable(#[trigger] candidates@[i], sep)
                    && p@ == candidates@[i].path@ && forall|k: int|
                    0 <= k < i ==> !check_is_executable(#[trigger] candidates@[k], sep),
            None => forall|i: int|
                0 <= i < candidates@.len() ==> !check_is_executable(#[trigger] candidates@[i], sep),
        },
{
    let mut i: usize = 0;
    while i < candidates.len()
        invariant
            0 <= i <= candidates.len(),
            forall|k: int| 0 <= k < i ==> !check_is_executable(#[trigger] candidates@[k], sep),
        decreases candidates.len() - i,
    {
        let c = &candidates[i];
        if is_overwatch_executable(c.path.as_str(), c.exists, sep) {
            assert(check_is_executable(candidates@[i as int], sep));
            return Some(c.path.clone());
        }
        i = i + 1;
    }
    None
}

/// Paths compare as keys in lower case.
pub open spec fn same_path(a: Seq<char>, b: Seq<char>) -> bool {
    to_lower(a) == to_lower(b)
}

/// `paths` with `path` added unless a path equal to it up to letter case is
/// already there.
pub open spec fn with_candidate(paths: Seq<Seq<char>>, path: Seq<char>) -> Seq<Seq<char>> {
    if exists|i: int| 0 <= i < paths.len() && same_path(#[trigger] paths[i], path) {
        paths
    } else {
        paths.push(path)
    }
}

/// Adds a path unless it is already there up to letter case.
pub fn push_candidate(paths: &mut Vec<String>, path: String)
    ensures
        final(paths).deep_view() == with_candidate(old(paths).deep_view(), path@),
{
    let key = chars_of(path.as_str());
    let mut i: usize = 0;
    while i < paths.len()
        invariant
            0 <= i <= paths.len(),
            key@ == path@,
            forall|k: int| 0 <= k < i ==> !same_path(#[trigger] paths.deep_view()[k], path@),
        decreases paths.len() - i,
    {
        let other = chars_of(paths[i].as_str());
        if chars_eq_ignore_case(&other, &key) {
            assert(same_path(paths.deep_view()[i as int], path@));
            return;
        }
        i = i + 1;
    }
    let ghost d = paths.deep_view();
    paths.push(path);
    assert(paths.deep_view() =~= d.push(path@));
}

/// Whether `c` separates path components, where `sep` is the platform's
/// separator: `/` always does.
pub open spec fn is_separator(c: char, sep: char) -> bool {
    c == sep || c == '/'
}

/// Whether `base` is a bare Windows drive such as `C:`.
pub open spec fn is_bare_drive(base: Seq<char>) -> bool {
    base.len() == 2 && base[1] == ':' && (('a' <= base[0] && base[0] <= 'z') || ('A' <= base[0]
        && base[0] <= 'Z'))
}

/// A single plain path component: not empty, no separator, no drive colon,
/// neither `.` nor `..`.
pub open spec fn plain_name(part: Seq<char>) -> bool {
    &&& part.len() > 0
    &&& forall|i: int| 0 <= i < part.len() ==> #[trigger] part[i] != '\\' && part[i] != '/' && part[i] != ':'
    &&& !(part.len() == 1 && part[0] == '.')
    &&& !(part.len() == 2 && part[0] == '.' && part[1] == '.')
}

/// Whether `base` starts with the verbatim prefix `\\?\` (Windows).
pub open spec fn is_verbatim(base: Seq<char>) -> bool {
    base.len() >= 4 && base[0] == '\\' && base[1] == '\\' && base[2] == '?' && base[3] == '\\'
}

/// The index of the first `\` at or after `from`, or the length.
pub open spec fn next_backslash(s: Seq<char>, from: int) -> int
    decreases s.len() - from,
{
    if from >= s.len() {
        s.len() as int
    } else if s[from] == '\\' {
        from
    } else {
        next_backslash(s, from + 1)
    }
}

/// Whether `c` is an ASCII letter.
pub open spec fn is_ascii_letter(c: char) -> bool {
    ('a' <= c && c <= 'z') || ('A' <= c && c <= 'Z')
}

/// The length of the prefix of a verbatim path: `\\?\UNC\server\share`,
/// `\\?\C:` or `\\?\name`.
pub open spec fn verbatim_prefix_len(b: Seq<char>) -> int {
    if b.len() >= 8 && b[4] == 'U' && b[5] == 'N' && b[6] == 'C' && (b[7] == '\\' || b[7] == '/') {
        let server_end = next_backslash(b, 8);
        if server_end >= b.len() {
            b.len() as int
        } else {
            let share_end = next_backslash(b, server_end + 1);
            if share_end == server_end + 1 {
                server_end
            } else {
                share_end
            }
        }
    } else if b.len() >= 6 && is_ascii_letter(b[4]) && b[5] == ':' && (b.len() == 6 || b[6] == '\\') {
        6
    } else {
        next_backslash(b, 4)
    }
}

/// Whether the `i`-th char of `s` stays when repeated and trailing `\` are
/// dropped.
pub open spec fn kept(s: Seq<char>, i: int) -> bool {
    s[i] != '\\' || (i + 1 < s.len() && s[i + 1] != '\\')
}

/// The first `n` chars of `s` without the `\` that another `\` or the end
/// follows.
pub open spec fn squeeze_to(s: Seq<char>, n: int) -> Seq<char>
    decreases n,
{
    if n <= 0 {
        Seq::empty()
    } else if kept(s, n - 1) {
        squeeze_to(s, n - 1).push(s[n - 1])
    } else {
        squeeze_to(s, n - 1)
    }
}

/// `PathBuf::join` of `base` and a plain component `part`: `sep` between
/// them, unless `base` is empty, already ends with a separator, or is a bare
/// drive on Windows (`C:` joined with `Steam` is `C:Steam`). A verbatim base
/// on Windows is rebuilt from its components: its prefix, then each
/// non-empty component after a `\`, where only `\` separates.
pub open spec fn join_path(base: Seq<char>, part: Seq<char>, sep: char) -> Seq<char> {
    if sep == '\\' && is_verbatim(base) {
        let p = verbatim_prefix_len(base);
        base.take(p) + squeeze_to(base.skip(p), base.len() - p) + seq!['\\'] + part
    } else if base.len() == 0 {
        part
    } else if is_separator(base.last(), sep) || (sep == '\\' && is_bare_drive(base)) {
        base + part
    } else {
        base + seq![sep] + part
    }
}

/// The components that paths are built from here are plain names.
proof fn lemma_plain_names()
    ensures
        plain_name("Steam"@),
        plain_name("steamapps"@),
        plain_name("libraryfolders.vdf"@),
        plain_name("common"@),
        plain_name("Overwatch"@),
        plain_name("Overwatch.exe"@),
        plain_name("_retail_"@),
{
    reveal_strlit("Steam");
    reveal_strlit("steamapps");
    reveal_strlit("libraryfolders.vdf");
    reveal_strlit("common");
    reveal_strlit("Overwatch");
    reveal_strlit("Overwatch.exe");
    reveal_strlit("_retail_");
}

fn next_backslash_exec(b: &Vec<char>, from: usize) -> (r: usize)
    requires
        from <= b.len(),
    ensures
        r == next_backslash(b@, from as int),
        from <= r <= b.len(),
{
    let mut i = from;
    while i < b.len() && b[i] != '\\'
        invariant
            from <= i <= b.len(),
            next_backslash(b@, i as int) == next_backslash(b@, from as int),
        decreases b.len() - i,
    {
        i = i + 1;
    }
    i
}

fn verbatim_prefix_end(b: &Vec<char>) -> (r: usize)
    requires
        is_verbatim(b@),
    ensures
        r == verbatim_prefix_len(b@),
        r <= b.len(),
{
    if b.len() >= 8 && b[4] == 'U' && b[5] == 'N' && b[6] == 'C' && (b[7] == '\\' || b[7] == '/') {
        let server_end = next_backslash_exec(b, 8);
        if server_end >= b.len() {
            b.len()
        } else {
            let share_end = next_backslash_exec(b, server_end + 1);
            if share_end == server_end + 1 {
                server_end
            } else {
                share_end
            }
        }
    } else if b.len() >= 6 && (('a' <= b[4] && b[4] <= 'z') || ('A' <= b[4] && b[4] <= 'Z')) && b[5]
        == ':' && (b.len() == 6 || b[6] == '\\') {
        6
    } else {
        next_backslash_exec(b, 4)
    }
}

/// `join_path` of `base` and the plain component `part`.
pub fn join_path_exec(base: &str, part: &str, sep: char) -> (r: String)
    requires
        plain_name(part@),
    ensures
        r@ == join_path(base@, part@, sep),
{
    let b = chars_of(base);
    if sep == '\\' && b.len() >= 4 && b[0] == '\\' && b[1] == '\\' && b[2] == '?' && b[3] == '\\' {
        let p = verbatim_prefix_end(&b);
        let ghost rest = b@.skip(p as int);
        let mut out = String::new();
        let mut i: usize = 0;
        while i < p
            invariant
                0 <= i <= p <= b.len(),
                out@ == b@.take(i as int),
            decreases p - i,
        {
            push_char(&mut out, b[i]);
            i = i + 1;
            assert(out@ =~= b@.take(i as int));
        }
        while i < b.len()
            invariant
                p <= i <= b.len(),
                rest == b@.skip(p as int),
                out@ == b@.take(p as int) + squeeze_to(rest, i - p),
            decreases b.len() - i,
        {
            let keep = b[i] != '\\' || (i + 1 < b.len() && b[i + 1] != '\\');
            assert(keep == kept(rest, i - p)) by {
                assert(rest[i - p] == b@[i as int]);
                if i + 1 < b.len() {
                    assert(rest[i - p + 1] == b@[i + 1]);
                }
            }
            if keep {
                push_char(&mut out, b[i]);
                assert(rest[i - p] == b@[i as int]);
                assert(out@ =~= b@.take(p as int) + squeeze_to(rest, i + 1 - p));
            } else {
                assert(squeeze_to(rest, i + 1 - p) == squeeze_to(rest, i - p));
            }
            i = i + 1;
        }
        push_char(&mut out, '\\');
        out.append(part);
        return out;
    }
    let mut out = base.to_string();
    let bare_drive = b.len() == 2 && b[1] == ':' && (('a' <= b[0] && b[0] <= 'z') || ('A' <= b[0]
        && b[0] <= 'Z'));
    if b.len() > 0 && b[b.len() - 1] != sep && b[b.len() - 1] != '/' && !(sep == '\\' && bare_drive) {
        push_char(&mut out, sep);
    }
    out.append(part);
    out
}

/// Whether `c` separates components of a path whose platform separator is
/// `sep`; in a verbatim path only `\` does.
pub open spec fn path_sep(c: char, sep: char, verbatim: bool) -> bool {
    if verbatim {
        c == '\\'
    } else {
        is_separator(c, sep)
    }
}

/// The index of the first separator (`\` or `/`) at or after `from`, or
/// the length.
pub open spec fn next_sep(s: Seq<char>, from: int) -> int
    decreases s.len() - from,
{
    if from >= s.len() {
        s.len() as int
    } else if s[from] == '\\' || s[from] == '/' {
        from
    } else {
        next_sep(s, from + 1)
    }
}

/// The length of the prefix of a Windows path: a verbatim prefix, a device
/// `\\.\name`, a share `\\server\share`, a drive `C:`, or none.
pub open spec fn windows_prefix_len(s: Seq<char>) -> int {
    if is_verbatim(s) {
        verbatim_prefix_len(s)
    } else if s.len() >= 2 && (s[0] == '\\' || s[0] == '/') && (s[1] == '\\' || s[1] == '/') {
        if s.len() >= 4 && s[2] == '.' && (s[3] == '\\' || s[3] == '/') {
            next_sep(s, 4)
        } else {
            let server_end = next_sep(s, 2);
            if server_end >= s.len() {
                s.len() as int
            } else {
                let share_end = next_sep(s, server_end + 1);
                if share_end == server_end + 1 {
                    server_end
                } else {
                    share_end
                }
            }
        }
    } else if s.len() >= 2 && is_ascii_letter(s[0]) && s[1] == ':' {
        2
    } else {
        0
    }
}

/// Where the component that ends at `end` starts: after the last separator
/// in `s[lo..end]`, or at `lo`.
pub open spec fn component_start(s: Seq<char>, lo: int, end: int, sep: char, verbatim: bool) -> int
    decreases end - lo,
{
    if end <= lo {
        lo
    } else if path_sep(s[end - 1], sep, verbatim) {
        end
    } else {
        component_start(s, lo, end - 1, sep, verbatim)
    }
}

/// The last component of `s[lo..end]` where it is a name: separators at the
/// end are passed over, and so are `.` components outside verbatim paths;
/// none where nothing is left, or where the last component is `..`, or `.`
/// in a verbatim path.
pub open spec fn last_name(s: Seq<char>, lo: int, end: int, sep: char, verbatim: bool) -> Option<
    Seq<char>,
>
    decreases end - lo,
{
    if end <= lo {
        None
    } else if path_sep(s[end - 1], sep, verbatim) {
        last_name(s, lo, end - 1, sep, verbatim)
    } else {
        let start = component_start(s, lo, end, sep, verbatim);
        if !verbatim && end - start == 1 && s[start] == '.' {
            last_name(s, lo, start, sep, verbatim)
        } else if (end - start == 2 && s[start] == '.' && s[start + 1] == '.') || (end - start == 1
            && s[start] == '.') {
            None
        } else {
            Some(s.subrange(start, end))
        }
    }
}

/// `Path::file_name` of `path`, where `sep` is the platform's separator
/// (`\` on Windows, where paths may carry a prefix).
pub open spec fn path_file_name(path: Seq<char>, sep: char) -> Option<Seq<char>> {
    let verbatim = sep == '\\' && is_verbatim(path);
    let lo = if sep == '\\' {
        windows_prefix_len(path)
    } else {
        0
    };
    last_name(path, lo, path.len() as int, sep, verbatim)
}

fn next_sep_exec(b: &Vec<char>, from: usize) -> (r: usize)
    requires
        from <= b.len(),
    ensures
        r == next_sep(b@, from as int),
        from <= r <= b.len(),
{
    let mut i = from;
    while i < b.len() && b[i] != '\\' && b[i] != '/'
        invariant
            from <= i <= b.len(),
            next_sep(b@, i as int) == next_sep(b@, from as int),
        decreases b.len() - i,
    {
        i = i + 1;
    }
    i
}

fn windows_prefix_end(b: &Vec<char>) -> (r: usize)
    ensures
        r == windows_prefix_len(b@),
        r <= b.len(),
{
    if b.len() >= 4 && b[0] == '\\' && b[1] == '\\' && b[2] == '?' && b[3] == '\\' {
        verbatim_prefix_end(b)
    } else if b.len() >= 2 && (b[0] == '\\' || b[0] == '/') && (b[1] == '\\' || b[1] == '/') {
        if b.len() >= 4 && b[2] == '.' && (b[3] == '\\' || b[3] == '/') {
            next_sep_exec(b, 4)
        } else {
            let server_end = next_sep_exec(b, 2);
            if server_end >= b.len() {
                b.len()
            } else {
                let share_end = next_sep_exec(b, server_end + 1);
                if share_end == server_end + 1 {
                    server_end
                } else {
                    share_end
                }
            }
        }
    } else if b.len() >= 2 && (('a' <= b[0] && b[0] <= 'z') || ('A' <= b[0] && b[0] <= 'Z')) && b[1]
        == ':' {
        2
    } else {
        0
    }
}

fn component_start_exec(b: &Vec<char>, lo: usize, end: usize, sep: char, verbatim: bool) -> (r:
    usize)
    requires
        lo <= end <= b.len(),
    ensures
        r == component_start(b@, lo as int, end as int, sep, verbatim),
        lo <= r <= end,
        end > lo && !path_sep(b@[end - 1], sep, verbatim) ==> r < end,
{
    let mut e = end;
    while e > lo && !((verbatim && b[e - 1] == '\\') || (!verbatim && (b[e - 1] == sep || b[e - 1]
        == '/')))
        invariant
            lo <= e <= end <= b.len(),
            component_start(b@, lo as int, e as int, sep, verbatim) == component_start(
                b@,
                lo as int,
                end as int,
                sep,
                verbatim,
            ),
        decreases e,
    {
        e = e - 1;
    }
    e
}

/// The file name of `path` (`Path::file_name`), where `sep` is the
/// platform's separator.
pub fn file_name_of(path: &str, sep: char) -> (r: Option<String>)
    ensures
        match r {
            Some(n) => path_file_name(path@, sep) == Some(n@),
            None => path_file_name(path@, sep) is None,
        },
{
    let b = chars_of(path);
    let verbatim = sep == '\\' && b.len() >= 4 && b[0] == '\\' && b[1] == '\\' && b[2] == '?' && b[3]
        == '\\';
    let lo = if sep == '\\' {
        windows_prefix_end(&b)
    } else {
        0
    };
    let mut end = b.len();
    while end > lo
        invariant
            lo <= end <= b.len(),
            verbatim == (sep == '\\' && is_verbatim(b@)),
            lo == (if sep == '\\' { windows_prefix_len(b@) } else { 0 }),
            last_name(b@, lo as int, end as int, sep, verbatim) == path_file_name(path@, sep),
            b@ == path@,
        decreases end,
    {
        let last = b[end - 1];
        if (verbatim && last == '\\') || (!verbatim && (last == sep || last == '/')) {
            end = end - 1;
        } else {
            let start = component_start_exec(&b, lo, end, sep, verbatim);
            if !verbatim && end - start == 1 && b[start] == '.' {
                end = start;
            } else if (end - start == 2 && b[start] == '.' && b[start + 1] == '.') || (end - start
                == 1 && b[start] == '.') {
                return None;
            } else {
                return Some(crate::text::string_of_range(&b, start, end));
            }
        }
    }
    None
}

/// `paths` after `with_candidate` of each of `xs` in turn.
pub open spec fn with_all(paths: Seq<Seq<char>>, xs: Seq<Seq<char>>) -> Seq<Seq<char>>
    decreases xs.len(),
{
    if xs.len() == 0 {
        paths
    } else {
        with_candidate(with_all(paths, xs.drop_last()), xs.last())
    }
}

/// Adds each of `xs` in turn unless it is already there up to letter case.
pub fn push_candidates(paths: &mut Vec<String>, xs: &Vec<String>)
    ensures
        final(paths).deep_view() == with_all(old(paths).deep_view(), xs.deep_view()),
{
    let ghost start = paths.deep_view();
    let mut i: usize = 0;
    assert(xs.deep_view().take(0) =~= Seq::<Seq<char>>::empty());
    while i < xs.len()
        invariant
            0 <= i <= xs.len(),
            paths.deep_view() == with_all(start, xs.deep_view().take(i as int)),
        decreases xs.len() - i,
    {
        assert(xs.deep_view().take(i + 1).drop_last() =~= xs.deep_view().take(i as int));
        assert(xs.deep_view().take(i + 1).last() == xs[i as int]@);
        push_candidate(paths, xs[i].clone());
        i = i + 1;
    }
    assert(xs.deep_view().take(xs.len() as int) =~= xs.deep_view());
}

/// The Steam install folders to look in: under the two program-files
/// folders that the environment names, then the two usual locations, each
/// once.
pub open spec fn steam_roots_spec(
    program_files_x86: Option<Seq<char>>,
    program_files: Option<Seq<char>>,
    sep: char,
) -> Seq<Seq<char>> {
    let a = match program_files_x86 {
        Some(p) => seq![join_path(p, "Steam"@, sep)],
        None => Seq::empty(),
    };
    let b = match program_files {
        Some(p) => seq![join_path(p, "Steam"@, sep)],
        None => Seq::empty(),
    };
    with_all(
        Seq::empty(),
        a + b + seq!["C:\\Program Files (x86)\\Steam"@, "C:\\Program Files\\Steam"@],
    )
}

/// The Steam install folders, given the values of `ProgramFiles(x86)` and
/// `ProgramFiles`.
pub fn steam_roots(program_files_x86: Option<&str>, program_files: Option<&str>, sep: char) -> (r:
    Vec<String>)
    ensures
        r.deep_view() == steam_roots_spec(
            match program_files_x86 {
                Some(p) => Some(p@),
                None => None,
            },
            match program_files {
                Some(p) => Some(p@),
                None => None,
            },
            sep,
        ),
{
    proof {
        lemma_plain_names();
    }
    let mut xs: Vec<String> = Vec::new();
    match program_files_x86 {
        Some(p) => xs.push(join_path_exec(p, "Steam", sep)),
        None => {},
    }
    match program_files {
        Some(p) => xs.push(join_path_exec(p, "Steam", sep)),
        None => {},
    }
    xs.push("C:\\Program Files (x86)\\Steam".to_string());
    xs.push("C:\\Program Files\\Steam".to_string());
    let ghost x86 = match program_files_x86 {
        Some(p) => seq![join_path(p@, "Steam"@, sep)],
        None => Seq::<Seq<char>>::empty(),
    };
    let ghost pf = match program_files {
        Some(p) => seq![join_path(p@, "Steam"@, sep)],
        None => Seq::<Seq<char>>::empty(),
    };
    assert(xs.deep_view() =~= x86 + pf + seq![
        "C:\\Program Files (x86)\\Steam"@,
        "C:\\Program Files\\Steam"@,
    ]);
    let mut roots: Vec<String> = Vec::new();
    assert(roots.deep_view() =~= Seq::<Seq<char>>::empty());
    push_candidates(&mut roots, &xs);
    roots
}

/// The file where a Steam install lists its libraries.
pub fn library_file_path(root: &str, sep: char) -> (r: String)
    ensures
        r@ == join_path(join_path(root@, "steamapps"@, sep), "libraryfolders.vdf"@, sep),
{
    proof {
        lemma_plain_names();
    }
    let steamapps = join_path_exec(root, "steamapps", sep);
    join_path_exec(steamapps.as_str(), "libraryfolders.vdf", sep)
}

/// A Steam install folder with the text of its library list, where that
/// could be read.
pub open spec fn root_entries(v: Seq<(String, Option<String>)>) -> Seq<(Seq<char>, Option<Seq<char>>)> {
    v.map_values(|e: (String, Option<String>)| (e.0@, crate::firewall::opt_view(e.1)))
}

/// The Steam libraries: each install folder, then the libraries its list
/// names, each path once up to letter case.
pub open spec fn steam_libraries_spec(roots: Seq<(Seq<char>, Option<Seq<char>>)>) -> Seq<Seq<char>>
    decreases roots.len(),
{
    if roots.len() == 0 {
        Seq::empty()
    } else {
        let with_root = with_candidate(steam_libraries_spec(roots.drop_last()), roots.last().0);
        match roots.last().1 {
            Some(raw) => with_all(with_root, library_paths_of_lines(lines(raw))),
            None => with_root,
        }
    }
}

/// The Steam libraries, from each install folder and the text of its
/// `libraryfolders.vdf` (none where the file could not be read).
pub fn steam_libraries(roots: &Vec<(String, Option<String>)>) -> (r: Vec<String>)
    ensures
        r.deep_view() == steam_libraries_spec(root_entries(roots@)),
{
    let mut libraries: Vec<String> = Vec::new();
    let mut i: usize = 0;
    assert(root_entries(roots@).take(0) =~= Seq::<(Seq<char>, Option<Seq<char>>)>::empty());
    while i < roots.len()
        invariant
            0 <= i <= roots.len(),
            libraries.deep_view() == steam_libraries_spec(root_entries(roots@).take(i as int)),
        decreases roots.len() - i,
    {
        let ghost es = root_entries(roots@);
        assert(es.take(i + 1).drop_last() =~= es.take(i as int));
        assert(es.take(i + 1).last() == es[i as int]);
        let (root, raw) = &roots[i];
        push_candidate(&mut libraries, root.clone());
        match raw {
            Some(text) => {
                let found = parse_steam_library_paths(text.as_str());
                push_candidates(&mut libraries, &found);
            },
            None => {},
        }
        i = i + 1;
    }
    assert(root_entries(roots@).take(roots.len() as int) =~= root_entries(roots@));
    libraries
}

/// The folder of the game inside a Steam library.
pub open spec fn library_game_dir(library: Seq<char>, sep: char) -> Seq<char> {
    join_path(join_path(join_path(library, "steamapps"@, sep), "common"@, sep), "Overwatch"@, sep)
}

/// The two places of the executable inside each library, library by library.
pub open spec fn library_candidates(libraries: Seq<Seq<char>>, sep: char) -> Seq<Seq<char>>
    decreases libraries.len(),
{
    if libraries.len() == 0 {
        Seq::empty()
    } else {
        let dir = library_game_dir(libraries.last(), sep);
        library_candidates(libraries.drop_last(), sep) + seq![
            join_path(dir, "Overwatch.exe"@, sep),
            join_path(join_path(dir, "_retail_"@, sep), "Overwatch.exe"@, sep),
        ]
    }
}

/// The usual install locations of the executable.
pub open spec fn usual_install_paths() -> Seq<Seq<char>> {
    seq![
        "C:\\Program Files (x86)\\Overwatch\\_retail_\\Overwatch.exe"@,
        "C:\\Program Files (x86)\\Overwatch\\Overwatch.exe"@,
        "C:\\Program Files\\Overwatch\\_retail_\\Overwatch.exe"@,
        "C:\\Program Files\\Overwatch\\Overwatch.exe"@,
    ]
}

/// Where to look for the executable: the usual install locations, then two
/// places in each Steam library, each path once up to letter case.
pub fn overwatch_path_candidates(libraries: &Vec<String>, sep: char) -> (r: Vec<String>)
    ensures
        r.deep_view() == with_all(
            with_all(Seq::empty(), usual_install_paths()),
            library_candidates(libraries.deep_view(), sep),
        ),
{
    let mut usual: Vec<String> = Vec::new();
    usual.push(default_overwatch_path());
    usual.push("C:\\Program Files (x86)\\Overwatch\\Overwatch.exe".to_string());
    usual.push("C:\\Program Files\\Overwatch\\_retail_\\Overwatch.exe".to_string());
    usual.push("C:\\Program Files\\Overwatch\\Overwatch.exe".to_string());
    assert(usual.deep_view() =~= usual_install_paths());
    let mut in_libraries: Vec<String> = Vec::new();
    let mut i: usize = 0;
    proof {
        lemma_plain_names();
    }
    assert(libraries.deep_view().take(0) =~= Seq::<Seq<char>>::empty());
    while i < libraries.len()
        invariant
            0 <= i <= libraries.len(),
            in_libraries.deep_view() == library_candidates(libraries.deep_view().take(i as int), sep),
            plain_name("steamapps"@),
            plain_name("common"@),
            plain_name("Overwatch"@),
            plain_name("Overwatch.exe"@),
            plain_name("_retail_"@),
        decreases libraries.len() - i,
    {
        assert(libraries.deep_view().take(i + 1).drop_last() =~= libraries.deep_view().take(i as int));
        assert(libraries.deep_view().take(i + 1).last() == libraries[i as int]@);
        let steamapps = join_path_exec(libraries[i].as_str(), "steamapps", sep);
        let common = join_path_exec(steamapps.as_str(), "common", sep);
        let dir = join_path_exec(common.as_str(), "Overwatch", sep);
        let direct = join_path_exec(dir.as_str(), "Overwatch.exe", sep);
        let retail = join_path_exec(dir.as_str(), "_retail_", sep);
        let in_retail = join_path_exec(retail.as_str(), "Overwatch.exe", sep);
        let ghost d = in_libraries.deep_view();
        in_libraries.push(direct);
        in_libraries.push(in_retail);
        assert(in_libraries.deep_view() =~= d + seq![direct@, in_retail@]);
        i = i + 1;
    }
    assert(libraries.deep_view().take(libraries.len() as int) =~= libraries.deep_view());
    let mut candidates: Vec<String> = Vec::new();
    assert(candidates.deep_view() =~= Seq::<Seq<char>>::empty());
    push_candidates(&mut candidates, &usual);
    push_candidates(&mut candidates, &in_libraries);
    candidates
}

/// `s` with each pair of backslashes made one (`str::replace("\\\\", "\\")`).
pub open spec fn unescape(s: Seq<char>) -> Seq<char>
    decreases s.len(),
{
    if s.len() == 0 {
        s
    } else if s.len() >= 2 && s[0] == '\\' && s[1] == '\\' {
        seq!['\\'] + unescape(s.skip(2))
    } else {
        seq![s[0]] + unescape(s.skip(1))
    }
}

/// The library path that one line of `libraryfolders.vdf` names: the fourth
/// quote-separated piece where the second is `path` in any letter case.
pub open spec fn library_path_of(line: Seq<char>) -> Option<Seq<char>> {
    let parts = split_on(line, '"');
    if parts.len() >= 4 && eq_ignore_case(parts[1], "path"@) {
        Some(unescape(parts[3]))
    } else {
        None
    }
}

/// The library paths named by the lines `ls`, in order.
pub open spec fn library_paths_of_lines(ls: Seq<Seq<char>>) -> Seq<Seq<char>>
    decreases ls.len(),
{
    if ls.len() == 0 {
        Seq::empty()
    } else {
        match library_path_of(ls.last()) {
            Some(p) => library_paths_of_lines(ls.drop_last()).push(p),
            None => library_paths_of_lines(ls.drop_last()),
        }
    }
}

/// `unescape(s[a..b])`.
fn unescape_range(s: &Vec<char>, a: usize, b: usize) -> (r: String)
    requires
        a <= b <= s.len(),
    ensures
        r@ == unescape(s@.subrange(a as int, b as int)),
{
    let mut out = String::new();
    let mut i = a;
    while i < b
        invariant
            a <= i <= b <= s.len(),
            out@ + unescape(s@.subrange(i as int, b as int)) == unescape(
                s@.subrange(a as int, b as int),
            ),
        decreases b - i,
    {
        let ghost rest = s@.subrange(i as int, b as int);
        let ghost o = out@;
        if i + 1 < b && s[i] == '\\' && s[i + 1] == '\\' {
            assert(rest.skip(2) =~= s@.subrange(i + 2, b as int));
            push_char(&mut out, '\\');
            i = i + 2;
            assert(o + unescape(rest) =~= out@ + unescape(s@.subrange(i as int, b as int)));
        } else {
            assert(rest.skip(1) =~= s@.subrange(i + 1, b as int));
            push_char(&mut out, s[i]);
            i = i + 1;
            assert(o + unescape(rest) =~= out@ + unescape(s@.subrange(i as int, b as int)));
        }
    }
    assert(s@.subrange(b as int, b as int) =~= Seq::<char>::empty());
    assert(out@ + unescape(Seq::<char>::empty()) =~= out@);
    out
}

/// The Steam library paths that a `libraryfolders.vdf` lists.
pub fn parse_steam_library_paths(raw: &str) -> (r: Vec<String>)
    ensures
        r.deep_view() == library_paths_of_lines(lines(raw@)),
{
    let s = chars_of(raw);
    let ls = line_bounds(&s);
    let ghost lns = lines(s@);
    let mut out: Vec<String> = Vec::new();
    let mut i: usize = 0;
    assert(lns.take(0) =~= Seq::<Seq<char>>::empty());
    let path_word = chars_of("path");
    while i < ls.len()
        invariant
            0 <= i <= ls.len(),
            lns == lines(s@),
            range_texts(s@, ls@) == lns,
            forall|k: int| 0 <= k < ls@.len() ==> (#[trigger] ls@[k]).0 <= ls@[k].1 <= s@.len(),
            out.deep_view() == library_paths_of_lines(lns.take(i as int)),
            path_word@ == "path"@,
        decreases ls.len() - i,
    {
        let (a, b) = ls[i];
        let ghost line = s@.subrange(a as int, b as int);
        assert(lns[i as int] == line);
        assert(lns.take(i + 1).drop_last() =~= lns.take(i as int));
        assert(lns.take(i + 1).last() == line);
        let parts = split_bounds(&s, a, b, '"');
        if parts.len() >= 4 {
            let ghost texts = range_texts(s@, parts@);
            assert(texts[1] == s@.subrange(parts@[1].0 as int, parts@[1].1 as int));
            assert(texts[3] == s@.subrange(parts@[3].0 as int, parts@[3].1 as int));
            let second = crate::text::copy_range(&s, parts[1].0, parts[1].1);
            if chars_eq_ignore_case(&second, &path_word) {
                let p = unescape_range(&s, parts[3].0, parts[3].1);
                let ghost d = out.deep_view();
                out.push(p);
                assert(out.deep_view() =~= d.push(unescape(texts[3])));
            }
        }
        i = i + 1;
    }
    assert(lns.take(ls.len() as int) =~= lns);
    out
}


/// Whether no two of `paths` are equal up to letter case.
pub open spec fn distinct_paths(paths: Seq<Seq<char>>) -> bool {
    forall|i: int, j: int|
        0 <= i < j < paths.len() ==> !same_path(#[trigger] paths[i], #[trigger] paths[j])
}

/// Whether `paths` holds `path` up to letter case.
pub open spec fn holds_path(paths: Seq<Seq<char>>, path: Seq<char>) -> bool {
    exists|i: int| 0 <= i < paths.len() && same_path(#[trigger] paths[i], path)
}

/// Adding one candidate keeps what was there, in its place, and keeps the
/// paths distinct up to letter case; afterwards the path is held.
proof fn lemma_with_candidate(paths: Seq<Seq<char>>, path: Seq<char>)
    ensures
        with_candidate(paths, path).len() >= paths.len(),
        with_candidate(paths, path).take(paths.len() as int) == paths,
        distinct_paths(paths) ==> distinct_paths(with_candidate(paths, path)),
        holds_path(with_candidate(paths, path), path),
{
    let r = with_candidate(paths, path);
    if exists|i: int| 0 <= i < paths.len() && same_path(#[trigger] paths[i], path) {
        assert(r.take(paths.len() as int) =~= paths);
    } else {
        assert(r.take(paths.len() as int) =~= paths);
        assert(same_path(r[paths.len() as int], path));
        if distinct_paths(paths) {
            assert forall|i: int, j: int| 0 <= i < j < r.len() implies !same_path(
                #[trigger] r[i],
                #[trigger] r[j],
            ) by {
                if j == paths.len() {
                    assert(r[i] == paths[i]);
                    if same_path(r[i], r[j]) {
                        assert(same_path(paths[i], path));
                    }
                } else {
                    assert(r[i] == paths[i] && r[j] == paths[j]);
                }
            }
        }
    }
}

/// Whatever `with_all` adds to, it keeps in its place; it keeps the paths
/// distinct up to letter case; and it holds each of `xs` afterwards.
proof fn lemma_with_all(paths: Seq<Seq<char>>, xs: Seq<Seq<char>>)
    ensures
        with_all(paths, xs).len() >= paths.len(),
        with_all(paths, xs).take(paths.len() as int) == paths,
        distinct_paths(paths) ==> distinct_paths(with_all(paths, xs)),
        forall|k: int| 0 <= k < xs.len() ==> holds_path(with_all(paths, xs), #[trigger] xs[k]),
    decreases xs.len(),
{
    if xs.len() > 0 {
        let prev = with_all(paths, xs.drop_last());
        lemma_with_all(paths, xs.drop_last());
        lemma_with_candidate(prev, xs.last());
        let r = with_all(paths, xs);
        assert(r == with_candidate(prev, xs.last()));
        assert(r.take(paths.len() as int) =~= r.take(prev.len() as int).take(paths.len() as int));
        assert forall|k: int| 0 <= k < xs.len() implies holds_path(r, #[trigger] xs[k]) by {
            if k < xs.len() - 1 {
                assert(xs.drop_last()[k] == xs[k]);
                assert(holds_path(prev, xs[k]));
                let i = choose|i: int| 0 <= i < prev.len() && same_path(#[trigger] prev[i], xs[k]);
                assert(r.take(prev.len() as int)[i] == r[i]);
                assert(same_path(r[i], xs[k]));
            }
        }
    } else {
        assert(with_all(paths, xs).take(paths.len() as int) =~= paths);
    }
}

/// The usual install locations are four paths, no two equal up to letter
/// case, so the candidate list starts with all of them.
proof fn lemma_usual_install_paths()
    ensures
        with_all(Seq::empty(), usual_install_paths()) == usual_install_paths(),
        distinct_paths(usual_install_paths()),
{
    reveal_strlit("C:\\Program Files (x86)\\Overwatch\\_retail_\\Overwatch.exe");
    reveal_strlit("C:\\Program Files (x86)\\Overwatch\\Overwatch.exe");
    reveal_strlit("C:\\Program Files\\Overwatch\\_retail_\\Overwatch.exe");
    reveal_strlit("C:\\Program Files\\Overwatch\\Overwatch.exe");
    let u = usual_install_paths();
    assert(u[0].len() == 55 && u[1].len() == 46 && u[2].len() == 49 && u[3].len() == 40);
    assert forall|i: int, j: int| 0 <= i < j < u.len() implies !same_path(
        #[trigger] u[i],
        #[trigger] u[j],
    ) by {
        assert(to_lower(u[i]).len() == u[i].len());
        assert(to_lower(u[j]).len() == u[j].len());
    }
    reveal_with_fuel(with_all, 5);
    let e = Seq::<Seq<char>>::empty();
    assert(u.take(0) =~= e);
    assert(u.take(1).drop_last() =~= u.take(0));
    assert(u.take(2).drop_last() =~= u.take(1));
    assert(u.take(3).drop_last() =~= u.take(2));
    assert(u.drop_last() =~= u.take(3));
    assert(with_all(e, u.take(1)) =~= u.take(1));
    assert forall|i: int| 0 <= i < 1 implies !same_path(#[trigger] u.take(1)[i], u[1]) by {
        assert(u.take(1)[i] == u[i]);
    }
    assert(with_all(e, u.take(2)) =~= u.take(2));
    assert forall|i: int| 0 <= i < 2 implies !same_path(#[trigger] u.take(2)[i], u[2]) by {
        assert(u.take(2)[i] == u[i]);
    }
    assert(with_all(e, u.take(3)) =~= u.take(3));
    assert forall|i: int| 0 <= i < 3 implies !same_path(#[trigger] u.take(3)[i], u[3]) by {
        assert(u.take(3)[i] == u[i]);
    }
    assert(with_all(e, u) =~= u);
}

/// The two places of the executable in the `k`-th library stand at `2k`
/// and `2k + 1` of `library_candidates`.
proof fn lemma_library_candidates(libraries: Seq<Seq<char>>, sep: char)
    ensures
        library_candidates(libraries, sep).len() == 2 * libraries.len(),
        forall|k: int|
            0 <= k < libraries.len() ==> {
                let dir = library_game_dir(#[trigger] libraries[k], sep);
                &&& library_candidates(libraries, sep)[2 * k] == join_path(dir, "Overwatch.exe"@, sep)
                &&& library_candidates(libraries, sep)[2 * k + 1] == join_path(
                    join_path(dir, "_retail_"@, sep),
                    "Overwatch.exe"@,
                    sep,
                )
            },
    decreases libraries.len(),
{
    if libraries.len() > 0 {
        lemma_library_candidates(libraries.drop_last(), sep);
        assert forall|k: int| 0 <= k < libraries.len() - 1 implies libraries.drop_last()[k]
            == #[trigger] libraries[k] by {}
    }
}

/// The candidate list begins with the four usual install locations, holds
/// no two paths equal up to letter case, and holds, up to letter case, both
/// places of the executable in every Steam library.
pub proof fn lemma_candidates(libraries: Seq<Seq<char>>, sep: char)
    ensures
        ({
            let c = with_all(
                with_all(Seq::empty(), usual_install_paths()),
                library_candidates(libraries, sep),
            );
            &&& c.len() >= 4
            &&& c.take(4) == usual_install_paths()
            &&& distinct_paths(c)
            &&& forall|k: int|
                0 <= k < libraries.len() ==> {
                    let dir = library_game_dir(#[trigger] libraries[k], sep);
                    &&& holds_path(c, join_path(dir, "Overwatch.exe"@, sep))
                    &&& holds_path(
                        c,
                        join_path(join_path(dir, "_retail_"@, sep), "Overwatch.exe"@, sep),
                    )
                }
        }),
{
    lemma_usual_install_paths();
    let u = usual_install_paths();
    let lc = library_candidates(libraries, sep);
    lemma_library_candidates(libraries, sep);
    lemma_with_all(u, lc);
    let c = with_all(u, lc);
    assert forall|k: int| 0 <= k < libraries.len() implies {
        let dir = library_game_dir(#[trigger] libraries[k], sep);
        &&& holds_path(c, join_path(dir, "Overwatch.exe"@, sep))
        &&& holds_path(c, join_path(join_path(dir, "_retail_"@, sep), "Overwatch.exe"@, sep))
    } by {
        assert(holds_path(c, lc[2 * k]));
        assert(holds_path(c, lc[2 * k + 1]));
    }
}

} // verus!
