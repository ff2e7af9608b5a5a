//! Character-sequence helpers shared by the parsers: splitting, trimming,
//! line breaking and ASCII case folding, each with the meaning std gives
//! the `str` method of the same name.
use vstd::prelude::*;

verus! {

/// Unicode `White_Space`, the set that `char::is_whitespace` tests.
pub open spec fn is_ws(c: char) -> bool {
    ||| c == '\t' || c == '\n' || c == '\x0B' || c == '\x0C' || c == '\r' || c == ' '
    ||| c == '\u{85}' || c == '\u{A0}' || c == '\u{1680}'
    ||| ('\u{2000}' <= c && c <= '\u{200A}')
    ||| c == '\u{2028}' || c == '\u{2029}' || c == '\u{202F}' || c == '\u{205F}'
    ||| c == '\u{3000}'
}

/// `s` without its leading whitespace.
pub open spec fn trim_start(s: Seq<char>) -> Seq<char>
    decreases s.len(),
{
    if s.len() > 0 && is_ws(s[0]) {
        trim_start(s.drop_first())
    } else {
        s
    }
}

/// `s` without its trailing whitespace.
pub open spec fn trim_end(s: Seq<char>) -> Seq<char>
    decreases s.len(),
{
    if s.len() > 0 && is_ws(s.last()) {
        trim_end(s.drop_last())
    } else {
        s
    }
}

/// `s` without leading and trailing whitespace (`str::trim`).
pub open spec fn trim(s: Seq<char>) -> Seq<char> {
    trim_end(trim_start(s))
}

/// The pieces of `s` between occurrences of `sep` (`str::split` with a char).
/// There is always at least one piece; `sep` occurs in none of them.
pub open spec fn split_on(s: Seq<char>, sep: char) -> Seq<Seq<char>>
    decreases s.len(),
{
    if s.len() == 0 {
        seq![Seq::<char>::empty()]
    } else {
        let rest = split_on(s.drop_last(), sep);
        if s.last() == sep {
            rest.push(Seq::<char>::empty())
        } else {
            rest.update(rest.len() - 1, rest.last().push(s.last()))
        }
    }
}

/// `line` without one trailing carriage return.
pub open spec fn strip_cr(line: Seq<char>) -> Seq<char> {
    if line.len() > 0 && line.last() == '\r' {
        line.drop_last()
    } else {
        line
    }
}

/// The lines of `s` (`str::lines`): split at `\n`, with a `\r` right before a
/// `\n` removed, and no final empty line after a trailing `\n`.
pub open spec fn lines(s: Seq<char>) -> Seq<Seq<char>> {
    let pieces = split_on(s, '\n');
    let n = pieces.len();
    let ended = Seq::new((n - 1) as nat, |i: int| strip_cr(pieces[i]));
    if pieces[n - 1].len() == 0 {
        ended
    } else {
        ended.push(pieces[n - 1])
    }
}

/// Position of the first occurrence of `c` in `s`.
pub open spec fn find_char(s: Seq<char>, c: char) -> Option<int>
    decreases s.len(),
{
    if s.len() == 0 {
        None
    } else if s[0] == c {
        Some(0)
    } else {
        match find_char(s.drop_first(), c) {
            Some(i) => Some(i + 1),
            None => None,
        }
    }
}

/// `str::split_once` with a char: the text before and after the first `c`.
pub open spec fn split_once(s: Seq<char>, c: char) -> Option<(Seq<char>, Seq<char>)> {
    match find_char(s, c) {
        Some(i) => Some((s.take(i), s.skip(i + 1))),
        None => None,
    }
}

/// `str::strip_prefix`.
pub open spec fn strip_prefix(s: Seq<char>, p: Seq<char>) -> Option<Seq<char>> {
    if p.len() <= s.len() && s.take(p.len() as int) == p {
        Some(s.skip(p.len() as int))
    } else {
        None
    }
}

/// ASCII lower case of one char (`char::to_ascii_lowercase`).
pub open spec fn lower(c: char) -> char {
    if 'A' <= c && c <= 'Z' {
        ((c as u32) + 32) as char
    } else {
        c
    }
}

/// `str::to_ascii_lowercase`.
pub open spec fn to_lower(s: Seq<char>) -> Seq<char> {
    s.map_values(|c: char| lower(c))
}

/// `str::eq_ignore_ascii_case`.
pub open spec fn eq_ignore_case(a: Seq<char>, b: Seq<char>) -> bool {
    to_lower(a) == to_lower(b)
}

/// The pieces joined with `sep` between them (`[String]::join`).
pub open spec fn join(pieces: Seq<Seq<char>>, sep: Seq<char>) -> Seq<char>
    decreases pieces.len(),
{
    if pieces.len() == 0 {
        Seq::<char>::empty()
    } else if pieces.len() == 1 {
        pieces[0]
    } else {
        join(pieces.drop_last(), sep) + sep + pieces.last()
    }
}

/// The pieces trimmed, without those that trim to nothing: the
/// `.map(str::trim).filter(|p| !p.is_empty())` idiom.
pub open spec fn nonblank(ps: Seq<Seq<char>>) -> Seq<Seq<char>>
    decreases ps.len(),
{
    if ps.len() == 0 {
        Seq::empty()
    } else {
        let r = nonblank(ps.drop_last());
        if trim(ps.last()).len() > 0 {
            r.push(trim(ps.last()))
        } else {
            r
        }
    }
}

/// The trimmed, non-empty pieces of `s` split at `sep`.
pub open spec fn trimmed_fields(s: Seq<char>, sep: char) -> Seq<Seq<char>> {
    nonblank(split_on(s, sep))
}

/// `nonblank` of a concatenation is the concatenation of `nonblank`s.
pub proof fn lemma_nonblank_concat(a: Seq<Seq<char>>, b: Seq<Seq<char>>)
    ensures
        nonblank(a + b) == nonblank(a) + nonblank(b),
    decreases b.len(),
{
    if b.len() == 0 {
        assert(a + b =~= a);
        assert(nonblank(a) + nonblank(b) =~= nonblank(a));
    } else {
        lemma_nonblank_concat(a, b.drop_last());
        assert((a + b).drop_last() =~= a + b.drop_last());
        assert((a + b).last() == b.last());
        if trim(b.last()).len() > 0 {
            assert(nonblank(a) + nonblank(b) =~= (nonblank(a) + nonblank(b.drop_last())).push(trim(b.last())));
        }
    }
}


/// The texts that the bounds in `rs` delimit inside `s`.
pub open spec fn range_texts(s: Seq<char>, rs: Seq<(usize, usize)>) -> Seq<Seq<char>> {
    rs.map_values(|r: (usize, usize)| s.subrange(r.0 as int, r.1 as int))
}

/// Bounds of the pieces of `s[from..to]` split at `sep`.
pub fn split_bounds(s: &Vec<char>, from: usize, to: usize, sep: char) -> (res: Vec<(usize, usize)>)
    requires
        from <= to <= s.len(),
    ensures
        range_texts(s@, res@) == split_on(s@.subrange(from as int, to as int), sep),
        forall|k: int| 0 <= k < res@.len() ==> from <= (#[trigger] res@[k]).0 <= res@[k].1 <= to,
{
    let mut res: Vec<(usize, usize)> = Vec::new();
    let mut st = from;
    let mut i = from;
    assert(s@.subrange(from as int, from as int) =~= Seq::<char>::empty());
    assert(range_texts(s@, res@).push(s@.subrange(st as int, i as int)) =~= split_on(
        s@.subrange(from as int, i as int),
        sep,
    ));
    while i < to
        invariant
            from <= st <= i <= to <= s.len(),
            range_texts(s@, res@).push(s@.subrange(st as int, i as int)) == split_on(
                s@.subrange(from as int, i as int),
                sep,
            ),
            forall|k: int| 0 <= k < res@.len() ==> from <= (#[trigger] res@[k]).0 <= res@[k].1 <= i,
        decreases to - i,
    {
        let ghost prev = s@.subrange(from as int, i as int);
        let ghost next = s@.subrange(from as int, i + 1);
        assert(next.drop_last() =~= prev);
        assert(next.last() == s@[i as int]);
        if s[i] == sep {
            let ghost old_texts = range_texts(s@, res@);
            res.push((st, i));
            assert(range_texts(s@, res@) =~= old_texts.push(s@.subrange(st as int, i as int)));
            st = i + 1;
            assert(s@.subrange(st as int, i + 1) =~= Seq::<char>::empty());
            assert(range_texts(s@, res@).push(s@.subrange(st as int, i + 1)) =~= split_on(next, sep));
        } else {
            assert(s@.subrange(st as int, i + 1) =~= s@.subrange(st as int, i as int).push(s@[i as int]));
            let ghost rest = split_on(prev, sep);
            assert(split_on(next, sep) == rest.update(rest.len() - 1, rest.last().push(next.last())));
            let ghost texts = range_texts(s@, res@);
            assert(rest.len() == texts.len() + 1);
            assert(rest.last() == s@.subrange(st as int, i as int));
            assert forall|k: int| 0 <= k < texts.len() implies rest[k] == texts[k] by {
                assert(rest[k] == texts.push(s@.subrange(st as int, i as int))[k]);
            }
            let ghost upd = rest.update(rest.len() - 1, rest.last().push(next.last()));
            assert(upd.len() == texts.len() + 1);
            assert(upd[texts.len() as int] == s@.subrange(st as int, i + 1));
            assert forall|k: int| 0 <= k < texts.len() implies upd[k] == texts[k] by {
                assert(rest[k] == texts.push(s@.subrange(st as int, i as int))[k]);
            }
            assert(upd =~= texts.push(s@.subrange(st as int, i + 1)));
            assert(range_texts(s@, res@).push(s@.subrange(st as int, i + 1)) =~= split_on(next, sep));
        }
        i = i + 1;
    }
    res.push((st, to));
    assert(range_texts(s@, res@) =~= split_on(s@.subrange(from as int, to as int), sep));
    res
}


/// Position of the first `c` in `s[from..to]`, counted from `from`.
pub fn find_char_in(s: &Vec<char>, from: usize, to: usize, c: char) -> (r: Option<usize>)
    requires
        from <= to <= s.len(),
    ensures
        match r {
            Some(k) => find_char(s@.subrange(from as int, to as int), c) == Some(k as int) && k
                < to - from,
            None => find_char(s@.subrange(from as int, to as int), c) is None,
        },
{
    let mut i = to;
    let mut found: Option<usize> = None;
    assert(s@.subrange(to as int, to as int) =~= Seq::<char>::empty());
    while i > from
        invariant
            from <= i <= to <= s.len(),
            match found {
                Some(k) => find_char(s@.subrange(i as int, to as int), c) == Some(k as int) && k
                    < to - i,
                None => find_char(s@.subrange(i as int, to as int), c) is None,
            },
        decreases i - from,
    {
        let ghost prev = s@.subrange(i as int, to as int);
        i = i - 1;
        let ghost cur = s@.subrange(i as int, to as int);
        assert(cur.drop_first() =~= prev);
        assert(cur[0] == s@[i as int]);
        if s[i] == c {
            found = Some(0);
        } else {
            found = match found {
                Some(k) => Some(k + 1),
                None => None,
            };
        }
    }
    found
}

/// Bounds of the lines of `s` (see `lines`).
pub fn line_bounds(s: &Vec<char>) -> (res: Vec<(usize, usize)>)
    ensures
        range_texts(s@, res@) == lines(s@),
        forall|k: int| 0 <= k < res@.len() ==> (#[trigger] res@[k]).0 <= res@[k].1 <= s@.len(),
{
    let ps = split_bounds(s, 0, s.len(), '\n');
    assert(s@.subrange(0, s@.len() as int) =~= s@);
    let ghost pieces = split_on(s@, '\n');
    assert(range_texts(s@, ps@) == pieces);
    proof {
        lemma_split_on_len(s@, '\n');
    }
    let n = ps.len();
    let mut res: Vec<(usize, usize)> = Vec::new();
    let mut k: usize = 0;
    while k + 1 < n
        invariant
            n == ps.len() >= 1,
            0 <= k < n,
            pieces == range_texts(s@, ps@),
            forall|j: int| 0 <= j < n ==> (#[trigger] ps@[j]).0 <= ps@[j].1 <= s@.len(),
            res@.len() == k,
            forall|j: int| 0 <= j < res@.len() ==> (#[trigger] res@[j]).0 <= res@[j].1 <= s@.len(),
            forall|j: int|
                0 <= j < k ==> s@.subrange((#[trigger] res@[j]).0 as int, res@[j].1 as int)
                    == strip_cr(pieces[j]),
        decreases n - k,
    {
        let (a, b) = ps[k];
        assert(pieces[k as int] == s@.subrange(a as int, b as int));
        if b > a && s[b - 1] == '\r' {
            res.push((a, b - 1));
            assert(s@.subrange(a as int, b - 1) =~= strip_cr(pieces[k as int]));
        } else {
            res.push((a, b));
        }
        k = k + 1;
    }
    let (a, b) = ps[n - 1];
    assert(pieces[n - 1] == s@.subrange(a as int, b as int));
    let ghost ended = Seq::new((n - 1) as nat, |i: int| strip_cr(pieces[i]));
    assert(range_texts(s@, res@) =~= ended);
    if b > a {
        res.push((a, b));
        assert(range_texts(s@, res@) =~= ended.push(pieces[n - 1]));
    }
    res
}


/// Splitting at a separator splits the two sides apart.
pub proof fn lemma_split_on_concat(x: Seq<char>, y: Seq<char>, sep: char)
    ensures
        split_on(x + seq![sep] + y, sep) == split_on(x, sep) + split_on(y, sep),
    decreases y.len(),
{
    let xs = x + seq![sep];
    if y.len() == 0 {
        assert(xs + y =~= xs);
        assert(xs.drop_last() =~= x);
        assert(split_on(y, sep) =~= seq![Seq::<char>::empty()]);
        assert(split_on(x, sep).push(Seq::<char>::empty()) =~= split_on(x, sep) + split_on(y, sep));
    } else {
        lemma_split_on_concat(x, y.drop_last(), sep);
        lemma_split_on_len(x, sep);
        lemma_split_on_len(y.drop_last(), sep);
        let whole = xs + y;
        assert(whole.drop_last() =~= xs + y.drop_last());
        assert(whole.last() == y.last());
        let a = split_on(x, sep);
        let b = split_on(y.drop_last(), sep);
        if y.last() == sep {
            assert((a + b).push(Seq::<char>::empty()) =~= a + b.push(Seq::<char>::empty()));
        } else {
            let rest = a + b;
            assert(rest.last() == b.last());
            assert(rest.update(rest.len() - 1, rest.last().push(y.last())) =~= a + b.update(
                b.len() - 1,
                b.last().push(y.last()),
            ));
        }
    }
}

/// A text without the separator is a single piece.
pub proof fn lemma_split_on_none(x: Seq<char>, sep: char)
    requires
        !x.contains(sep),
    ensures
        split_on(x, sep) == seq![x],
    decreases x.len(),
{
    if x.len() > 0 {
        assert(!x.drop_last().contains(sep)) by {
            if x.drop_last().contains(sep) {
                let i = choose|i: int| 0 <= i < x.drop_last().len() && x.drop_last()[i] == sep;
                assert(x[i] == sep);
            }
        }
        lemma_split_on_none(x.drop_last(), sep);
        assert(x.last() != sep) by {
            assert(x[x.len() - 1] == x.last());
        }
        assert(x.drop_last().push(x.last()) =~= x);
        assert(seq![x.drop_last()].update(0, x.drop_last().push(x.last())) =~= seq![x]);
    } else {
        assert(x =~= Seq::<char>::empty());
    }
}

/// Splitting a join gives the pieces back, where no piece holds the separator.
pub proof fn lemma_split_join(ps: Seq<Seq<char>>, sep: char)
    requires
        ps.len() >= 1,
        forall|i: int| 0 <= i < ps.len() ==> !(#[trigger] ps[i]).contains(sep),
    ensures
        split_on(join(ps, seq![sep]), sep) == ps,
    decreases ps.len(),
{
    if ps.len() == 1 {
        lemma_split_on_none(ps[0], sep);
        assert(seq![ps[0]] =~= ps);
    } else {
        let init = ps.drop_last();
        assert forall|i: int| 0 <= i < init.len() implies !(#[trigger] init[i]).contains(sep) by {
            assert(init[i] == ps[i]);
        }
        lemma_split_join(init, sep);
        assert(!ps.last().contains(sep)) by {
            assert(ps[ps.len() - 1] == ps.last());
        }
        lemma_split_on_none(ps.last(), sep);
        lemma_split_on_concat(join(init, seq![sep]), ps.last(), sep);
        assert(init + seq![ps.last()] =~= ps);
    }
}

/// A text that is non-empty and trimmed is kept as it is by `nonblank`.
pub proof fn lemma_nonblank_keeps(ps: Seq<Seq<char>>)
    requires
        forall|i: int| 0 <= i < ps.len() ==> trim(#[trigger] ps[i]) == ps[i] && ps[i].len() > 0,
    ensures
        nonblank(ps) == ps,
    decreases ps.len(),
{
    if ps.len() > 0 {
        let init = ps.drop_last();
        assert forall|i: int| 0 <= i < init.len() implies trim(#[trigger] init[i]) == init[i]
            && init[i].len() > 0 by {
            assert(init[i] == ps[i]);
        }
        lemma_nonblank_keeps(init);
        assert(trim(ps[ps.len() - 1]) == ps[ps.len() - 1]);
        assert(init.push(ps.last()) =~= ps);
    }
}

/// `trimmed_fields` of a join of trimmed, non-empty pieces without the
/// separator gives the pieces back.
pub proof fn lemma_fields_of_join(ps: Seq<Seq<char>>, sep: char)
    requires
        forall|i: int|
            0 <= i < ps.len() ==> trim(#[trigger] ps[i]) == ps[i] && ps[i].len() > 0 && !ps[i].contains(
                sep,
            ),
    ensures
        trimmed_fields(join(ps, seq![sep]), sep) == ps,
{
    if ps.len() == 0 {
        assert(join(ps, seq![sep]) =~= Seq::<char>::empty());
        assert(split_on(Seq::<char>::empty(), sep) =~= seq![Seq::<char>::empty()]);
        let e = seq![Seq::<char>::empty()];
        assert(e.drop_last() =~= Seq::<Seq<char>>::empty());
        assert(trim(Seq::<char>::empty()) =~= Seq::<char>::empty());
        assert(nonblank(e.drop_last()) =~= Seq::<Seq<char>>::empty());
        assert(e.last() =~= Seq::<char>::empty());
        assert(trim(e.last()).len() == 0);
        assert(nonblank(e) =~= ps);
    } else {
        lemma_split_join(ps, sep);
        lemma_nonblank_keeps(ps);
    }
}


/// `c` does not occur in `s`.
pub open spec fn lacks(s: Seq<char>, c: char) -> bool {
    forall|i: int| 0 <= i < s.len() ==> s[i] != c
}

/// A concatenation lacks what both parts lack.
pub proof fn lemma_lacks_concat(a: Seq<char>, b: Seq<char>, c: char)
    requires
        lacks(a, c),
        lacks(b, c),
    ensures
        lacks(a + b, c),
{
    assert forall|i: int| 0 <= i < (a + b).len() implies (a + b)[i] != c by {
        if i < a.len() {
            assert((a + b)[i] == a[i]);
        } else {
            assert((a + b)[i] == b[i - a.len()]);
        }
    }
}

/// A join lacks what the pieces and the separator lack.
pub proof fn lemma_join_lacks(ps: Seq<Seq<char>>, sep: char, c: char)
    requires
        sep != c,
        forall|i: int| 0 <= i < ps.len() ==> lacks(#[trigger] ps[i], c),
    ensures
        lacks(join(ps, seq![sep]), c),
    decreases ps.len(),
{
    if ps.len() == 1 {
    } else if ps.len() > 1 {
        let init = ps.drop_last();
        assert forall|i: int| 0 <= i < init.len() implies lacks(#[trigger] init[i], c) by {
            assert(init[i] == ps[i]);
        }
        lemma_join_lacks(init, sep, c);
        assert(lacks(ps.last(), c)) by {
            assert(ps[ps.len() - 1] == ps.last());
        }
        lemma_lacks_concat(join(init, seq![sep]), seq![sep], c);
        lemma_lacks_concat(join(init, seq![sep]) + seq![sep], ps.last(), c);
    }
}

/// The last char of a join is that of the last piece.
pub proof fn lemma_join_last(ps: Seq<Seq<char>>, sep: Seq<char>)
    requires
        ps.len() > 0,
        ps.last().len() > 0,
    ensures
        join(ps, sep).len() > 0,
        join(ps, sep).last() == ps.last().last(),
{
}

/// A text that starts and ends with non-whitespace is its own trim.
pub proof fn lemma_trim_fixed(s: Seq<char>)
    requires
        s.len() > 0,
        !is_ws(s[0]),
        !is_ws(s.last()),
    ensures
        trim(s) == s,
{
}

/// A trimmed, non-empty text ends with non-whitespace.
pub proof fn lemma_trimmed_ends(s: Seq<char>)
    requires
        s.len() > 0,
        trim(s) == s,
    ensures
        !is_ws(s.last()),
{
    lemma_trim_end_is_prefix(trim_start(s));
}

/// Trimming twice is trimming once, and a trimmed text lacks what the text
/// lacked.
pub proof fn lemma_trim_idempotent(s: Seq<char>, c: char)
    ensures
        trim(trim(s)) == trim(s),
        lacks(s, c) ==> lacks(trim(s), c),
{
    let ts = trim_start(s);
    let t = trim(s);
    lemma_trim_start_is_suffix(s);
    lemma_trim_end_is_prefix(ts);
    if t.len() > 0 {
        assert(t[0] == ts[0]);
        lemma_trim_fixed(t);
    } else {
        assert(trim_start(t) =~= t);
    }
    if lacks(s, c) {
        assert forall|i: int| 0 <= i < t.len() implies t[i] != c by {
            assert(t[i] == ts[i]);
            assert(ts[i] == s[s.len() - ts.len() + i]);
        }
    }
}

/// A text without the separator is one piece.
pub proof fn lemma_split_lacks(x: Seq<char>, sep: char)
    requires
        lacks(x, sep),
    ensures
        split_on(x, sep) == seq![x],
{
    assert(!x.contains(sep));
    lemma_split_on_none(x, sep);
}

/// There is always at least one piece.
pub proof fn lemma_split_on_len(s: Seq<char>, sep: char)
    ensures
        split_on(s, sep).len() >= 1,
    decreases s.len(),
{
    if s.len() > 0 {
        lemma_split_on_len(s.drop_last(), sep);
    }
}

/// `char::is_whitespace`.
pub fn is_whitespace(c: char) -> (b: bool)
    ensures
        b == is_ws(c),
{
    c == '\t' || c == '\n' || c == '\x0B' || c == '\x0C' || c == '\r' || c == ' ' || c == '\u{85}'
        || c == '\u{A0}' || c == '\u{1680}' || ('\u{2000}' <= c && c <= '\u{200A}') || c
        == '\u{2028}' || c == '\u{2029}' || c == '\u{202F}' || c == '\u{205F}' || c == '\u{3000}'
}

/// `String::push`: appends one char.
#[verifier::external_body]
pub(crate) fn push_char(s: &mut String, c: char)
    ensures
        final(s)@ == old(s)@.push(c),
{
    s.push(c);
}

/// The characters of `s`, in order.
pub fn chars_of(s: &str) -> (res: Vec<char>)
    ensures
        res@ == s@,
{
    let mut res: Vec<char> = Vec::new();
    for c in it: s.chars()
        invariant
            res@ == it.seq().take(it.index() as int),
    {
        res.push(c);
    }
    res
}

/// A `String` holding the chars of `s[from..to]`.
pub fn string_of_range(s: &Vec<char>, from: usize, to: usize) -> (res: String)
    requires
        from <= to <= s.len(),
    ensures
        res@ == s@.subrange(from as int, to as int),
{
    let mut res = String::new();
    let mut i = from;
    while i < to
        invariant
            from <= i <= to <= s.len(),
            res@ == s@.subrange(from as int, i as int),
        decreases to - i,
    {
        push_char(&mut res, s[i]);
        i = i + 1;
        assert(res@ =~= s@.subrange(from as int, i as int));
    }
    res
}

/// A copy of `s[from..to]`.
pub fn copy_range(s: &Vec<char>, from: usize, to: usize) -> (res: Vec<char>)
    requires
        from <= to <= s.len(),
    ensures
        res@ == s@.subrange(from as int, to as int),
{
    let mut res: Vec<char> = Vec::new();
    let mut i = from;
    while i < to
        invariant
            from <= i <= to <= s.len(),
            res@ == s@.subrange(from as int, i as int),
        decreases to - i,
    {
        res.push(s[i]);
        i = i + 1;
        assert(res@ =~= s@.subrange(from as int, i as int));
    }
    res
}

/// Trimming the start drops whitespace from the front only.
pub proof fn lemma_trim_start_is_suffix(s: Seq<char>)
    ensures
        trim_start(s).len() <= s.len(),
        trim_start(s) == s.skip(s.len() - trim_start(s).len()),
        trim_start(s).len() > 0 ==> !is_ws(trim_start(s)[0]),
        forall|i: int| 0 <= i < s.len() - trim_start(s).len() ==> is_ws(#[trigger] s[i]),
    decreases s.len(),
{
    if s.len() > 0 && is_ws(s[0]) {
        lemma_trim_start_is_suffix(s.drop_first());
        assert forall|i: int| 0 <= i < s.len() - trim_start(s).len() implies is_ws(#[trigger] s[i]) by {
            if i > 0 {
                assert(s[i] == s.drop_first()[i - 1]);
            }
        }
        assert(s.drop_first().skip(s.drop_first().len() - trim_start(s).len()) =~= s.skip(
            s.len() - trim_start(s).len(),
        ));
    } else {
        assert(s.skip(0) =~= s);
    }
}

/// Trimming the end drops whitespace from the back only.
pub proof fn lemma_trim_end_is_prefix(s: Seq<char>)
    ensures
        trim_end(s).len() <= s.len(),
        trim_end(s) == s.take(trim_end(s).len() as int),
        trim_end(s).len() > 0 ==> !is_ws(trim_end(s).last()),
        forall|i: int| trim_end(s).len() <= i < s.len() ==> is_ws(#[trigger] s[i]),
    decreases s.len(),
{
    if s.len() > 0 && is_ws(s.last()) {
        lemma_trim_end_is_prefix(s.drop_last());
        assert(s.drop_last().take(trim_end(s).len() as int) =~= s.take(trim_end(s).len() as int));
        assert forall|i: int| trim_end(s).len() <= i < s.len() implies is_ws(#[trigger] s[i]) by {
            if i < s.len() - 1 {
                assert(s[i] == s.drop_last()[i]);
            }
        }
    } else {
        assert(s.take(s.len() as int) =~= s);
    }
}

/// Start of the non-whitespace part of `s[from..to]`.
fn trim_start_index(s: &Vec<char>, from: usize, to: usize) -> (k: usize)
    requires
        from <= to <= s.len(),
    ensures
        from <= k <= to,
        s@.subrange(k as int, to as int) == trim_start(s@.subrange(from as int, to as int)),
{
    let mut k = from;
    while k < to && is_whitespace(s[k])
        invariant
            from <= k <= to <= s.len(),
            trim_start(s@.subrange(k as int, to as int)) == trim_start(
                s@.subrange(from as int, to as int),
            ),
        decreases to - k,
    {
        assert(s@.subrange(k as int, to as int).drop_first() =~= s@.subrange(k + 1, to as int));
        k = k + 1;
    }
    k
}

/// End of the non-whitespace part of `s[from..to]`.
fn trim_end_index(s: &Vec<char>, from: usize, to: usize) -> (k: usize)
    requires
        from <= to <= s.len(),
    ensures
        from <= k <= to,
        s@.subrange(from as int, k as int) == trim_end(s@.subrange(from as int, to as int)),
{
    let mut k = to;
    while k > from && is_whitespace(s[k - 1])
        invariant
            from <= k <= to <= s.len(),
            trim_end(s@.subrange(from as int, k as int)) == trim_end(
                s@.subrange(from as int, to as int),
            ),
        decreases k - from,
    {
        assert(s@.subrange(from as int, k as int).drop_last() =~= s@.subrange(
            from as int,
            k - 1,
        ));
        k = k - 1;
    }
    k
}

/// The bounds of `trim(s[from..to])` inside `s`.
pub fn trim_bounds(s: &Vec<char>, from: usize, to: usize) -> (r: (usize, usize))
    requires
        from <= to <= s.len(),
    ensures
        from <= r.0 <= r.1 <= to,
        s@.subrange(r.0 as int, r.1 as int) == trim(s@.subrange(from as int, to as int)),
{
    let a = trim_start_index(s, from, to);
    let b = trim_end_index(s, a, to);
    (a, b)
}


} // verus!
