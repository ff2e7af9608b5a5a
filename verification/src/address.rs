//! Address lists: one IP, CIDR block or range per token, normalized to the
//! canonical text of the addresses they name.
use vstd::prelude::*;
use crate::ip::{
    IpAddress, Ipv4Address, Ipv6Address, parse_ip, parse_ip_spec, ip_text, push_ip, all_digits,
    dec_value, dec_text,
};
use crate::text::{
    trim, split_once, lines, trimmed_fields, find_char_in, trim_bounds, split_bounds,
    line_bounds, range_texts, split_on, string_of_range, chars_of, push_char, nonblank,
};

verus! {

/// A token that is not an IP, CIDR block or range, and why.
#[derive(Clone, Debug, Eq, PartialEq)]
pub struct AddressParseError {
    pub token: String,
    pub reason: String,
}

impl AddressParseError {
    /// The failing token and the reason.
    pub open spec fn view(&self) -> (Seq<char>, Seq<char>) {
        (self.token@, self.reason@)
    }

    fn new(token: String, reason: &str) -> (r: Self)
        ensures
            r.token@ == token@,
            r.reason@ == reason@,
    {
        AddressParseError { token, reason: reason.to_string() }
    }
}

/// A normalized address text, or the failing token and the reason.
pub type AddressResult = Result<Seq<char>, (Seq<char>, Seq<char>)>;

/// Lexicographic order of two sequences of equal length, from index `i` on.
pub open spec fn lex_le_from(a: Seq<int>, b: Seq<int>, i: int) -> bool
    decreases a.len() - i,
{
    if i >= a.len() || i >= b.len() {
        true
    } else if a[i] != b[i] {
        a[i] < b[i]
    } else {
        lex_le_from(a, b, i + 1)
    }
}

/// The octets as integers.
pub open spec fn octet_ints(a: Seq<u8>) -> Seq<int> {
    a.map_values(|v: u8| v as int)
}

/// The segments as integers.
pub open spec fn segment_ints(a: Seq<u16>) -> Seq<int> {
    a.map_values(|v: u16| v as int)
}

/// `Ipv4Addr` order: by the address as a 32-bit number.
pub open spec fn ipv4_le(x: Ipv4Address, y: Ipv4Address) -> bool {
    lex_le_from(octet_ints(x.octets@), octet_ints(y.octets@), 0)
}

/// `Ipv6Addr` order: by the address as a 128-bit number.
pub open spec fn ipv6_le(x: Ipv6Address, y: Ipv6Address) -> bool {
    lex_le_from(segment_ints(x.segments@), segment_ints(y.segments@), 0)
}

/// The CIDR prefix that `p` spells (`u8::from_str`): an optional `+`, then
/// decimal digits of a value at most 255.
pub open spec fn prefix_of(p: Seq<char>) -> Option<u8> {
    let digits = if p.len() > 0 && p[0] == '+' {
        p.drop_first()
    } else {
        p
    };
    if digits.len() > 0 && all_digits(digits) && dec_value(digits) <= 255 {
        Some(dec_value(digits) as u8)
    } else {
        None
    }
}

/// The range `start-end` written in `token`; an error names `token`.
pub open spec fn range_spec(token: Seq<char>, start: Seq<char>, end: Seq<char>) -> AddressResult {
    match (parse_ip_spec(start), parse_ip_spec(end)) {
        (None, _) => Err((token, "invalid range start"@)),
        (Some(_), None) => Err((token, "invalid range end"@)),
        (Some(IpAddress::V4(a)), Some(IpAddress::V4(b))) => if ipv4_le(a, b) {
            Ok(ip_text(IpAddress::V4(a)) + seq!['-'] + ip_text(IpAddress::V4(b)))
        } else {
            Err((token, "reversed range"@))
        },
        (Some(IpAddress::V6(a)), Some(IpAddress::V6(b))) => if ipv6_le(a, b) {
            Ok(ip_text(IpAddress::V6(a)) + seq!['-'] + ip_text(IpAddress::V6(b)))
        } else {
            Err((token, "reversed range"@))
        },
        _ => Err((token, "range mixes IPv4 and IPv6"@)),
    }
}

/// The CIDR block `ip/prefix` written in `token`; an error names `token`.
pub open spec fn cidr_spec(token: Seq<char>, ip: Seq<char>, prefix: Seq<char>) -> AddressResult {
    match parse_ip_spec(ip) {
        None => Err((token, "invalid CIDR IP"@)),
        Some(a) => match prefix_of(prefix) {
            None => Err((token, "invalid CIDR prefix"@)),
            Some(n) => match a {
                IpAddress::V4(_) => if n > 32 {
                    Err((token, "CIDR prefix is greater than 32"@))
                } else {
                    Ok(ip_text(a) + seq!['/'] + dec_text(n as nat))
                },
                IpAddress::V6(_) => if n > 128 {
                    Err((token, "CIDR prefix is greater than 128"@))
                } else {
                    Ok(ip_text(a) + seq!['/'] + dec_text(n as nat))
                },
            },
        },
    }
}

/// What `normalize_address` gives for `token`: the trimmed token as a range
/// if it holds a `-`, else as a CIDR block if it holds a `/`, else as an
/// address; each written in canonical form.
#[verifier::opaque]
pub open spec fn normalize_spec(token: Seq<char>) -> AddressResult {
    let t = trim(token);
    if t.len() == 0 {
        Err((t, "empty address"@))
    } else {
        match split_once(t, '-') {
            Some((a, b)) => range_spec(t, trim(a), trim(b)),
            None => block_or_address_spec(t),
        }
    }
}

/// A trimmed token without `-`: a CIDR block if it holds a `/`, else an address.
pub open spec fn block_or_address_spec(t: Seq<char>) -> AddressResult {
    match split_once(t, '/') {
        Some((a, b)) => cidr_spec(t, trim(a), trim(b)),
        None => match parse_ip_spec(t) {
            Some(a) => Ok(ip_text(a)),
            None => Err((t, "invalid IP"@)),
        },
    }
}

/// A line without its `#` comment.
pub open spec fn strip_comment(line: Seq<char>) -> Seq<char> {
    match split_once(line, '#') {
        Some((value, _)) => value,
        None => line,
    }
}


/// The non-empty comma-separated tokens of one line.
pub open spec fn line_tokens(line: Seq<char>) -> Seq<Seq<char>> {
    trimmed_fields(strip_comment(line), ',')
}

/// The tokens of the lines `ls`, line by line.
pub open spec fn tokens_of_lines(ls: Seq<Seq<char>>) -> Seq<Seq<char>>
    decreases ls.len(),
{
    if ls.len() == 0 {
        Seq::empty()
    } else {
        tokens_of_lines(ls.drop_last()) + line_tokens(ls.last())
    }
}

/// All tokens of `raw`, line by line.
pub open spec fn list_tokens(raw: Seq<char>) -> Seq<Seq<char>> {
    tokens_of_lines(lines(raw))
}

/// The normalized tokens, or the error of the first token that fails.
pub open spec fn normalize_all(ts: Seq<Seq<char>>) -> Result<Seq<Seq<char>>, (Seq<char>, Seq<char>)>
    decreases ts.len(),
{
    if ts.len() == 0 {
        Ok(Seq::empty())
    } else {
        match normalize_all(ts.drop_last()) {
            Err(e) => Err(e),
            Ok(xs) => match normalize_spec(ts.last()) {
                Err(e) => Err(e),
                Ok(x) => Ok(xs.push(x)),
            },
        }
    }
}

/// `xs` with every value after its first occurrence removed.
pub open spec fn dedupe(xs: Seq<Seq<char>>) -> Seq<Seq<char>>
    decreases xs.len(),
{
    if xs.len() == 0 {
        Seq::empty()
    } else {
        let d = dedupe(xs.drop_last());
        if d.contains(xs.last()) {
            d
        } else {
            d.push(xs.last())
        }
    }
}

/// What `parse_address_list` gives for `raw`.
pub open spec fn address_list_spec(raw: Seq<char>) -> Result<Seq<Seq<char>>, (Seq<char>, Seq<char>)> {
    match normalize_all(list_tokens(raw)) {
        Ok(xs) => Ok(dedupe(xs)),
        Err(e) => Err(e),
    }
}

fn lex_le_exec_v4(x: &Ipv4Address, y: &Ipv4Address) -> (r: bool)
    ensures
        r == ipv4_le(*x, *y),
{
    let ghost a = octet_ints(x.octets@);
    let ghost b = octet_ints(y.octets@);
    let mut i: usize = 0;
    while i < 4 && x.octets[i] == y.octets[i]
        invariant
            0 <= i <= 4,
            a == octet_ints(x.octets@),
            b == octet_ints(y.octets@),
            lex_le_from(a, b, 0) == lex_le_from(a, b, i as int),
        decreases 4 - i,
    {
        i = i + 1;
    }
    i == 4 || x.octets[i] < y.octets[i]
}

fn lex_le_exec_v6(x: &Ipv6Address, y: &Ipv6Address) -> (r: bool)
    ensures
        r == ipv6_le(*x, *y),
{
    let ghost a = segment_ints(x.segments@);
    let ghost b = segment_ints(y.segments@);
    let mut i: usize = 0;
    while i < 8 && x.segments[i] == y.segments[i]
        invariant
            0 <= i <= 8,
            a == segment_ints(x.segments@),
            b == segment_ints(y.segments@),
            lex_le_from(a, b, 0) == lex_le_from(a, b, i as int),
        decreases 8 - i,
    {
        i = i + 1;
    }
    i == 8 || x.segments[i] < y.segments[i]
}

/// The prefix spelled by `s[a..b]`.
fn parse_prefix(s: &Vec<char>, a: usize, b: usize) -> (r: Option<u8>)
    requires
        a <= b <= s.len(),
    ensures
        r == prefix_of(s@.subrange(a as int, b as int)),
{
    let ghost p = s@.subrange(a as int, b as int);
    let start = if b > a && s[a] == '+' {
        a + 1
    } else {
        a
    };
    let ghost digits = s@.subrange(start as int, b as int);
    if b > a && s[a] == '+' {
        assert(digits =~= p.drop_first());
    } else {
        assert(digits =~= p);
    }
    if start == b {
        assert(digits.len() == 0);
        return None;
    }
    let mut v: u32 = 0;
    let mut big = false;
    let mut i = start;
    while i < b
        invariant
            start <= i <= b <= s.len(),
            all_digits(s@.subrange(start as int, i as int)),
            !big ==> v == dec_value(s@.subrange(start as int, i as int)) && v <= 255,
            big ==> dec_value(s@.subrange(start as int, i as int)) > 255,
            digits == s@.subrange(start as int, b as int),
            p == s@.subrange(a as int, b as int),
            digits == (if p.len() > 0 && p[0] == '+' {
                p.drop_first()
            } else {
                p
            }),
        decreases b - i,
    {
        let c = s[i];
        if !('0' <= c && c <= '9') {
            assert(!all_digits(digits)) by {
                assert(digits[i - start] == c);
            }
            return None;
        }
        let ghost q = s@.subrange(start as int, i + 1);
        assert(q.drop_last() =~= s@.subrange(start as int, i as int));
        if !big {
            v = v * 10 + ((c as u32) - ('0' as u32));
            if v > 255 {
                big = true;
            }
        }
        i = i + 1;
        assert(all_digits(s@.subrange(start as int, i as int))) by {
            assert forall|j: int| 0 <= j < q.len() implies crate::ip::is_digit(#[trigger] q[j]) by {
                if j < q.len() - 1 {
                    assert(q[j] == s@.subrange(start as int, (i - 1) as int)[j]);
                }
            }
        }
    }
    assert(s@.subrange(start as int, b as int) =~= digits);
    if big {
        None
    } else {
        Some(v as u8)
    }
}

fn push_dec_u8(out: &mut String, n: u8)
    ensures
        final(out)@ == old(out)@ + dec_text(n as nat),
{
    crate::ip::push_dec(out, n);
}

/// `range_spec` on pieces of `s`: the token `s[oa..ob]`, the start
/// `s[sa..sb]`, the end `s[ea..eb]`.
fn normalize_range(
    s: &Vec<char>,
    oa: usize,
    ob: usize,
    sa: usize,
    sb: usize,
    ea: usize,
    eb: usize,
) -> (r: Result<String, AddressParseError>)
    requires
        oa <= ob <= s.len(),
        sa <= sb <= s.len(),
        ea <= eb <= s.len(),
    ensures
        match r {
            Ok(t) => range_spec(
                s@.subrange(oa as int, ob as int),
                s@.subrange(sa as int, sb as int),
                s@.subrange(ea as int, eb as int),
            ) == Ok::<Seq<char>, (Seq<char>, Seq<char>)>(t@),
            Err(e) => range_spec(
                s@.subrange(oa as int, ob as int),
                s@.subrange(sa as int, sb as int),
                s@.subrange(ea as int, eb as int),
            ) == Err::<Seq<char>, (Seq<char>, Seq<char>)>(e@),
        },
{
    let start = match parse_ip(s, sa, sb) {
        Some(x) => x,
        None => return Err(AddressParseError::new(string_of_range(s, oa, ob), "invalid range start")),
    };
    let end = match parse_ip(s, ea, eb) {
        Some(x) => x,
        None => return Err(AddressParseError::new(string_of_range(s, oa, ob), "invalid range end")),
    };
    match (&start, &end) {
        (IpAddress::V4(a), IpAddress::V4(b)) => {
            if !lex_le_exec_v4(a, b) {
                return Err(AddressParseError::new(string_of_range(s, oa, ob), "reversed range"));
            }
        },
        (IpAddress::V6(a), IpAddress::V6(b)) => {
            if !lex_le_exec_v6(a, b) {
                return Err(AddressParseError::new(string_of_range(s, oa, ob), "reversed range"));
            }
        },
        _ => {
            return Err(
                AddressParseError::new(string_of_range(s, oa, ob), "range mixes IPv4 and IPv6"),
            );
        },
    }
    let mut out = String::new();
    push_ip(&mut out, &start);
    let ghost o1 = out@;
    push_char(&mut out, '-');
    push_ip(&mut out, &end);
    assert(out@ =~= ip_text(start) + seq!['-'] + ip_text(end));
    Ok(out)
}

/// `cidr_spec` on pieces of `s`: the token `s[oa..ob]`, the address
/// `s[ia..ib]`, the prefix `s[pa..pb]`.
fn normalize_cidr(
    s: &Vec<char>,
    oa: usize,
    ob: usize,
    ia: usize,
    ib: usize,
    pa: usize,
    pb: usize,
) -> (r: Result<String, AddressParseError>)
    requires
        oa <= ob <= s.len(),
        ia <= ib <= s.len(),
        pa <= pb <= s.len(),
    ensures
        match r {
            Ok(t) => cidr_spec(
                s@.subrange(oa as int, ob as int),
                s@.subrange(ia as int, ib as int),
                s@.subrange(pa as int, pb as int),
            ) == Ok::<Seq<char>, (Seq<char>, Seq<char>)>(t@),
            Err(e) => cidr_spec(
                s@.subrange(oa as int, ob as int),
                s@.subrange(ia as int, ib as int),
                s@.subrange(pa as int, pb as int),
            ) == Err::<Seq<char>, (Seq<char>, Seq<char>)>(e@),
        },
{
    let ip = match parse_ip(s, ia, ib) {
        Some(x) => x,
        None => return Err(AddressParseError::new(string_of_range(s, oa, ob), "invalid CIDR IP")),
    };
    let prefix = match parse_prefix(s, pa, pb) {
        Some(n) => n,
        None => return Err(
            AddressParseError::new(string_of_range(s, oa, ob), "invalid CIDR prefix"),
        ),
    };
    match &ip {
        IpAddress::V4(_) => {
            if prefix > 32 {
                return Err(
                    AddressParseError::new(
                        string_of_range(s, oa, ob),
                        "CIDR prefix is greater than 32",
                    ),
                );
            }
        },
        IpAddress::V6(_) => {
            if prefix > 128 {
                return Err(
                    AddressParseError::new(
                        string_of_range(s, oa, ob),
                        "CIDR prefix is greater than 128",
                    ),
                );
            }
        },
    }
    let mut out = String::new();
    push_ip(&mut out, &ip);
    push_char(&mut out, '/');
    push_dec_u8(&mut out, prefix);
    assert(out@ =~= ip_text(ip) + seq!['/'] + dec_text(prefix as nat));
    Ok(out)
}

/// `normalize_spec` of `s[a..b]`.
#[verifier::rlimit(40)]
fn normalize_chars(s: &Vec<char>, a: usize, b: usize) -> (r: Result<String, AddressParseError>)
    requires
        a <= b <= s.len(),
    ensures
        match r {
            Ok(t) => normalize_spec(s@.subrange(a as int, b as int)) == Ok::<
                Seq<char>,
                (Seq<char>, Seq<char>),
            >(t@),
            Err(e) => normalize_spec(s@.subrange(a as int, b as int)) == Err::<
                Seq<char>,
                (Seq<char>, Seq<char>),
            >(e@),
        },
{
    reveal(normalize_spec);
    let (ta, tb) = trim_bounds(s, a, b);
    let ghost t = s@.subrange(ta as int, tb as int);
    if ta == tb {
        return Err(AddressParseError::new(string_of_range(s, ta, tb), "empty address"));
    }
    match find_char_in(s, ta, tb, '-') {
        Some(k) => {
            let m = ta + k;
            assert(t.take(k as int) =~= s@.subrange(ta as int, m as int));
            assert(t.skip(k + 1) =~= s@.subrange(m + 1, tb as int));
            let (sa, sb) = trim_bounds(s, ta, m);
            let (ea, eb) = trim_bounds(s, m + 1, tb);
            normalize_range(s, ta, tb, sa, sb, ea, eb)
        },
        None => normalize_without_range(s, ta, tb),
    }
}

/// `block_or_address_spec` of `s[ta..tb]`.
fn normalize_without_range(s: &Vec<char>, ta: usize, tb: usize) -> (r: Result<
    String,
    AddressParseError,
>)
    requires
        ta <= tb <= s.len(),
    ensures
        match r {
            Ok(t) => block_or_address_spec(s@.subrange(ta as int, tb as int)) == Ok::<
                Seq<char>,
                (Seq<char>, Seq<char>),
            >(t@),
            Err(e) => block_or_address_spec(s@.subrange(ta as int, tb as int)) == Err::<
                Seq<char>,
                (Seq<char>, Seq<char>),
            >(e@),
        },
{
    let ghost t = s@.subrange(ta as int, tb as int);
    match find_char_in(s, ta, tb, '/') {
        Some(k) => {
            let m = ta + k;
            assert(t.take(k as int) =~= s@.subrange(ta as int, m as int));
            assert(t.skip(k + 1) =~= s@.subrange(m + 1, tb as int));
            let (ia, ib) = trim_bounds(s, ta, m);
            let (pa, pb) = trim_bounds(s, m + 1, tb);
            normalize_cidr(s, ta, tb, ia, ib, pa, pb)
        },
        None => match parse_ip(s, ta, tb) {
            Some(x) => {
                let mut out = String::new();
                push_ip(&mut out, &x);
                assert(out@ =~= ip_text(x));
                Ok(out)
            },
            None => Err(AddressParseError::new(string_of_range(s, ta, tb), "invalid IP")),
        },
    }
}


proof fn lemma_normalize_all_err_prefix(xs: Seq<Seq<char>>, ys: Seq<Seq<char>>)
    requires
        normalize_all(xs) is Err,
    ensures
        normalize_all(xs + ys) == normalize_all(xs),
    decreases ys.len(),
{
    if ys.len() == 0 {
        assert(xs + ys =~= xs);
    } else {
        lemma_normalize_all_err_prefix(xs, ys.drop_last());
        assert((xs + ys).drop_last() =~= xs + ys.drop_last());
    }
}

proof fn lemma_tokens_of_lines_concat(a: Seq<Seq<char>>, b: Seq<Seq<char>>)
    ensures
        tokens_of_lines(a + b) == tokens_of_lines(a) + tokens_of_lines(b),
    decreases b.len(),
{
    if b.len() == 0 {
        assert(a + b =~= a);
        assert(tokens_of_lines(a) + tokens_of_lines(b) =~= tokens_of_lines(a));
    } else {
        lemma_tokens_of_lines_concat(a, b.drop_last());
        assert((a + b).drop_last() =~= a + b.drop_last());
        assert(tokens_of_lines(a) + tokens_of_lines(b) =~= tokens_of_lines(a) + tokens_of_lines(
            b.drop_last(),
        ) + line_tokens(b.last()));
    }
}

/// Tokens of the lines from `li` on.
pub open spec fn tokens_from(raw: Seq<char>, li: int) -> Seq<Seq<char>> {
    tokens_of_lines(lines(raw).skip(li))
}

proof fn lemma_tokens_from_step(raw: Seq<char>, li: int)
    requires
        0 <= li < lines(raw).len(),
    ensures
        tokens_from(raw, li) == line_tokens(lines(raw)[li]) + tokens_from(raw, li + 1),
{
    let ls = lines(raw);
    let x = seq![ls[li]];
    let y = ls.skip(li + 1);
    assert(ls.skip(li) =~= x + y);
    lemma_tokens_of_lines_concat(x, y);
    assert(x.drop_last() =~= Seq::<Seq<char>>::empty());
    assert(tokens_of_lines(x.drop_last()) =~= Seq::<Seq<char>>::empty());
    assert(x.last() == ls[li]);
    assert(tokens_of_lines(x) =~= line_tokens(ls[li]));
}

pub(crate) fn contains_string(v: &Vec<String>, x: &String) -> (b: bool)
    ensures
        b == v.deep_view().contains(x@),
{
    let mut i: usize = 0;
    while i < v.len()
        invariant
            0 <= i <= v.len(),
            forall|k: int| 0 <= k < i ==> v.deep_view()[k] != x@,
        decreases v.len() - i,
    {
        if v[i] == *x {
            assert(v.deep_view()[i as int] == x@);
            return true;
        }
        i = i + 1;
    }
    false
}

/// Parses a list of addresses: `#` starts a comment that runs to the end of
/// the line, tokens are separated by commas or line breaks, blank tokens are
/// skipped, each token is normalized as by `normalize_address`, and repeats
/// are dropped so that each address stays at its first position. The first
/// token that is not an address makes the whole list an error.
pub fn parse_address_list(raw: &str) -> (r: Result<Vec<String>, AddressParseError>)
    ensures
        match r {
            Ok(v) => address_list_spec(raw@) == Ok::<
                Seq<Seq<char>>,
                (Seq<char>, Seq<char>),
            >(v.deep_view()),
            Err(e) => address_list_spec(raw@) == Err::<Seq<Seq<char>>, (Seq<char>, Seq<char>)>(
                e@,
            ),
        },
{
    let s = chars_of(raw);
    let ls = line_bounds(&s);
    let ghost lns = lines(s@);
    let ghost all_tokens = list_tokens(s@);
    let mut out: Vec<String> = Vec::new();
    let ghost mut toks: Seq<Seq<char>> = Seq::empty();
    let ghost mut normalized: Seq<Seq<char>> = Seq::empty();
    let mut li: usize = 0;
    assert(lns.skip(0) =~= lns);
    assert(toks + tokens_from(s@, 0) =~= all_tokens);
    while li < ls.len()
        invariant
            0 <= li <= ls.len(),
            s@ == raw@,
            lns == lines(s@),
            range_texts(s@, ls@) == lns,
            forall|k: int| 0 <= k < ls@.len() ==> (#[trigger] ls@[k]).0 <= ls@[k].1 <= s@.len(),
            all_tokens == list_tokens(s@),
            all_tokens == toks + tokens_from(s@, li as int),
            normalize_all(toks) == Ok::<Seq<Seq<char>>, (Seq<char>, Seq<char>)>(normalized),
            out.deep_view() == dedupe(normalized),
        decreases ls.len() - li,
    {
        let (la, lb) = ls[li];
        let ghost line = s@.subrange(la as int, lb as int);
        assert(lns[li as int] == line);
        let lend = match find_char_in(&s, la, lb, '#') {
            Some(k) => la + k,
            None => lb,
        };
        assert(strip_comment(line) =~= s@.subrange(la as int, lend as int));
        proof {
            lemma_tokens_from_step(s@, li as int);
            assert(all_tokens =~= toks + line_tokens(line) + tokens_from(s@, li + 1));
        }
        let ghost rest = tokens_from(s@, li + 1);
        match add_line_tokens(&s, la, lend, &mut out, Ghost(toks), Ghost(normalized), Ghost(rest)) {
            Ok(gs) => {
                proof {
                    toks = gs.0@;
                    normalized = gs.1@;
                }
            },
            Err(e) => {
                return Err(e);
            },
        }
        li = li + 1;
    }
    assert(lns.skip(li as int) =~= Seq::<Seq<char>>::empty());
    assert(toks =~= all_tokens);
    Ok(out)
}

/// Normalizes the tokens of the line part `s[la..lend]` into `out`, after the
/// tokens `toks`, whose normalized values are `normalized`; `rest` are the
/// tokens that follow the line.
fn add_line_tokens(
    s: &Vec<char>,
    la: usize,
    lend: usize,
    out: &mut Vec<String>,
    Ghost(toks): Ghost<Seq<Seq<char>>>,
    Ghost(normalized): Ghost<Seq<Seq<char>>>,
    Ghost(rest): Ghost<Seq<Seq<char>>>,
) -> (r: Result<(Ghost<Seq<Seq<char>>>, Ghost<Seq<Seq<char>>>), AddressParseError>)
    requires
        la <= lend <= s.len(),
        normalize_all(toks) == Ok::<Seq<Seq<char>>, (Seq<char>, Seq<char>)>(normalized),
        old(out).deep_view() == dedupe(normalized),
    ensures
        match r {
            Ok((t2, n2)) => {
                &&& t2@ == toks + trimmed_fields(s@.subrange(la as int, lend as int), ',')
                &&& normalize_all(t2@) == Ok::<Seq<Seq<char>>, (Seq<char>, Seq<char>)>(n2@)
                &&& final(out).deep_view() == dedupe(n2@)
            },
            Err(e) => normalize_all(
                toks + trimmed_fields(s@.subrange(la as int, lend as int), ',') + rest,
            ) == Err::<Seq<Seq<char>>, (Seq<char>, Seq<char>)>(e@),
        },
{
    let fs = split_bounds(s, la, lend, ',');
    let ghost pieces = split_on(s@.subrange(la as int, lend as int), ',');
    let ghost mut t = toks;
    let ghost mut n = normalized;
    let mut j: usize = 0;
    assert(pieces.take(0) =~= Seq::<Seq<char>>::empty());
    assert(t =~= toks + nonblank(pieces.take(0)));
    while j < fs.len()
        invariant
            0 <= j <= fs.len(),
            la <= lend <= s@.len(),
            range_texts(s@, fs@) == pieces,
            pieces == split_on(s@.subrange(la as int, lend as int), ','),
            forall|k: int| 0 <= k < fs@.len() ==> la <= (#[trigger] fs@[k]).0 <= fs@[k].1 <= lend,
            t == toks + nonblank(pieces.take(j as int)),
            normalize_all(t) == Ok::<Seq<Seq<char>>, (Seq<char>, Seq<char>)>(n),
            out.deep_view() == dedupe(n),
        decreases fs.len() - j,
    {
        let (fa0, fb0) = fs[j];
        assert(pieces[j as int] == s@.subrange(fa0 as int, fb0 as int));
        let (fa, fb) = trim_bounds(s, fa0, fb0);
        let ghost tok = s@.subrange(fa as int, fb as int);
        assert(pieces.take(j + 1).drop_last() =~= pieces.take(j as int));
        assert(pieces.take(j + 1).last() == pieces[j as int]);
        if fa != fb {
            let ghost prev = t;
            proof {
                t = t.push(tok);
                assert(t =~= toks + nonblank(pieces.take(j + 1)));
                assert(t.drop_last() =~= prev);
            }
            match normalize_chars(s, fa, fb) {
                Ok(x) => {
                    let ghost n_old = n;
                    let ghost d_old = out.deep_view();
                    proof {
                        n = n.push(x@);
                        assert(n.drop_last() =~= n_old);
                        assert(n.last() == x@);
                    }
                    if !contains_string(out, &x) {
                        out.push(x);
                        assert(out.deep_view() =~= d_old.push(x@));
                    }
                },
                Err(e) => {
                    proof {
                        assert(normalize_all(t) == Err::<Seq<Seq<char>>, (Seq<char>, Seq<char>)>(e@));
                        assert(pieces =~= pieces.take(j + 1) + pieces.skip(j + 1));
                        crate::text::lemma_nonblank_concat(pieces.take(j + 1), pieces.skip(j + 1));
                        let ys = nonblank(pieces.skip(j + 1)) + rest;
                        assert(toks + nonblank(pieces) + rest =~= t + ys);
                        lemma_normalize_all_err_prefix(t, ys);
                        assert(trimmed_fields(s@.subrange(la as int, lend as int), ',') == nonblank(pieces));
                        assert(normalize_all(toks + trimmed_fields(s@.subrange(la as int, lend as int), ',') + rest) == Err::<Seq<Seq<char>>, (Seq<char>, Seq<char>)>(e@));
                    }
                    return Err(e);
                },
            }
        }
        j = j + 1;
    }
    assert(pieces.take(fs.len() as int) =~= pieces);
    Ok((Ghost(t), Ghost(n)))
}

/// Normalizes one IP address, CIDR block (`ip/prefix`) or range
/// (`start-end`, both of one family, start not above end) to the canonical
/// text of what it names; anything else is an error naming the token.
pub fn normalize_address(token: &str) -> (r: Result<String, AddressParseError>)
    ensures
        match r {
            Ok(t) => normalize_spec(token@) == Ok::<Seq<char>, (Seq<char>, Seq<char>)>(t@),
            Err(e) => normalize_spec(token@) == Err::<Seq<char>, (Seq<char>, Seq<char>)>(e@),
        },
{
    let s = chars_of(token);
    assert(s@.subrange(0, s@.len() as int) =~= s@);
    normalize_chars(&s, 0, s.len())
}

/// `dedupe` keeps every value and keeps it once.
pub proof fn lemma_dedupe_distinct(xs: Seq<Seq<char>>)
    ensures
        dedupe(xs).no_duplicates(),
        dedupe(xs).to_set() == xs.to_set(),
    decreases xs.len(),
{
    if xs.len() > 0 {
        let init = xs.drop_last();
        let x = xs.last();
        let d = dedupe(init);
        lemma_dedupe_distinct(init);
        assert(xs =~= init.push(x));
        init.lemma_push_to_set_commute(x);
        if d.contains(x) {
            assert(d.to_set().contains(x));
            assert(xs.to_set() =~= d.to_set());
        } else {
            d.lemma_push_to_set_commute(x);
            let e = d.push(x);
            assert forall|i: int, j: int| 0 <= i < e.len() && 0 <= j < e.len() && i != j implies e[i]
                != e[j] by {
                if i < d.len() && j < d.len() {
                    assert(e[i] == d[i] && e[j] == d[j]);
                } else if i < d.len() {
                    assert(e[i] == d[i]);
                } else if j < d.len() {
                    assert(e[j] == d[j]);
                }
            }
        }
    }
}


/// An IPv4 address as a 32-bit number, most significant octet first.
pub open spec fn ipv4_number(x: Ipv4Address) -> int {
    ((x.octets@[0] * 256 + x.octets@[1]) * 256 + x.octets@[2]) * 256 + x.octets@[3]
}

/// An IPv6 address as a 128-bit number, most significant segment first.
pub open spec fn ipv6_number(x: Ipv6Address) -> int {
    let s = x.segments@;
    ((((((s[0] * 65536 + s[1]) * 65536 + s[2]) * 65536 + s[3]) * 65536 + s[4]) * 65536 + s[5])
        * 65536 + s[6]) * 65536 + s[7]
}

/// IPv4 addresses are ordered as the 32-bit numbers they are.
pub proof fn lemma_ipv4_order(x: Ipv4Address, y: Ipv4Address)
    ensures
        ipv4_le(x, y) <==> ipv4_number(x) <= ipv4_number(y),
{
    let a = octet_ints(x.octets@);
    let b = octet_ints(y.octets@);
    assert(a.len() == 4 && b.len() == 4);
    assert(forall|i: int| 0 <= i < 4 ==> a[i] == x.octets@[i] as int && b[i] == y.octets@[i] as int);
    reveal_with_fuel(lex_le_from, 5);
    let (x0, x1, x2, x3) = (a[0], a[1], a[2], a[3]);
    let (y0, y1, y2, y3) = (b[0], b[1], b[2], b[3]);
    assert(0 <= x1 < 256 && 0 <= x2 < 256 && 0 <= x3 < 256);
    assert(0 <= y1 < 256 && 0 <= y2 < 256 && 0 <= y3 < 256);
    assert(ipv4_number(x) == ((x0 * 256 + x1) * 256 + x2) * 256 + x3);
    assert(ipv4_number(y) == ((y0 * 256 + y1) * 256 + y2) * 256 + y3);
}

/// Of `k` segments `s`, as a number most significant first.
spec fn seg_value(s: Seq<int>, k: int) -> int
    decreases k,
{
    if k <= 0 {
        0
    } else {
        seg_value(s, k - 1) * 65536 + s[k - 1]
    }
}

/// The lexicographic order of segments from `i` on agrees with the order of
/// the numbers that the segments `i..8` spell.
proof fn lemma_seg_order(a: Seq<int>, b: Seq<int>, i: int)
    requires
        a.len() == 8,
        b.len() == 8,
        0 <= i <= 8,
        forall|k: int| 0 <= k < 8 ==> 0 <= #[trigger] a[k] < 65536,
        forall|k: int| 0 <= k < 8 ==> 0 <= #[trigger] b[k] < 65536,
    ensures
        lex_le_from(a, b, i) <==> tail_value(a, i) <= tail_value(b, i),
        0 <= tail_value(a, i) < pow65536(8 - i),
        0 <= tail_value(b, i) < pow65536(8 - i),
    decreases 8 - i,
{
    if i < 8 {
        lemma_seg_order(a, b, i + 1);
        let p = pow65536(8 - i - 1);
        assert(pow65536(8 - i) == 65536 * p);
        assert(tail_value(a, i) == a[i] * p + tail_value(a, i + 1));
        assert(tail_value(b, i) == b[i] * p + tail_value(b, i + 1));
        if a[i] < b[i] {
            assert(a[i] * p + p <= b[i] * p) by (nonlinear_arith)
                requires
                    a[i] < b[i],
                    p > 0,
            ;
        } else if a[i] > b[i] {
            assert(b[i] * p + p <= a[i] * p) by (nonlinear_arith)
                requires
                    a[i] > b[i],
                    p > 0,
            ;
        }
        assert(0 <= a[i] * p && a[i] * p + p <= 65536 * p) by (nonlinear_arith)
            requires
                0 <= a[i] < 65536,
                p > 0,
        ;
        assert(0 <= b[i] * p && b[i] * p + p <= 65536 * p) by (nonlinear_arith)
            requires
                0 <= b[i] < 65536,
                p > 0,
        ;
    }
}

/// `65536` to the `n`-th power.
spec fn pow65536(n: int) -> int
    decreases n,
{
    if n <= 0 {
        1
    } else {
        65536 * pow65536(n - 1)
    }
}

/// The number that the segments `i..8` of `s` spell.
spec fn tail_value(s: Seq<int>, i: int) -> int
    decreases 8 - i,
{
    if i >= 8 {
        0
    } else {
        s[i] * pow65536(8 - i - 1) + tail_value(s, i + 1)
    }
}

/// The number that all eight segments spell, most significant first.
proof fn lemma_tail_value(s: Seq<int>)
    ensures
        tail_value(s, 0) == ((((((s[0] * 65536 + s[1]) * 65536 + s[2]) * 65536 + s[3]) * 65536
            + s[4]) * 65536 + s[5]) * 65536 + s[6]) * 65536 + s[7],
{
    assert(pow65536(0) == 1);
    assert(pow65536(1) == 65536);
    assert(pow65536(2) == 65536 * 65536);
    assert(pow65536(3) == 65536 * 65536 * 65536);
    assert(pow65536(4) == 65536 * 65536 * 65536 * 65536);
    assert(pow65536(5) == 65536 * 65536 * 65536 * 65536 * 65536);
    assert(pow65536(6) == 65536 * 65536 * 65536 * 65536 * 65536 * 65536);
    assert(pow65536(7) == 65536 * 65536 * 65536 * 65536 * 65536 * 65536 * 65536);
    assert(tail_value(s, 8) == 0);
    assert(tail_value(s, 7) == s[7]);
    assert(tail_value(s, 6) == s[6] * 65536 + s[7]);
    assert(tail_value(s, 5) == s[5] * (65536 * 65536) + s[6] * 65536 + s[7]);
    assert(tail_value(s, 4) == s[4] * (65536 * 65536 * 65536) + s[5] * (65536 * 65536) + s[6]
        * 65536 + s[7]);
    assert(tail_value(s, 3) == s[3] * (65536 * 65536 * 65536 * 65536) + s[4] * (65536 * 65536
        * 65536) + s[5] * (65536 * 65536) + s[6] * 65536 + s[7]);
    assert(tail_value(s, 2) == s[2] * (65536 * 65536 * 65536 * 65536 * 65536) + s[3] * (65536
        * 65536 * 65536 * 65536) + s[4] * (65536 * 65536 * 65536) + s[5] * (65536 * 65536) + s[6]
        * 65536 + s[7]);
    assert(tail_value(s, 1) == s[1] * (65536 * 65536 * 65536 * 65536 * 65536 * 65536) + s[2] * (
    65536 * 65536 * 65536 * 65536 * 65536) + s[3] * (65536 * 65536 * 65536 * 65536) + s[4] * (65536
        * 65536 * 65536) + s[5] * (65536 * 65536) + s[6] * 65536 + s[7]);
    assert(tail_value(s, 0) == s[0] * (65536 * 65536 * 65536 * 65536 * 65536 * 65536 * 65536)
        + s[1] * (65536 * 65536 * 65536 * 65536 * 65536 * 65536) + s[2] * (65536 * 65536 * 65536
        * 65536 * 65536) + s[3] * (65536 * 65536 * 65536 * 65536) + s[4] * (65536 * 65536 * 65536)
        + s[5] * (65536 * 65536) + s[6] * 65536 + s[7]);
}

/// IPv6 addresses are ordered as the 128-bit numbers they are.
pub proof fn lemma_ipv6_order(x: Ipv6Address, y: Ipv6Address)
    ensures
        ipv6_le(x, y) <==> ipv6_number(x) <= ipv6_number(y),
{
    let a = segment_ints(x.segments@);
    let b = segment_ints(y.segments@);
    assert(a.len() == 8 && b.len() == 8);
    assert(forall|k: int| 0 <= k < 8 ==> a[k] == x.segments@[k] as int && b[k] == y.segments@[k] as int);
    lemma_seg_order(a, b, 0);
    lemma_tail_value(a);
    lemma_tail_value(b);
}

/// A range of two IPv4 addresses is normalized to the canonical texts of
/// its ends when its start is at most its end as 32-bit numbers, and is
/// refused as reversed otherwise.
pub proof fn lemma_ipv4_range(token: Seq<char>, start: Seq<char>, end: Seq<char>, a: Ipv4Address, b: Ipv4Address)
    requires
        split_once(trim(token), '-') == Some((start, end)),
        parse_ip_spec(trim(start)) == Some(IpAddress::V4(a)),
        parse_ip_spec(trim(end)) == Some(IpAddress::V4(b)),
    ensures
        ipv4_number(a) <= ipv4_number(b) ==> normalize_spec(token) == Ok::<Seq<char>, (Seq<char>, Seq<char>)>(
            ip_text(IpAddress::V4(a)) + seq!['-'] + ip_text(IpAddress::V4(b)),
        ),
        ipv4_number(a) > ipv4_number(b) ==> normalize_spec(token) == Err::<Seq<char>, (Seq<char>, Seq<char>)>(
            (trim(token), "reversed range"@),
        ),
{
    lemma_ipv4_order(a, b);
    lemma_split_nonempty(trim(token), '-');
    let t = trim(token);
    reveal(normalize_spec);
    assert(normalize_spec(token) == range_spec(t, trim(start), trim(end)));
}

/// A range of two IPv6 addresses is normalized to the canonical texts of
/// its ends when its start is at most its end as 128-bit numbers, and is
/// refused as reversed otherwise.
pub proof fn lemma_ipv6_range(token: Seq<char>, start: Seq<char>, end: Seq<char>, a: Ipv6Address, b: Ipv6Address)
    requires
        split_once(trim(token), '-') == Some((start, end)),
        parse_ip_spec(trim(start)) == Some(IpAddress::V6(a)),
        parse_ip_spec(trim(end)) == Some(IpAddress::V6(b)),
    ensures
        ipv6_number(a) <= ipv6_number(b) ==> normalize_spec(token) == Ok::<Seq<char>, (Seq<char>, Seq<char>)>(
            ip_text(IpAddress::V6(a)) + seq!['-'] + ip_text(IpAddress::V6(b)),
        ),
        ipv6_number(a) > ipv6_number(b) ==> normalize_spec(token) == Err::<Seq<char>, (Seq<char>, Seq<char>)>(
            (trim(token), "reversed range"@),
        ),
{
    lemma_ipv6_order(a, b);
    lemma_split_nonempty(trim(token), '-');
    let t = trim(token);
    reveal(normalize_spec);
    assert(normalize_spec(token) == range_spec(t, trim(start), trim(end)));
}

/// A text that splits at `c` holds `c`, so it is not empty.
proof fn lemma_split_nonempty(t: Seq<char>, c: char)
    requires
        split_once(t, c) is Some,
    ensures
        t.len() > 0,
{
}

} // verus!
