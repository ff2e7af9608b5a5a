//! IP addresses: the textual grammar that `IpAddr::from_str` accepts and the
//! canonical text that `IpAddr`'s `Display` writes, both stated over `Seq<char>`.
use vstd::prelude::*;
use crate::text::{split_on, split_bounds, range_texts, join, push_char};

verus! {

/// An IPv4 address by its four octets, most significant first.
#[derive(Clone, Copy, Debug, PartialEq, Eq)]
pub struct Ipv4Address {
    pub octets: [u8; 4],
}

/// An IPv6 address by its eight 16-bit segments, most significant first.
#[derive(Clone, Copy, Debug, PartialEq, Eq)]
pub struct Ipv6Address {
    pub segments: [u16; 8],
}

/// An IPv4 or IPv6 address.
#[derive(Clone, Copy, Debug, PartialEq, Eq)]
pub enum IpAddress {
    V4(Ipv4Address),
    V6(Ipv6Address),
}

impl Ipv4Address {
    /// The address `a.b.c.d`.
    pub fn new(a: u8, b: u8, c: u8, d: u8) -> (r: Ipv4Address)
        ensures
            r.octets@ == seq![a, b, c, d],
    {
        let r = Ipv4Address { octets: [a, b, c, d] };
        assert(r.octets@ =~= seq![a, b, c, d]);
        r
    }
}

// ---------------------------------------------------------------------------
// Digits

/// A decimal digit.
pub open spec fn is_digit(c: char) -> bool {
    '0' <= c && c <= '9'
}

/// The value of a decimal digit.
pub open spec fn digit_value(c: char) -> nat {
    ((c as u32) - ('0' as u32)) as nat
}

/// Only decimal digits.
pub open spec fn all_digits(p: Seq<char>) -> bool {
    forall|i: int| 0 <= i < p.len() ==> is_digit(#[trigger] p[i])
}

/// The number that the decimal digits `p` spell.
pub open spec fn dec_value(p: Seq<char>) -> nat
    decreases p.len(),
{
    if p.len() == 0 {
        0
    } else {
        dec_value(p.drop_last()) * 10 + digit_value(p.last())
    }
}

/// The decimal digit of `d`.
pub open spec fn digit_char(d: nat) -> char {
    ((d + ('0' as u32)) as u32) as char
}

/// The decimal text of `n`, without leading zeros.
pub open spec fn dec_text(n: nat) -> Seq<char>
    decreases n,
{
    if n < 10 {
        seq![digit_char(n)]
    } else {
        dec_text(n / 10).push(digit_char(n % 10))
    }
}

// ---------------------------------------------------------------------------
// IPv4

/// The octet that the text `p` spells in a dotted quad: one to three decimal
/// digits, no leading zero, at most 255.
pub open spec fn octet_of(p: Seq<char>) -> Option<u8> {
    if 1 <= p.len() <= 3 && all_digits(p) && (p.len() == 1 || p[0] != '0') && dec_value(p)
        <= 255 {
        Some(dec_value(p) as u8)
    } else {
        None
    }
}

/// The IPv4 address that `s` spells (`Ipv4Addr::from_str`): four octets
/// separated by dots, nothing else.
pub open spec fn parse_ipv4_spec(s: Seq<char>) -> Option<Seq<u8>> {
    let ps = split_on(s, '.');
    if ps.len() == 4 && octet_of(ps[0]) is Some && octet_of(ps[1]) is Some && octet_of(ps[2]) is Some
        && octet_of(ps[3]) is Some {
        Some(
            seq![
                octet_of(ps[0])->0,
                octet_of(ps[1])->0,
                octet_of(ps[2])->0,
                octet_of(ps[3])->0,
            ],
        )
    } else {
        None
    }
}

/// The text `Ipv4Addr`'s `Display` writes: the four octets in decimal,
/// separated by dots.
pub open spec fn ipv4_text(a: Seq<u8>) -> Seq<char> {
    dec_text(a[0] as nat) + seq!['.'] + dec_text(a[1] as nat) + seq!['.'] + dec_text(a[2] as nat)
        + seq!['.'] + dec_text(a[3] as nat)
}

/// The octet spelled by `s[a..b]`.
fn parse_octet(s: &Vec<char>, a: usize, b: usize) -> (r: Option<u8>)
    requires
        a <= b <= s.len(),
    ensures
        r == octet_of(s@.subrange(a as int, b as int)),
{
    let ghost p = s@.subrange(a as int, b as int);
    if b - a < 1 || b - a > 3 {
        return None;
    }
    let mut v: u32 = 0;
    let mut i = a;
    while i < b
        invariant
            a <= i <= b <= s.len(),
            b - a <= 3,
            all_digits(s@.subrange(a as int, i as int)),
            v == dec_value(s@.subrange(a as int, i as int)),
            v < 1000,
            p == s@.subrange(a as int, b as int),
        decreases b - i,
    {
        let c = s[i];
        if !('0' <= c && c <= '9') {
            assert(!all_digits(p)) by {
                assert(p[i - a] == c);
            }
            return None;
        }
        let ghost q = s@.subrange(a as int, i + 1);
        assert(q.drop_last() =~= s@.subrange(a as int, i as int));
        assert(v * 10 + ((c as u32) - ('0' as u32)) < 10000) by (nonlinear_arith)
            requires
                v < 1000,
                '0' <= c && c <= '9',
        ;
        v = v * 10 + ((c as u32) - ('0' as u32));
        i = i + 1;
        assert(all_digits(s@.subrange(a as int, i as int))) by {
            assert forall|j: int| 0 <= j < q.len() implies is_digit(#[trigger] q[j]) by {
                if j < q.len() - 1 {
                    assert(q[j] == s@.subrange(a as int, (i - 1) as int)[j]);
                }
            }
        }
        assert(v < 1000) by {
            assert(dec_value(q) < 1000) by {
                lemma_dec_value_bound(q);
            }
        }
    }
    assert(s@.subrange(a as int, b as int) =~= p);
    if b - a > 1 && s[a] == '0' {
        return None;
    }
    if v > 255 {
        return None;
    }
    Some(v as u8)
}

/// A number of `k` digits is below `10^k`.
proof fn lemma_dec_value_bound(p: Seq<char>)
    requires
        all_digits(p),
        p.len() <= 3,
    ensures
        p.len() == 0 ==> dec_value(p) == 0,
        p.len() == 1 ==> dec_value(p) < 10,
        p.len() == 2 ==> dec_value(p) < 100,
        p.len() == 3 ==> dec_value(p) < 1000,
    decreases p.len(),
{
    if p.len() > 0 {
        assert(all_digits(p.drop_last())) by {
            assert forall|j: int| 0 <= j < p.drop_last().len() implies is_digit(
                #[trigger] p.drop_last()[j],
            ) by {
                assert(p.drop_last()[j] == p[j]);
            }
        }
        lemma_dec_value_bound(p.drop_last());
        assert(is_digit(p[p.len() - 1]));
    }
}

/// The IPv4 address spelled by `s[a..b]`.
pub fn parse_ipv4(s: &Vec<char>, a: usize, b: usize) -> (r: Option<Ipv4Address>)
    requires
        a <= b <= s.len(),
    ensures
        r is Some <==> parse_ipv4_spec(s@.subrange(a as int, b as int)) is Some,
        r matches Some(x) ==> parse_ipv4_spec(s@.subrange(a as int, b as int)) == Some(x.octets@),
{
    let ps = split_bounds(s, a, b, '.');
    let ghost texts = range_texts(s@, ps@);
    if ps.len() != 4 {
        return None;
    }
    assert(texts[0] == s@.subrange(ps@[0].0 as int, ps@[0].1 as int));
    assert(texts[1] == s@.subrange(ps@[1].0 as int, ps@[1].1 as int));
    assert(texts[2] == s@.subrange(ps@[2].0 as int, ps@[2].1 as int));
    assert(texts[3] == s@.subrange(ps@[3].0 as int, ps@[3].1 as int));
    let o0 = parse_octet(s, ps[0].0, ps[0].1);
    let o1 = parse_octet(s, ps[1].0, ps[1].1);
    let o2 = parse_octet(s, ps[2].0, ps[2].1);
    let o3 = parse_octet(s, ps[3].0, ps[3].1);
    match (o0, o1, o2, o3) {
        (Some(x0), Some(x1), Some(x2), Some(x3)) => {
            let r = Ipv4Address::new(x0, x1, x2, x3);
            Some(r)
        },
        _ => None,
    }
}


// ---------------------------------------------------------------------------
// IPv6

/// A hexadecimal digit, either case.
pub open spec fn is_hex(c: char) -> bool {
    ('0' <= c && c <= '9') || ('a' <= c && c <= 'f') || ('A' <= c && c <= 'F')
}

/// The value of a hexadecimal digit.
pub open spec fn hex_digit_value(c: char) -> nat {
    if '0' <= c && c <= '9' {
        ((c as u32) - ('0' as u32)) as nat
    } else if 'a' <= c && c <= 'f' {
        ((c as u32) - ('a' as u32) + 10) as nat
    } else {
        ((c as u32) - ('A' as u32) + 10) as nat
    }
}

/// Only hexadecimal digits.
pub open spec fn all_hex(p: Seq<char>) -> bool {
    forall|i: int| 0 <= i < p.len() ==> is_hex(#[trigger] p[i])
}

/// The number that the hexadecimal digits `p` spell.
pub open spec fn hex_value(p: Seq<char>) -> nat
    decreases p.len(),
{
    if p.len() == 0 {
        0
    } else {
        hex_value(p.drop_last()) * 16 + hex_digit_value(p.last())
    }
}

/// The segment that `p` spells: one to four hexadecimal digits, either case,
/// leading zeros allowed.
pub open spec fn segment_of(p: Seq<char>) -> Option<u16> {
    if 1 <= p.len() <= 4 && all_hex(p) {
        Some(hex_value(p) as u16)
    } else {
        None
    }
}

/// The segments of colon-separated hexadecimal pieces.
pub open spec fn hex_segments(ps: Seq<Seq<char>>) -> Option<Seq<u16>>
    decreases ps.len(),
{
    if ps.len() == 0 {
        Some(Seq::<u16>::empty())
    } else {
        match (hex_segments(ps.drop_last()), segment_of(ps.last())) {
            (Some(g), Some(v)) => Some(g.push(v)),
            _ => None,
        }
    }
}

/// The two segments that an embedded dotted quad stands for.
pub open spec fn v4_segments(a: Seq<u8>) -> Seq<u16> {
    seq![(a[0] * 256 + a[1]) as u16, (a[2] * 256 + a[3]) as u16]
}

/// The segments of a run of pieces; where `allow_v4`, the last piece may be a
/// dotted quad standing for two segments.
pub open spec fn piece_segments(ps: Seq<Seq<char>>, allow_v4: bool) -> Option<Seq<u16>> {
    if allow_v4 && ps.len() > 0 && parse_ipv4_spec(ps.last()) is Some {
        match hex_segments(ps.drop_last()) {
            Some(g) => Some(g + v4_segments(parse_ipv4_spec(ps.last())->0)),
            None => None,
        }
    } else {
        hex_segments(ps)
    }
}

/// No piece is empty.
pub open spec fn no_empty(ps: Seq<Seq<char>>) -> bool {
    forall|i: int| 0 <= i < ps.len() ==> (#[trigger] ps[i]).len() > 0
}

/// Index of the first empty piece, or `ps.len()` where there is none.
pub open spec fn first_empty(ps: Seq<Seq<char>>) -> int
    decreases ps.len(),
{
    if ps.len() == 0 {
        0
    } else if ps[0].len() == 0 {
        0
    } else {
        first_empty(ps.drop_first()) + 1
    }
}

/// `n` zero segments.
pub open spec fn zero_segments(n: nat) -> Seq<u16> {
    Seq::new(n, |i: int| 0u16)
}

/// The address that the pieces before and after a `::` spell: at most seven
/// segments in all, the rest zeros; only the part after `::` may end in a
/// dotted quad.
pub open spec fn elided(head: Seq<Seq<char>>, tail: Seq<Seq<char>>) -> Option<Seq<u16>> {
    if no_empty(head) && no_empty(tail) {
        match (piece_segments(head, false), piece_segments(tail, true)) {
            (Some(h), Some(t)) => if h.len() + t.len() <= 7 {
                Some(h + zero_segments((8 - h.len() - t.len()) as nat) + t)
            } else {
                None
            },
            _ => None,
        }
    } else {
        None
    }
}

/// The IPv6 address that `s` spells (`Ipv6Addr::from_str`): eight
/// colon-separated segments, or fewer with one `::` standing for the missing
/// zero segments (at least one); the last two segments may be written as a
/// dotted quad.
pub open spec fn parse_ipv6_spec(s: Seq<char>) -> Option<Seq<u16>> {
    let ps = split_on(s, ':');
    let n = ps.len();
    if no_empty(ps) {
        match piece_segments(ps, true) {
            Some(g) => if g.len() == 8 {
                Some(g)
            } else {
                None
            },
            None => None,
        }
    } else if n >= 3 && ps[0].len() == 0 && ps[1].len() == 0 {
        if n == 3 && ps[2].len() == 0 {
            Some(zero_segments(8))
        } else {
            elided(Seq::empty(), ps.skip(2))
        }
    } else if n >= 3 && ps[n - 1].len() == 0 && ps[n - 2].len() == 0 {
        elided(ps.take(n - 2), Seq::empty())
    } else {
        let j = first_empty(ps);
        if 0 < j < n - 1 {
            elided(ps.take(j), ps.skip(j + 1))
        } else {
            None
        }
    }
}

/// The address that `s` spells (`IpAddr::from_str`): an IPv4 address if it
/// is one, else an IPv6 address.
pub open spec fn parse_ip_spec(s: Seq<char>) -> Option<IpAddress> {
    if parse_ipv4_spec(s) is Some {
        let a = parse_ipv4_spec(s)->0;
        Some(IpAddress::V4(Ipv4Address { octets: [a[0], a[1], a[2], a[3]] }))
    } else if parse_ipv6_spec(s) is Some {
        let g = parse_ipv6_spec(s)->0;
        Some(IpAddress::V6(Ipv6Address { segments: [g[0], g[1], g[2], g[3], g[4], g[5], g[6], g[7]] }))
    } else {
        None
    }
}

/// The segment spelled by `s[a..b]`.
fn parse_segment(s: &Vec<char>, a: usize, b: usize) -> (r: Option<u16>)
    requires
        a <= b <= s.len(),
    ensures
        r == segment_of(s@.subrange(a as int, b as int)),
{
    let ghost p = s@.subrange(a as int, b as int);
    if b - a < 1 || b - a > 4 {
        return None;
    }
    let mut v: u32 = 0;
    let mut i = a;
    while i < b
        invariant
            a <= i <= b <= s.len(),
            b - a <= 4,
            all_hex(s@.subrange(a as int, i as int)),
            v == hex_value(s@.subrange(a as int, i as int)),
            v < 0x10000,
            i - a <= 4,
            v < pow16(i - a),
            p == s@.subrange(a as int, b as int),
        decreases b - i,
    {
        let c = s[i];
        let d: u32 = if '0' <= c && c <= '9' {
            (c as u32) - ('0' as u32)
        } else if 'a' <= c && c <= 'f' {
            (c as u32) - ('a' as u32) + 10
        } else if 'A' <= c && c <= 'F' {
            (c as u32) - ('A' as u32) + 10
        } else {
            assert(!all_hex(p)) by {
                assert(p[i - a] == c);
            }
            return None;
        };
        let ghost q = s@.subrange(a as int, i + 1);
        assert(q.drop_last() =~= s@.subrange(a as int, i as int));
        assert(v * 16 + d < pow16((i + 1 - a) as int)) by (nonlinear_arith)
            requires
                v < pow16(i - a),
                d < 16,
                pow16((i + 1 - a) as int) == pow16(i - a) * 16,
        {
        }
        v = v * 16 + d;
        i = i + 1;
        assert(all_hex(s@.subrange(a as int, i as int))) by {
            assert forall|j: int| 0 <= j < q.len() implies is_hex(#[trigger] q[j]) by {
                if j < q.len() - 1 {
                    assert(q[j] == s@.subrange(a as int, (i - 1) as int)[j]);
                }
            }
        }
    }
    assert(s@.subrange(a as int, b as int) =~= p);
    Some(v as u16)
}


/// Each pair is a range inside a text of length `len`.
pub open spec fn bounds_in(ps: Seq<(usize, usize)>, len: int) -> bool {
    forall|k: int| 0 <= k < ps.len() ==> (#[trigger] ps[k]).0 <= ps[k].1 <= len
}

proof fn lemma_hex_segments_none(ps: Seq<Seq<char>>, i: int)
    requires
        0 <= i < ps.len(),
        segment_of(ps[i]) is None,
    ensures
        hex_segments(ps) is None,
    decreases ps.len(),
{
    if i < ps.len() - 1 {
        assert(ps.drop_last()[i] == ps[i]);
        lemma_hex_segments_none(ps.drop_last(), i);
    }
}

proof fn lemma_hex_segments_len(ps: Seq<Seq<char>>)
    requires
        hex_segments(ps) is Some,
    ensures
        hex_segments(ps)->0.len() == ps.len(),
    decreases ps.len(),
{
    if ps.len() > 0 {
        lemma_hex_segments_len(ps.drop_last());
    }
}

/// The segments of the pieces `ps[lo..hi]` of `s`.
fn hex_segments_exec(s: &Vec<char>, ps: &Vec<(usize, usize)>, lo: usize, hi: usize) -> (r: Option<
    Vec<u16>,
>)
    requires
        lo <= hi <= ps.len(),
        bounds_in(ps@, s@.len() as int),
    ensures
        r is Some <==> hex_segments(range_texts(s@, ps@).subrange(lo as int, hi as int)) is Some,
        r matches Some(g) ==> hex_segments(range_texts(s@, ps@).subrange(lo as int, hi as int))
            == Some(g@),
{
    let ghost texts = range_texts(s@, ps@);
    let mut out: Vec<u16> = Vec::new();
    let mut i = lo;
    assert(texts.subrange(lo as int, lo as int) =~= Seq::<Seq<char>>::empty());
    while i < hi
        invariant
            lo <= i <= hi <= ps.len(),
            bounds_in(ps@, s@.len() as int),
            texts == range_texts(s@, ps@),
            hex_segments(texts.subrange(lo as int, i as int)) == Some(out@),
        decreases hi - i,
    {
        let (a, b) = ps[i];
        assert(ps@[i as int] == (a, b));
        assert(texts[i as int] == s@.subrange(a as int, b as int));
        let ghost next = texts.subrange(lo as int, i + 1);
        assert(next.drop_last() =~= texts.subrange(lo as int, i as int));
        assert(next.last() == texts[i as int]);
        match parse_segment(s, a, b) {
            Some(v) => {
                out.push(v);
            },
            None => {
                proof {
                    lemma_hex_segments_none(texts.subrange(lo as int, hi as int), i - lo);
                }
                return None;
            },
        }
        i = i + 1;
    }
    Some(out)
}

/// The segments of the pieces `ps[lo..hi]` of `s`, the last possibly a dotted quad.
fn piece_segments_exec(
    s: &Vec<char>,
    ps: &Vec<(usize, usize)>,
    lo: usize,
    hi: usize,
    allow_v4: bool,
) -> (r: Option<Vec<u16>>)
    requires
        lo <= hi <= ps.len(),
        bounds_in(ps@, s@.len() as int),
    ensures
        r is Some <==> piece_segments(range_texts(s@, ps@).subrange(lo as int, hi as int), allow_v4)
            is Some,
        r matches Some(g) ==> piece_segments(
            range_texts(s@, ps@).subrange(lo as int, hi as int),
            allow_v4,
        ) == Some(g@),
{
    let ghost texts = range_texts(s@, ps@);
    let ghost run = texts.subrange(lo as int, hi as int);
    if allow_v4 && hi > lo {
        let (a, b) = ps[hi - 1];
        assert(ps@[hi - 1] == (a, b));
        assert(run.last() == s@.subrange(a as int, b as int));
        assert(run.drop_last() =~= texts.subrange(lo as int, hi - 1));
        match parse_ipv4(s, a, b) {
            Some(x) => {
                match hex_segments_exec(s, ps, lo, hi - 1) {
                    Some(mut g) => {
                        let s0 = (x.octets[0] as u16) * 256 + (x.octets[1] as u16);
                        let s1 = (x.octets[2] as u16) * 256 + (x.octets[3] as u16);
                        let ghost g0 = g@;
                        g.push(s0);
                        g.push(s1);
                        assert(g@ =~= g0 + v4_segments(x.octets@));
                        Some(g)
                    },
                    None => None,
                }
            },
            None => hex_segments_exec(s, ps, lo, hi),
        }
    } else {
        hex_segments_exec(s, ps, lo, hi)
    }
}


/// The pieces before the first empty one are not empty.
pub proof fn lemma_first_empty(ps: Seq<Seq<char>>)
    ensures
        0 <= first_empty(ps) <= ps.len(),
        forall|i: int| 0 <= i < first_empty(ps) ==> (#[trigger] ps[i]).len() > 0,
        first_empty(ps) < ps.len() ==> ps[first_empty(ps)].len() == 0,
        (first_empty(ps) == ps.len()) == no_empty(ps),
    decreases ps.len(),
{
    if ps.len() > 0 && ps[0].len() > 0 {
        let t = ps.drop_first();
        lemma_first_empty(t);
        assert forall|i: int| 0 <= i < first_empty(ps) implies (#[trigger] ps[i]).len() > 0 by {
            if i > 0 {
                assert(ps[i] == t[i - 1]);
            }
        }
        if no_empty(t) {
            assert forall|i: int| 0 <= i < ps.len() implies (#[trigger] ps[i]).len() > 0 by {
                if i > 0 {
                    assert(ps[i] == t[i - 1]);
                }
            }
        }
        if first_empty(t) < t.len() {
            assert(ps[first_empty(ps)] == t[first_empty(t)]);
        }
    }
}

/// Index of the first empty piece of `s`'s pieces `ps`, or `ps.len()`.
fn first_empty_exec(Ghost(s): Ghost<Seq<char>>, ps: &Vec<(usize, usize)>) -> (j: usize)
    requires
        bounds_in(ps@, s.len() as int),
    ensures
        j == first_empty(range_texts(s, ps@)),
{
    let ghost texts = range_texts(s, ps@);
    proof {
        lemma_first_empty(texts);
    }
    let mut j: usize = 0;
    while j < ps.len()
        invariant
            0 <= j <= ps.len(),
            bounds_in(ps@, s.len() as int),
            texts == range_texts(s, ps@),
            j <= first_empty(texts),
            0 <= first_empty(texts) <= texts.len(),
            forall|i: int| 0 <= i < first_empty(texts) ==> (#[trigger] texts[i]).len() > 0,
            first_empty(texts) < texts.len() ==> texts[first_empty(texts)].len() == 0,
        decreases ps.len() - j,
    {
        assert(texts[j as int] == s.subrange(ps@[j as int].0 as int, ps@[j as int].1 as int));
        if ps[j].0 == ps[j].1 {
            return j;
        }
        j = j + 1;
    }
    j
}

/// The segments of `head` and `tail` joined around a `::`.
fn elided_exec(
    s: &Vec<char>,
    ps: &Vec<(usize, usize)>,
    hlo: usize,
    hhi: usize,
    tlo: usize,
    thi: usize,
) -> (r: Option<[u16; 8]>)
    requires
        hlo <= hhi <= ps.len(),
        tlo <= thi <= ps.len(),
        bounds_in(ps@, s@.len() as int),
    ensures
        r is Some <==> elided(
            range_texts(s@, ps@).subrange(hlo as int, hhi as int),
            range_texts(s@, ps@).subrange(tlo as int, thi as int),
        ) is Some,
        r matches Some(g) ==> elided(
            range_texts(s@, ps@).subrange(hlo as int, hhi as int),
            range_texts(s@, ps@).subrange(tlo as int, thi as int),
        ) == Some(g@),
{
    let ghost texts = range_texts(s@, ps@);
    let ghost head = texts.subrange(hlo as int, hhi as int);
    let ghost tail = texts.subrange(tlo as int, thi as int);
    proof {
        lemma_first_empty(head);
        lemma_first_empty(tail);
    }
    let mut k = hlo;
    while k < hhi
        invariant
            hlo <= k <= hhi <= ps.len(),
            bounds_in(ps@, s@.len() as int),
            texts == range_texts(s@, ps@),
            head == texts.subrange(hlo as int, hhi as int),
            forall|i: int| 0 <= i < k - hlo ==> (#[trigger] head[i]).len() > 0,
        decreases hhi - k,
    {
        assert(head[k - hlo] == s@.subrange(ps@[k as int].0 as int, ps@[k as int].1 as int));
        if ps[k].0 == ps[k].1 {
            assert(!no_empty(head));
            return None;
        }
        k = k + 1;
    }
    let mut k = tlo;
    while k < thi
        invariant
            tlo <= k <= thi <= ps.len(),
            bounds_in(ps@, s@.len() as int),
            texts == range_texts(s@, ps@),
            tail == texts.subrange(tlo as int, thi as int),
            forall|i: int| 0 <= i < k - tlo ==> (#[trigger] tail[i]).len() > 0,
        decreases thi - k,
    {
        assert(tail[k - tlo] == s@.subrange(ps@[k as int].0 as int, ps@[k as int].1 as int));
        if ps[k].0 == ps[k].1 {
            assert(!no_empty(tail));
            return None;
        }
        k = k + 1;
    }
    assert(no_empty(head) && no_empty(tail));
    let h = match piece_segments_exec(s, ps, hlo, hhi, false) {
        Some(h) => h,
        None => return None,
    };
    let t = match piece_segments_exec(s, ps, tlo, thi, true) {
        Some(t) => t,
        None => return None,
    };
    if h.len() > 7 || t.len() > 7 || h.len() + t.len() > 7 {
        return None;
    }
    let mut out: Vec<u16> = Vec::new();
    let mut i: usize = 0;
    while i < h.len()
        invariant
            0 <= i <= h.len(),
            out@ == h@.take(i as int),
        decreases h.len() - i,
    {
        out.push(h[i]);
        i = i + 1;
        assert(out@ =~= h@.take(i as int));
    }
    let zeros: usize = 8 - h.len() - t.len();
    let mut i: usize = 0;
    while i < zeros
        invariant
            0 <= i <= zeros,
            h@.len() + t@.len() <= 7,
            zeros == 8 - h@.len() - t@.len(),
            out@ == h@ + zero_segments(i as nat),
        decreases zeros - i,
    {
        out.push(0);
        i = i + 1;
        assert(out@ =~= h@ + zero_segments(i as nat));
    }
    let mut i: usize = 0;
    while i < t.len()
        invariant
            0 <= i <= t.len(),
            h@.len() + t@.len() <= 7,
            zeros == 8 - h@.len() - t@.len(),
            out@ == h@ + zero_segments(zeros as nat) + t@.take(i as int),
        decreases t.len() - i,
    {
        out.push(t[i]);
        i = i + 1;
        assert(out@ =~= h@ + zero_segments(zeros as nat) + t@.take(i as int));
    }
    assert(t@.take(t@.len() as int) =~= t@);
    assert(out@.len() == 8);
    let r = [out[0], out[1], out[2], out[3], out[4], out[5], out[6], out[7]];
    assert(r@ =~= out@);
    Some(r)
}

/// The IPv6 address spelled by `s[a..b]`.
pub fn parse_ipv6(s: &Vec<char>, a: usize, b: usize) -> (r: Option<Ipv6Address>)
    requires
        a <= b <= s.len(),
    ensures
        r is Some <==> parse_ipv6_spec(s@.subrange(a as int, b as int)) is Some,
        r matches Some(x) ==> parse_ipv6_spec(s@.subrange(a as int, b as int)) == Some(
            x.segments@,
        ),
{
    let ghost sub = s@.subrange(a as int, b as int);
    let ps = split_bounds(s, a, b, ':');
    let ghost texts = range_texts(s@, ps@);
    assert(texts == split_on(sub, ':'));
    assert(bounds_in(ps@, s@.len() as int));
    let n = ps.len();
    proof {
        lemma_first_empty(texts);
    }
    assert(n >= 1) by {
        crate::text::lemma_split_on_len(sub, ':');
    }
    assert(texts.subrange(0, n as int) =~= texts);
    let j = first_empty_exec(Ghost(s@), &ps);
    if j == n {
        match piece_segments_exec(s, &ps, 0, n, true) {
            Some(g) => {
                if g.len() == 8 {
                    let r = [g[0], g[1], g[2], g[3], g[4], g[5], g[6], g[7]];
                    assert(r@ =~= g@);
                    Some(Ipv6Address { segments: r })
                } else {
                    None
                }
            },
            None => None,
        }
    } else {
        let e0 = ps[0].0 == ps[0].1;
        assert(e0 == (texts[0].len() == 0));
        if n >= 3 && ps[0].0 == ps[0].1 && ps[1].0 == ps[1].1 {
            assert(texts[1].len() == 0);
            if n == 3 && ps[2].0 == ps[2].1 {
                assert(texts[2].len() == 0);
                let r = [0u16, 0, 0, 0, 0, 0, 0, 0];
                assert(r@ =~= zero_segments(8));
                Some(Ipv6Address { segments: r })
            } else {
                assert(n == 3 ==> texts[2].len() > 0);
                assert(texts.subrange(0, 0) =~= Seq::<Seq<char>>::empty());
                assert(texts.subrange(2, n as int) =~= texts.skip(2));
                match elided_exec(s, &ps, 0, 0, 2, n) {
                    Some(r) => Some(Ipv6Address { segments: r }),
                    None => None,
                }
            }
        } else if n >= 3 && ps[n - 1].0 == ps[n - 1].1 && ps[n - 2].0 == ps[n - 2].1 {
            assert(texts[n - 1].len() == 0 && texts[n - 2].len() == 0);
            assert(!(texts[0].len() == 0 && texts[1].len() == 0));
            assert(texts.subrange(n as int, n as int) =~= Seq::<Seq<char>>::empty());
            assert(texts.subrange(0, n - 2) =~= texts.take(n - 2));
            match elided_exec(s, &ps, 0, n - 2, n, n) {
                Some(r) => Some(Ipv6Address { segments: r }),
                None => None,
            }
        } else if 0 < j && j < n - 1 {
            assert(!(texts[0].len() == 0 && texts[1].len() == 0));
            assert(!(texts[n - 1].len() == 0 && texts[n - 2].len() == 0));
            assert(texts.subrange(0, j as int) =~= texts.take(j as int));
            assert(texts.subrange(j + 1, n as int) =~= texts.skip(j + 1));
            match elided_exec(s, &ps, 0, j, j + 1, n) {
                Some(r) => Some(Ipv6Address { segments: r }),
                None => None,
            }
        } else {
            None
        }
    }
}


// ---------------------------------------------------------------------------
// Canonical text

/// The lowercase hexadecimal text of `n`, without leading zeros.
pub open spec fn hex_text(n: nat) -> Seq<char>
    decreases n,
{
    if n < 16 {
        seq![hex_char(n)]
    } else {
        hex_text(n / 16).push(hex_char(n % 16))
    }
}

/// The lowercase hexadecimal digit of `d`.
pub open spec fn hex_char(d: nat) -> char {
    if d < 10 {
        ((d + ('0' as u32)) as u32) as char
    } else {
        ((d - 10 + ('a' as u32)) as u32) as char
    }
}

/// The segments in lowercase hexadecimal, separated by colons.
pub open spec fn hex_join(g: Seq<u16>) -> Seq<char> {
    join(g.map_values(|x: u16| hex_text(x as nat)), seq![':'])
}

/// Number of zero segments starting at `i`.
pub open spec fn zero_run(g: Seq<u16>, i: int) -> nat
    decreases g.len() - i,
{
    if 0 <= i < g.len() && g[i] == 0 {
        1 + zero_run(g, i + 1)
    } else {
        0
    }
}

/// Start and length of the first longest run of zero segments among the
/// runs starting before `k`.
pub open spec fn longest_zero_run(g: Seq<u16>, k: int) -> (int, nat)
    decreases k,
{
    if k <= 0 {
        (0, 0)
    } else {
        let best = longest_zero_run(g, k - 1);
        if zero_run(g, k - 1) > best.1 {
            (k - 1, zero_run(g, k - 1))
        } else {
            best
        }
    }
}

/// Whether the address is an IPv4-mapped address `::ffff:a.b.c.d`.
pub open spec fn is_v4_mapped(g: Seq<u16>) -> bool {
    g[0] == 0 && g[1] == 0 && g[2] == 0 && g[3] == 0 && g[4] == 0 && g[5] == 0xffff
}

/// The text `Ipv6Addr`'s `Display` writes: an IPv4-mapped address as
/// `::ffff:` and a dotted quad; otherwise the segments in lowercase
/// hexadecimal, with the first longest run of two or more zero segments
/// written as `::`.
pub open spec fn ipv6_text(g: Seq<u16>) -> Seq<char> {
    if is_v4_mapped(g) {
        seq![':', ':', 'f', 'f', 'f', 'f', ':'] + ipv4_text(
            seq![(g[6] / 256) as u8, (g[6] % 256) as u8, (g[7] / 256) as u8, (g[7] % 256) as u8],
        )
    } else {
        let run = longest_zero_run(g, 8);
        if run.1 > 1 {
            hex_join(g.take(run.0)) + seq![':', ':'] + hex_join(g.skip(run.0 + run.1))
        } else {
            hex_join(g)
        }
    }
}

/// The text `IpAddr`'s `Display` writes.
pub open spec fn ip_text(a: IpAddress) -> Seq<char> {
    match a {
        IpAddress::V4(x) => ipv4_text(x.octets@),
        IpAddress::V6(x) => ipv6_text(x.segments@),
    }
}

pub(crate) fn push_dec(out: &mut String, n: u8)
    ensures
        final(out)@ == old(out)@ + dec_text(n as nat),
{
    let ghost o = out@;
    if n >= 100 {
        push_char(out, ((n / 100) + 48) as char);
        push_char(out, (((n / 10) % 10) + 48) as char);
        push_char(out, ((n % 10) + 48) as char);
        assert(dec_text(n as nat) =~= seq![digit_char((n / 100) as nat), digit_char(((n / 10) % 10) as nat), digit_char((n % 10) as nat)]) by {
            assert(dec_text((n / 10) as nat) == dec_text((n / 100) as nat).push(digit_char(((n / 10) % 10) as nat)));
            assert((n / 10) / 10 == n / 100);
        }
    } else if n >= 10 {
        push_char(out, ((n / 10) + 48) as char);
        push_char(out, ((n % 10) + 48) as char);
        assert(dec_text(n as nat) =~= seq![digit_char((n / 10) as nat), digit_char((n % 10) as nat)]) by {
            assert(dec_text((n / 10) as nat) == seq![digit_char((n / 10) as nat)]);
        }
    } else {
        push_char(out, (n + 48) as char);
        assert(dec_text(n as nat) =~= seq![digit_char(n as nat)]);
    }
    assert(out@ =~= o + dec_text(n as nat));
}

fn hex_digit_char(d: u16) -> (c: char)
    requires
        d < 16,
    ensures
        c == hex_char(d as nat),
{
    if d < 10 {
        ((d as u8) + 48) as char
    } else {
        ((d as u8) - 10 + 97) as char
    }
}

fn push_hex(out: &mut String, n: u16)
    ensures
        final(out)@ == old(out)@ + hex_text(n as nat),
{
    let ghost o = out@;
    if n >= 0x1000 {
        push_char(out, hex_digit_char(n / 0x1000));
        push_char(out, hex_digit_char((n / 0x100) % 16));
        push_char(out, hex_digit_char((n / 16) % 16));
        push_char(out, hex_digit_char(n % 16));
        assert(hex_text(n as nat) =~= seq![hex_char((n / 0x1000) as nat), hex_char(((n / 0x100) % 16) as nat), hex_char(((n / 16) % 16) as nat), hex_char((n % 16) as nat)]) by {
            assert((n / 16) / 16 == n / 0x100);
            assert((n / 0x100) / 16 == n / 0x1000);
            assert(hex_text((n / 0x100) as nat) == hex_text((n / 0x1000) as nat).push(hex_char(((n / 0x100) % 16) as nat)));
            assert(hex_text((n / 16) as nat) == hex_text((n / 0x100) as nat).push(hex_char(((n / 16) % 16) as nat)));
        }
    } else if n >= 0x100 {
        push_char(out, hex_digit_char(n / 0x100));
        push_char(out, hex_digit_char((n / 16) % 16));
        push_char(out, hex_digit_char(n % 16));
        assert(hex_text(n as nat) =~= seq![hex_char((n / 0x100) as nat), hex_char(((n / 16) % 16) as nat), hex_char((n % 16) as nat)]) by {
            assert((n / 16) / 16 == n / 0x100);
            assert(hex_text((n / 16) as nat) == hex_text((n / 0x100) as nat).push(hex_char(((n / 16) % 16) as nat)));
        }
    } else if n >= 16 {
        push_char(out, hex_digit_char(n / 16));
        push_char(out, hex_digit_char(n % 16));
        assert(hex_text(n as nat) =~= seq![hex_char((n / 16) as nat), hex_char((n % 16) as nat)]) by {
            assert(hex_text((n / 16) as nat) == seq![hex_char((n / 16) as nat)]);
        }
    } else {
        push_char(out, hex_digit_char(n));
        assert(hex_text(n as nat) =~= seq![hex_char(n as nat)]);
    }
    assert(out@ =~= o + hex_text(n as nat));
}

/// Appends `ipv4_text(a)`.
fn push_ipv4(out: &mut String, a: &Ipv4Address)
    ensures
        final(out)@ == old(out)@ + ipv4_text(a.octets@),
{
    let ghost o = out@;
    push_dec(out, a.octets[0]);
    push_char(out, '.');
    push_dec(out, a.octets[1]);
    push_char(out, '.');
    push_dec(out, a.octets[2]);
    push_char(out, '.');
    push_dec(out, a.octets[3]);
    assert(out@ =~= o + ipv4_text(a.octets@));
}

/// Appends `hex_join(g[from..to])`.
fn push_hex_join(out: &mut String, g: &[u16; 8], from: usize, to: usize)
    requires
        from <= to <= 8,
    ensures
        final(out)@ == old(out)@ + hex_join(g@.subrange(from as int, to as int)),
{
    let ghost o = out@;
    let mut i = from;
    assert(g@.subrange(from as int, from as int).map_values(|x: u16| hex_text(x as nat)) =~= Seq::<Seq<char>>::empty());
    while i < to
        invariant
            from <= i <= to <= 8,
            out@ == o + hex_join(g@.subrange(from as int, i as int)),
        decreases to - i,
    {
        let ghost prev = g@.subrange(from as int, i as int).map_values(|x: u16| hex_text(x as nat));
        let ghost next = g@.subrange(from as int, i + 1).map_values(|x: u16| hex_text(x as nat));
        assert(next.drop_last() =~= prev);
        assert(next.last() == hex_text(g@[i as int] as nat));
        if i > from {
            push_char(out, ':');
        }
        push_hex(out, g[i]);
        if i > from {
            assert(join(next, seq![':']) == join(prev, seq![':']) + seq![':'] + next.last());
            assert(out@ =~= o + hex_join(g@.subrange(from as int, i + 1)));
        } else {
            assert(next.len() == 1);
            assert(out@ =~= o + hex_join(g@.subrange(from as int, i + 1)));
        }
        i = i + 1;
    }
}

/// Length of the run of zero segments starting at `i`.
fn zero_run_exec(g: &[u16; 8], i: usize) -> (r: usize)
    requires
        i <= 8,
    ensures
        r == zero_run(g@, i as int),
        i + r <= 8,
{
    let mut j = i;
    while j < 8 && g[j] == 0
        invariant
            i <= j <= 8,
            zero_run(g@, i as int) == (j - i) + zero_run(g@, j as int),
        decreases 8 - j,
    {
        j = j + 1;
    }
    j - i
}

/// Appends `ipv6_text(a)`.
fn push_ipv6(out: &mut String, a: &Ipv6Address)
    ensures
        final(out)@ == old(out)@ + ipv6_text(a.segments@),
{
    let ghost o = out@;
    let g = &a.segments;
    if g[0] == 0 && g[1] == 0 && g[2] == 0 && g[3] == 0 && g[4] == 0 && g[5] == 0xffff {
        push_char(out, ':');
        push_char(out, ':');
        push_char(out, 'f');
        push_char(out, 'f');
        push_char(out, 'f');
        push_char(out, 'f');
        push_char(out, ':');
        let v4 = Ipv4Address::new(
            (g[6] / 256) as u8,
            (g[6] % 256) as u8,
            (g[7] / 256) as u8,
            (g[7] % 256) as u8,
        );
        push_ipv4(out, &v4);
        assert(out@ =~= o + ipv6_text(a.segments@));
    } else {
        let mut best_start: usize = 0;
        let mut best_len: usize = 0;
        let mut k: usize = 0;
        while k < 8
            invariant
                0 <= k <= 8,
                longest_zero_run(g@, k as int) == (best_start as int, best_len as nat),
                best_start + best_len <= 8,
            decreases 8 - k,
        {
            let r = zero_run_exec(g, k);
            if r > best_len {
                best_start = k;
                best_len = r;
            }
            k = k + 1;
        }
        if best_len > 1 {
            push_hex_join(out, g, 0, best_start);
            push_char(out, ':');
            push_char(out, ':');
            push_hex_join(out, g, best_start + best_len, 8);
            assert(g@.subrange(0, best_start as int) =~= g@.take(best_start as int));
            assert(g@.subrange((best_start + best_len) as int, 8) =~= g@.skip((best_start + best_len) as int));
        } else {
            push_hex_join(out, g, 0, 8);
            assert(g@.subrange(0, 8) =~= g@);
        }
        assert(out@ =~= o + ipv6_text(a.segments@));
    }
}

/// Appends `ip_text(a)`.
pub fn push_ip(out: &mut String, a: &IpAddress)
    ensures
        final(out)@ == old(out)@ + ip_text(*a),
{
    match a {
        IpAddress::V4(x) => push_ipv4(out, x),
        IpAddress::V6(x) => push_ipv6(out, x),
    }
}

/// The address spelled by `s[a..b]` (`IpAddr::from_str`).
pub fn parse_ip(s: &Vec<char>, a: usize, b: usize) -> (r: Option<IpAddress>)
    requires
        a <= b <= s.len(),
    ensures
        r == parse_ip_spec(s@.subrange(a as int, b as int)),
{
    match parse_ipv4(s, a, b) {
        Some(x) => {
            let r = Some(IpAddress::V4(x));
            assert(x.octets == [x.octets@[0], x.octets@[1], x.octets@[2], x.octets@[3]]);
            r
        },
        None => match parse_ipv6(s, a, b) {
            Some(x) => {
                assert(x.segments == [x.segments@[0], x.segments@[1], x.segments@[2], x.segments@[3], x.segments@[4], x.segments@[5], x.segments@[6], x.segments@[7]]);
                Some(IpAddress::V6(x))
            },
            None => None,
        },
    }
}


/// A decimal text is non-empty and made of digits only.
pub proof fn lemma_dec_text_digits(n: nat)
    ensures
        dec_text(n).len() > 0,
        all_digits(dec_text(n)),
        crate::text::lacks(dec_text(n), '\n'),
    decreases n,
{
    if n >= 10 {
        lemma_dec_text_digits(n / 10);
        let t = dec_text(n / 10).push(digit_char(n % 10));
        assert forall|i: int| 0 <= i < t.len() implies is_digit(#[trigger] t[i]) by {
            if i < t.len() - 1 {
                assert(t[i] == dec_text(n / 10)[i]);
            }
        }
    }
}

/// `16^k`.
pub open spec fn pow16(k: int) -> int {
    if k <= 0 { 1 } else if k == 1 { 16 } else if k == 2 { 256 } else if k == 3 { 4096 } else if k == 4 { 65536 } else { 1048576 }
}

} // verus!
