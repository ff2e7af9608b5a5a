//! The canonical text of an address reads back as that address, and the
//! text that normalizing writes normalizes to itself.
use vstd::prelude::*;
use crate::ip::{
    is_digit, digit_value, digit_char, all_digits, dec_value, dec_text, octet_of, parse_ipv4_spec,
    ipv4_text, lemma_dec_text_digits, is_hex, hex_digit_value, all_hex, hex_value, hex_text,
    hex_char, segment_of, hex_segments, hex_join, piece_segments, no_empty, first_empty,
    zero_segments, parse_ipv6_spec, zero_run, longest_zero_run, is_v4_mapped, ipv6_text,
    v4_segments, lemma_first_empty, IpAddress, parse_ip_spec, ip_text,
};
use crate::text::{
    join, split_on, lemma_split_join, lemma_split_on_concat, lemma_split_lacks, lacks, trim,
    split_once, find_char, is_ws, lemma_trim_fixed, lines, trimmed_fields, lemma_fields_of_join,
    strip_cr,
};
use crate::address::{
    normalize_spec, prefix_of, ipv4_le, ipv6_le,
    normalize_all, address_list_spec, dedupe, lemma_dedupe_distinct, list_tokens, line_tokens,
    strip_comment, tokens_of_lines,
};

use crate::server::{normalized_entries, listed_addresses, listed_addresses_without, without, strs_view};

verus! {

proof fn lemma_digit_char(d: nat)
    requires
        d < 10,
    ensures
        is_digit(digit_char(d)),
        digit_value(digit_char(d)) == d,
        digit_char(d) == '0' <==> d == 0,
{
}

/// The decimal text of `n` reads back as `n`, has no leading zero and has as
/// many digits as `n` needs.
pub proof fn lemma_dec_roundtrip(n: nat)
    ensures
        dec_text(n).len() >= 1,
        all_digits(dec_text(n)),
        dec_value(dec_text(n)) == n,
        n >= 10 ==> dec_text(n)[0] != '0',
        n < 10 ==> dec_text(n).len() == 1,
        n < 100 ==> dec_text(n).len() <= 2,
        n < 1000 ==> dec_text(n).len() <= 3,
    decreases n,
{
    lemma_dec_text_digits(n);
    if n < 10 {
        lemma_digit_char(n);
        assert(dec_text(n).drop_last() =~= Seq::<char>::empty());
        assert(dec_value(Seq::<char>::empty()) == 0);
        assert(dec_value(dec_text(n)) == n);
    } else {
        lemma_dec_roundtrip(n / 10);
        lemma_digit_char(n % 10);
        let p = dec_text(n / 10);
        let t = p.push(digit_char(n % 10));
        assert(t.drop_last() =~= p);
        assert(t[0] == p[0]);
        assert(dec_value(t) == dec_value(p) * 10 + digit_value(digit_char(n % 10)));
        assert(dec_text(n) == t);
        assert((n / 10) * 10 + n % 10 == n);
        if n / 10 < 10 {
            lemma_digit_char(n / 10);
        }
    }
}

/// A text of digits holds no other character.
pub proof fn lemma_digits_lack(s: Seq<char>, c: char)
    requires
        all_digits(s),
        !is_digit(c),
    ensures
        !s.contains(c),
{
    if s.contains(c) {
        let i = choose|i: int| 0 <= i < s.len() && s[i] == c;
        assert(is_digit(s[i]));
    }
}

/// The decimal text of an octet reads back as that octet.
pub proof fn lemma_octet_roundtrip(x: u8)
    ensures
        octet_of(dec_text(x as nat)) == Some(x),
{
    lemma_dec_roundtrip(x as nat);
}

/// The dotted quad of an address reads back as the address.
pub proof fn lemma_ipv4_roundtrip(a: Seq<u8>)
    requires
        a.len() == 4,
    ensures
        parse_ipv4_spec(ipv4_text(a)) == Some(a),
        ipv4_text(a) == join(
            seq![
                dec_text(a[0] as nat),
                dec_text(a[1] as nat),
                dec_text(a[2] as nat),
                dec_text(a[3] as nat),
            ],
            seq!['.'],
        ),
        forall|c: char| c != '.' && !is_digit(c) ==> !(#[trigger] ipv4_text(a).contains(c)),
{
    let ps = seq![
        dec_text(a[0] as nat),
        dec_text(a[1] as nat),
        dec_text(a[2] as nat),
        dec_text(a[3] as nat),
    ];
    assert(join(ps, seq!['.']) =~= ipv4_text(a)) by {
        let sep = seq!['.'];
        let p1 = seq![ps[0]];
        let p2 = seq![ps[0], ps[1]];
        let p3 = seq![ps[0], ps[1], ps[2]];
        assert(join(p1, sep) == ps[0]);
        assert(p2.drop_last() =~= p1);
        assert(join(p2, sep) == join(p1, sep) + sep + ps[1]);
        assert(p3.drop_last() =~= p2);
        assert(join(p3, sep) == join(p2, sep) + sep + ps[2]);
        assert(ps.drop_last() =~= p3);
        assert(join(ps, sep) == join(p3, sep) + sep + ps[3]);
    }
    assert forall|i: int| 0 <= i < ps.len() implies !(#[trigger] ps[i]).contains('.') by {
        lemma_dec_roundtrip(a[i] as nat);
        lemma_digits_lack(ps[i], '.');
    }
    lemma_split_join(ps, '.');
    lemma_octet_roundtrip(a[0]);
    lemma_octet_roundtrip(a[1]);
    lemma_octet_roundtrip(a[2]);
    lemma_octet_roundtrip(a[3]);
    assert(parse_ipv4_spec(ipv4_text(a)) =~= Some(a)) by {
        assert(seq![a[0], a[1], a[2], a[3]] =~= a);
    }
    assert forall|c: char| c != '.' && !is_digit(c) implies !(#[trigger] ipv4_text(a).contains(c)) by {
        assert forall|i: int| 0 <= i < ps.len() implies !(#[trigger] ps[i]).contains(c) by {
            lemma_dec_roundtrip(a[i] as nat);
            lemma_digits_lack(ps[i], c);
        }
        lemma_join_without(ps, '.', c);
    }
}

proof fn lemma_hex_char(d: nat)
    requires
        d < 16,
    ensures
        is_hex(hex_char(d)),
        hex_digit_value(hex_char(d)) == d,
        is_digit(hex_char(d)) || ('a' <= hex_char(d) <= 'f'),
{
}

/// The hexadecimal text of `n` reads back as `n` and has as many digits as
/// `n` needs.
pub proof fn lemma_hex_roundtrip(n: nat)
    ensures
        hex_text(n).len() >= 1,
        all_hex(hex_text(n)),
        hex_value(hex_text(n)) == n,
        forall|i: int|
            0 <= i < hex_text(n).len() ==> is_digit(#[trigger] hex_text(n)[i]) || ('a' <= hex_text(
                n,
            )[i] <= 'f'),
        n < 16 ==> hex_text(n).len() == 1,
        n < 256 ==> hex_text(n).len() <= 2,
        n < 4096 ==> hex_text(n).len() <= 3,
        n < 65536 ==> hex_text(n).len() <= 4,
    decreases n,
{
    if n < 16 {
        lemma_hex_char(n);
        assert(hex_text(n).drop_last() =~= Seq::<char>::empty());
        assert(hex_value(Seq::<char>::empty()) == 0);
        assert(hex_value(hex_text(n)) == n);
    } else {
        lemma_hex_roundtrip(n / 16);
        lemma_hex_char(n % 16);
        let p = hex_text(n / 16);
        let t = p.push(hex_char(n % 16));
        assert(hex_text(n) == t);
        assert(t.drop_last() =~= p);
        assert(hex_value(t) == hex_value(p) * 16 + hex_digit_value(hex_char(n % 16)));
        assert((n / 16) * 16 + n % 16 == n);
        assert forall|i: int| 0 <= i < t.len() implies is_hex(#[trigger] t[i]) by {
            if i < p.len() {
                assert(t[i] == p[i]);
            }
        }
        assert forall|i: int| 0 <= i < t.len() implies is_digit(#[trigger] t[i]) || ('a' <= t[i] <= 'f') by {
            if i < p.len() {
                assert(t[i] == p[i]);
            }
        }
    }
}

/// The hexadecimal texts of the segments.
pub open spec fn hex_pieces(g: Seq<u16>) -> Seq<Seq<char>> {
    g.map_values(|x: u16| hex_text(x as nat))
}

/// Each hexadecimal piece reads back as its segment.
proof fn lemma_hex_segments_roundtrip(g: Seq<u16>)
    ensures
        hex_segments(hex_pieces(g)) == Some(g),
        no_empty(hex_pieces(g)),
        forall|i: int|
            0 <= i < hex_pieces(g).len() ==> !(#[trigger] hex_pieces(g)[i]).contains(':')
                && !hex_pieces(g)[i].contains('.'),
    decreases g.len(),
{
    if g.len() > 0 {
        lemma_hex_segments_roundtrip(g.drop_last());
        assert(hex_pieces(g).drop_last() =~= hex_pieces(g.drop_last()));
        lemma_hex_roundtrip(g.last() as nat);
        assert(segment_of(hex_text(g.last() as nat)) == Some(g.last()));
        assert(hex_pieces(g).last() == hex_text(g.last() as nat));
        assert(g.drop_last().push(g.last()) =~= g);
    }
    assert forall|i: int| 0 <= i < hex_pieces(g).len() implies (#[trigger] hex_pieces(g)[i]).len() > 0
        && !hex_pieces(g)[i].contains(':') && !hex_pieces(g)[i].contains('.') by {
        let x = g[i];
        lemma_hex_roundtrip(x as nat);
        let t = hex_text(x as nat);
        assert(hex_pieces(g)[i] == t);
        if t.contains(':') {
            let k = choose|k: int| 0 <= k < t.len() && t[k] == ':';
            assert(is_digit(t[k]) || ('a' <= t[k] <= 'f'));
        }
        if t.contains('.') {
            let k = choose|k: int| 0 <= k < t.len() && t[k] == '.';
            assert(is_digit(t[k]) || ('a' <= t[k] <= 'f'));
        }
    }
}

/// A run of zero segments lies inside the address and is all zeros.
proof fn lemma_zero_run(g: Seq<u16>, i: int)
    requires
        0 <= i,
    ensures
        zero_run(g, i) == 0 || i + zero_run(g, i) <= g.len(),
        forall|j: int| i <= j < i + zero_run(g, i) ==> #[trigger] g[j] == 0,
    decreases g.len() - i,
{
    if 0 <= i < g.len() && g[i] == 0 {
        lemma_zero_run(g, i + 1);
    }
}

/// The longest run found is a run of zeros that starts before `k`.
proof fn lemma_longest_zero_run(g: Seq<u16>, k: int)
    requires
        0 <= k,
    ensures
        longest_zero_run(g, k).1 == 0 || (0 <= longest_zero_run(g, k).0 < k
            && longest_zero_run(g, k).1 == zero_run(g, longest_zero_run(g, k).0)),
    decreases k,
{
    if k > 0 {
        lemma_longest_zero_run(g, k - 1);
    }
}

/// A text that lacks a character splits on it into itself alone.
proof fn lemma_split_single(x: Seq<char>, c: char)
    requires
        !x.contains(c),
    ensures
        split_on(x, c) == seq![x],
{
    assert(lacks(x, c)) by {
        assert forall|i: int| 0 <= i < x.len() implies x[i] != c by {
            if x[i] == c {
                assert(x.contains(c));
            }
        }
    }
    lemma_split_lacks(x, c);
}

/// A join of pieces that lack `c`, with a separator other than `c`, lacks `c`.
proof fn lemma_join_without(ps: Seq<Seq<char>>, sep: char, c: char)
    requires
        sep != c,
        forall|i: int| 0 <= i < ps.len() ==> !(#[trigger] ps[i]).contains(c),
    ensures
        !join(ps, seq![sep]).contains(c),
    decreases ps.len(),
{
    if ps.len() > 1 {
        let init = ps.drop_last();
        assert forall|i: int| 0 <= i < init.len() implies !(#[trigger] init[i]).contains(c) by {
            assert(init[i] == ps[i]);
        }
        lemma_join_without(init, sep, c);
        let j = join(init, seq![sep]);
        let t = j + seq![sep] + ps.last();
        assert(!ps[ps.len() - 1].contains(c));
        if t.contains(c) {
            let k = choose|k: int| 0 <= k < t.len() && t[k] == c;
            if k < j.len() {
                assert(j[k] == c);
            } else if k > j.len() {
                assert(ps.last()[k - j.len() - 1] == c);
            }
        }
    } else if ps.len() == 1 {
        assert(!ps[0].contains(c));
    }
}

/// The canonical text of an address whose segments are written out in
/// full splits into the segments' texts.
proof fn lemma_hex_join_split(g: Seq<u16>)
    requires
        g.len() >= 1,
    ensures
        hex_join(g) == join(hex_pieces(g), seq![':']),
        split_on(hex_join(g), ':') == hex_pieces(g),
        !hex_join(g).contains('.'),
{
    assert(g.map_values(|x: u16| hex_text(x as nat)) =~= hex_pieces(g));
    lemma_hex_segments_roundtrip(g);
    lemma_split_join(hex_pieces(g), ':');
    lemma_join_without(hex_pieces(g), ':', '.');
}

/// `x::y` splits on `:` into the pieces of `x`, one empty piece and the
/// pieces of `y`.
proof fn lemma_split_double_colon(x: Seq<char>, y: Seq<char>)
    ensures
        split_on(x + seq![':', ':'] + y, ':') == split_on(x, ':') + seq![Seq::<char>::empty()]
            + split_on(y, ':'),
{
    let e = Seq::<char>::empty();
    assert(x + seq![':', ':'] + y =~= x + seq![':'] + (e + seq![':'] + y));
    lemma_split_on_concat(x, e + seq![':'] + y, ':');
    lemma_split_on_concat(e, y, ':');
    assert(split_on(e, ':') == seq![e]);
}

/// A piece without a dot is not a dotted quad.
proof fn lemma_not_quad(p: Seq<char>)
    requires
        !p.contains('.'),
    ensures
        parse_ipv4_spec(p) is None,
{
    lemma_split_single(p, '.');
}

/// The text with the longest run of zero segments written as `::` reads
/// back as the address.
proof fn lemma_v6_compressed(g: Seq<u16>, s: int, l: int)
    requires
        g.len() == 8,
        0 <= s,
        l >= 2,
        s + l <= 8,
        forall|j: int| s <= j < s + l ==> #[trigger] g[j] == 0,
    ensures
        parse_ipv6_spec(hex_join(g.take(s)) + seq![':', ':'] + hex_join(g.skip(s + l))) == Some(g),
        !(hex_join(g.take(s)) + seq![':', ':'] + hex_join(g.skip(s + l))).contains('.'),
{
    let hd = g.take(s);
    let tl = g.skip(s + l);
    let hp = hex_pieces(hd);
    let tp = hex_pieces(tl);
    let x = hex_join(hd);
    let y = hex_join(tl);
    let text = x + seq![':', ':'] + y;
    let e = Seq::<char>::empty();
    lemma_split_double_colon(x, y);
    lemma_hex_segments_roundtrip(hd);
    lemma_hex_segments_roundtrip(tl);
    assert(g =~= hd + zero_segments(l as nat) + tl);
    if hd.len() > 0 {
        lemma_hex_join_split(hd);
    } else {
        assert(x =~= e);
    }
    if tl.len() > 0 {
        lemma_hex_join_split(tl);
        assert(tp.last() == tp[tp.len() - 1]);
        lemma_not_quad(tp.last());
    } else {
        assert(y =~= e);
    }
    assert(!text.contains('.')) by {
        if text.contains('.') {
            let k = choose|k: int| 0 <= k < text.len() && text[k] == '.';
            if k < x.len() {
                assert(x[k] == '.');
            } else if k >= x.len() + 2 {
                assert(y[k - x.len() - 2] == '.');
            }
        }
    }
    let ps = split_on(text, ':');
    let n = ps.len();
    assert(hex_segments(Seq::<Seq<char>>::empty()) == Some(Seq::<u16>::empty()));
    assert(no_empty(Seq::<Seq<char>>::empty()));
    if hd.len() == 0 && tl.len() == 0 {
        assert(ps =~= seq![e, e, e]);
        assert(g =~= zero_segments(8));
    } else if hd.len() == 0 {
        assert(ps =~= seq![e, e] + tp);
        assert(ps.skip(2) =~= tp);
        assert(ps[2] == tp[0]);
        assert(!no_empty(ps)) by {
            assert(ps[0].len() == 0);
        }
        assert(hd + zero_segments((8 - hd.len() - tl.len()) as nat) + tl =~= g);
    } else if tl.len() == 0 {
        assert(ps =~= hp + seq![e, e]);
        assert(ps.take(n - 2) =~= hp);
        assert(ps[0] == hp[0]);
        assert(ps[n - 1].len() == 0);
        assert(!no_empty(ps)) by {
            assert(ps[n - 1].len() == 0);
        }
        assert(hd + zero_segments((8 - hd.len() - tl.len()) as nat) + tl =~= g);
    } else {
        assert(ps =~= hp + seq![e] + tp);
        assert(ps[0] == hp[0]);
        assert(ps[n - 1] == tp[tp.len() - 1]);
        assert(ps[s] == e);
        assert(!no_empty(ps)) by {
            assert(ps[s].len() == 0);
        }
        lemma_first_empty(ps);
        assert(first_empty(ps) == s) by {
            if first_empty(ps) < s {
                assert(ps[first_empty(ps)] == hp[first_empty(ps)]);
            }
        }
        assert(ps.take(s) =~= hp);
        assert(ps.skip(s + 1) =~= tp);
        assert(hd + zero_segments((8 - hd.len() - tl.len()) as nat) + tl =~= g);
    }
}

/// `ffff` is the segment 0xffff.
proof fn lemma_ffff()
    ensures
        segment_of(seq!['f', 'f', 'f', 'f']) == Some(0xffffu16),
        !seq!['f', 'f', 'f', 'f'].contains(':'),
{
    let f = seq!['f', 'f', 'f', 'f'];
    let e = Seq::<char>::empty();
    assert(f.drop_last() =~= seq!['f', 'f', 'f']);
    assert(seq!['f', 'f', 'f'].drop_last() =~= seq!['f', 'f']);
    assert(seq!['f', 'f'].drop_last() =~= seq!['f']);
    assert(seq!['f'].drop_last() =~= e);
    assert(hex_value(e) == 0);
    assert(hex_value(seq!['f']) == 15);
    assert(hex_value(seq!['f', 'f']) == 255);
    assert(hex_value(seq!['f', 'f', 'f']) == 4095);
    assert(hex_value(f) == 65535);
    if f.contains(':') {
        let k = choose|k: int| 0 <= k < f.len() && f[k] == ':';
        assert(f[k] == 'f');
    }
}

/// The dotted quad of an IPv4-mapped address.
pub open spec fn mapped_quad(g: Seq<u16>) -> Seq<u8> {
    seq![(g[6] / 256) as u8, (g[6] % 256) as u8, (g[7] / 256) as u8, (g[7] % 256) as u8]
}

/// `::ffff:a.b.c.d` splits on `:` into two empty pieces, `ffff` and the quad.
proof fn lemma_mapped_split(g: Seq<u16>)
    requires
        g.len() == 8,
        is_v4_mapped(g),
    ensures
        split_on(ipv6_text(g), ':') == seq![
            Seq::<char>::empty(),
            Seq::<char>::empty(),
            seq!['f', 'f', 'f', 'f'],
            ipv4_text(mapped_quad(g)),
        ],
{
    let v = ipv4_text(mapped_quad(g));
    let f = seq!['f', 'f', 'f', 'f'];
    let e = Seq::<char>::empty();
    let text = seq![':', ':', 'f', 'f', 'f', 'f', ':'] + v;
    assert(ipv6_text(g) == text);
    lemma_ipv4_roundtrip(mapped_quad(g));
    assert(!v.contains(':'));
    lemma_ffff();
    assert(text =~= e + seq![':'] + (e + seq![':'] + (f + seq![':'] + v)));
    lemma_split_on_concat(e, e + seq![':'] + (f + seq![':'] + v), ':');
    lemma_split_on_concat(e, f + seq![':'] + v, ':');
    lemma_split_on_concat(f, v, ':');
    lemma_split_single(f, ':');
    lemma_split_single(v, ':');
    assert(split_on(e, ':') == seq![e]);
    assert(split_on(text, ':') =~= seq![e, e, f, v]);
}

/// `::ffff:a.b.c.d` is no dotted quad: its first dot-separated piece holds
/// colons.
proof fn lemma_mapped_not_quad(g: Seq<u16>)
    requires
        g.len() == 8,
        is_v4_mapped(g),
    ensures
        parse_ipv4_spec(ipv6_text(g)) is None,
{
    let q = mapped_quad(g);
    let text = seq![':', ':', 'f', 'f', 'f', 'f', ':'] + ipv4_text(q);
    assert(ipv6_text(g) == text);
    let d0 = seq![':', ':', 'f', 'f', 'f', 'f', ':'] + dec_text(q[0] as nat);
    let quad = seq![d0, dec_text(q[1] as nat), dec_text(q[2] as nat), dec_text(q[3] as nat)];
    assert(!d0.contains('.')) by {
        lemma_dec_roundtrip(q[0] as nat);
        if d0.contains('.') {
            let k = choose|k: int| 0 <= k < d0.len() && d0[k] == '.';
            if k >= 7 {
                assert(is_digit(dec_text(q[0] as nat)[k - 7]));
            }
        }
    }
    assert forall|i: int| 0 <= i < quad.len() implies !(#[trigger] quad[i]).contains('.') by {
        if i > 0 {
            lemma_dec_roundtrip(q[i] as nat);
            lemma_digits_lack(quad[i], '.');
        }
    }
    assert(join(quad, seq!['.']) =~= text) by {
        let sep = seq!['.'];
        let p1 = seq![quad[0]];
        let p2 = seq![quad[0], quad[1]];
        let p3 = seq![quad[0], quad[1], quad[2]];
        assert(join(p1, sep) == quad[0]);
        assert(p2.drop_last() =~= p1);
        assert(join(p2, sep) == join(p1, sep) + sep + quad[1]);
        assert(p3.drop_last() =~= p2);
        assert(join(p3, sep) == join(p2, sep) + sep + quad[2]);
        assert(quad.drop_last() =~= p3);
        assert(join(quad, sep) == join(p3, sep) + sep + quad[3]);
    }
    lemma_split_join(quad, '.');
    assert(octet_of(d0) is None) by {
        assert(d0[0] == ':');
        assert(!is_digit(d0[0]));
    }
}

/// An IPv4-mapped address written as `::ffff:` and a dotted quad reads back
/// as the address.
proof fn lemma_v6_mapped(g: Seq<u16>)
    requires
        g.len() == 8,
        is_v4_mapped(g),
    ensures
        parse_ipv6_spec(ipv6_text(g)) == Some(g),
        parse_ipv4_spec(ipv6_text(g)) is None,
{
    let q = mapped_quad(g);
    let v = ipv4_text(q);
    let f = seq!['f', 'f', 'f', 'f'];
    let e = Seq::<char>::empty();
    lemma_mapped_split(g);
    lemma_mapped_not_quad(g);
    lemma_ipv4_roundtrip(q);
    lemma_ffff();
    let ps = split_on(ipv6_text(g), ':');
    assert(!no_empty(ps)) by {
        assert(ps[0].len() == 0);
    }
    let tail = seq![f, v];
    assert(ps.skip(2) =~= tail);
    assert(tail.drop_last() =~= seq![f]);
    assert(seq![f].drop_last() =~= Seq::<Seq<char>>::empty());
    assert(hex_segments(Seq::<Seq<char>>::empty()) == Some(Seq::<u16>::empty()));
    assert(hex_segments(seq![f]) =~= Some(seq![0xffffu16]));
    assert(v4_segments(q) =~= seq![g[6], g[7]]);
    assert(piece_segments(tail, true) =~= Some(seq![0xffffu16, g[6], g[7]]));
    assert(no_empty(Seq::<Seq<char>>::empty()));
    assert(no_empty(tail)) by {
        assert(tail[0].len() > 0 && tail[1].len() > 0);
    }
    assert(piece_segments(Seq::<Seq<char>>::empty(), false) == Some(Seq::<u16>::empty()));
    assert(Seq::<u16>::empty() + zero_segments(5) + seq![0xffffu16, g[6], g[7]] =~= g);
}

/// The canonical text of an IPv6 address reads back as the address, and is
/// no dotted quad.
pub proof fn lemma_ipv6_roundtrip(g: Seq<u16>)
    requires
        g.len() == 8,
    ensures
        parse_ipv6_spec(ipv6_text(g)) == Some(g),
        parse_ipv4_spec(ipv6_text(g)) is None,
{
    if is_v4_mapped(g) {
        lemma_v6_mapped(g);
    } else {
        let run = longest_zero_run(g, 8);
        lemma_longest_zero_run(g, 8);
        if run.1 > 1 {
            lemma_zero_run(g, run.0);
            lemma_v6_compressed(g, run.0, run.1 as int);
            lemma_not_quad(ipv6_text(g));
        } else {
            let ps = hex_pieces(g);
            lemma_hex_join_split(g);
            lemma_hex_segments_roundtrip(g);
            assert(ps.last() == ps[7]);
            lemma_not_quad(ps.last());
            lemma_not_quad(ipv6_text(g));
        }
    }
}

/// The canonical text of an address reads back as the address.
pub proof fn lemma_ip_roundtrip(a: IpAddress)
    ensures
        parse_ip_spec(ip_text(a)) == Some(a),
{
    broadcast use vstd::array::group_array_axioms;
    match a {
        IpAddress::V4(x) => {
            let o = x.octets@;
            lemma_ipv4_roundtrip(o);
            assert([o[0], o[1], o[2], o[3]] =~= x.octets);
        },
        IpAddress::V6(x) => {
            let g = x.segments@;
            lemma_ipv6_roundtrip(g);
            assert([g[0], g[1], g[2], g[3], g[4], g[5], g[6], g[7]] =~= x.segments);
        },
    }
}

/// A character that the canonical text of an address can hold.
pub open spec fn address_char(c: char) -> bool {
    is_digit(c) || ('a' <= c && c <= 'f') || c == ':' || c == '.'
}

/// The canonical text of an address is not empty and holds only digits,
/// `a` to `f`, colons and dots.
pub proof fn lemma_ip_text_chars(a: IpAddress, c: char)
    requires
        !address_char(c),
    ensures
        ip_text(a).len() > 0,
        !ip_text(a).contains(c),
{
    match a {
        IpAddress::V4(x) => {
            lemma_ipv4_roundtrip(x.octets@);
            lemma_dec_roundtrip(x.octets@[0] as nat);
        },
        IpAddress::V6(x) => {
            let g = x.segments@;
            let text = ipv6_text(g);
            if is_v4_mapped(g) {
                let v = ipv4_text(mapped_quad(g));
                lemma_ipv4_roundtrip(mapped_quad(g));
                assert(!v.contains(c));
                if text.contains(c) {
                    let k = choose|k: int| 0 <= k < text.len() && text[k] == c;
                    if k >= 7 {
                        assert(v[k - 7] == c);
                    }
                }
            } else {
                let run = longest_zero_run(g, 8);
                lemma_longest_zero_run(g, 8);
                if run.1 > 1 {
                    let x = hex_join(g.take(run.0));
                    let y = hex_join(g.skip(run.0 + run.1));
                    lemma_hex_lacks(g.take(run.0), c);
                    lemma_hex_lacks(g.skip(run.0 + run.1), c);
                    if text.contains(c) {
                        let k = choose|k: int| 0 <= k < text.len() && text[k] == c;
                        if k < x.len() {
                            assert(x[k] == c);
                        } else if k >= x.len() + 2 {
                            assert(y[k - x.len() - 2] == c);
                        }
                    }
                } else {
                    lemma_hex_lacks(g, c);
                    lemma_hex_join_split(g);
                    lemma_hex_segments_roundtrip(g);
                    assert(hex_pieces(g)[0].len() > 0);
                    assert(split_on(text, ':').len() == 8);
                }
            }
        },
    }
}

/// The segments in hexadecimal, colon-separated, hold only digits, `a` to
/// `f` and colons.
proof fn lemma_hex_lacks(g: Seq<u16>, c: char)
    requires
        !address_char(c),
    ensures
        !hex_join(g).contains(c),
{
    let ps = hex_pieces(g);
    assert(g.map_values(|x: u16| hex_text(x as nat)) =~= ps);
    assert forall|i: int| 0 <= i < ps.len() implies !(#[trigger] ps[i]).contains(c) by {
        lemma_hex_roundtrip(g[i] as nat);
        let t = hex_text(g[i] as nat);
        assert(ps[i] == t);
        if t.contains(c) {
            let k = choose|k: int| 0 <= k < t.len() && t[k] == c;
            assert(is_digit(t[k]) || ('a' <= t[k] <= 'f'));
        }
    }
    lemma_join_without(ps, ':', c);
}

/// `find_char` gives the first position of the character, if any.
proof fn lemma_find_char(s: Seq<char>, c: char)
    ensures
        match find_char(s, c) {
            Some(i) => 0 <= i < s.len() && s[i] == c && forall|j: int| 0 <= j < i ==> s[j] != c,
            None => !s.contains(c),
        },
    decreases s.len(),
{
    if s.len() > 0 && s[0] != c {
        let t = s.drop_first();
        lemma_find_char(t, c);
        match find_char(t, c) {
            Some(i) => {
                assert(s[i + 1] == t[i]);
                assert forall|j: int| 0 <= j < i + 1 implies s[j] != c by {
                    if j > 0 {
                        assert(s[j] == t[j - 1]);
                    }
                }
            },
            None => {
                if s.contains(c) {
                    let k = choose|k: int| 0 <= k < s.len() && s[k] == c;
                    assert(t[k - 1] == c);
                }
            },
        }
    }
}

/// Splitting `x c y` once at `c`, where `x` lacks `c`, gives `x` and `y`.
proof fn lemma_split_once_at(x: Seq<char>, c: char, y: Seq<char>)
    requires
        !x.contains(c),
    ensures
        split_once(x + seq![c] + y, c) == Some((x, y)),
{
    let s = x + seq![c] + y;
    lemma_find_char(s, c);
    match find_char(s, c) {
        Some(i) => {
            if i < x.len() {
                assert(x[i] == c);
            } else if i > x.len() {
                assert(s[x.len() as int] == c);
            }
            assert(s.take(i) =~= x);
            assert(s.skip(i + 1) =~= y);
        },
        None => {
            assert(s[x.len() as int] == c);
        },
    }
}

/// A non-empty text without whitespace is its own trim.
proof fn lemma_trim_plain(s: Seq<char>)
    requires
        s.len() > 0,
        forall|c: char| is_ws(c) ==> !s.contains(c),
    ensures
        trim(s) == s,
{
    assert(s.contains(s[0]));
    assert(s.contains(s[s.len() - 1]));
    lemma_trim_fixed(s);
}

/// The canonical text of an address normalizes to itself.
pub proof fn lemma_address_fixed(a: IpAddress)
    ensures
        normalize_spec(ip_text(a)) == Ok::<Seq<char>, (Seq<char>, Seq<char>)>(ip_text(a)),
{
    reveal(normalize_spec);
    let u = ip_text(a);
    assert forall|c: char| is_ws(c) implies !u.contains(c) by {
        lemma_ip_text_chars(a, c);
    }
    lemma_ip_text_chars(a, '-');
    lemma_ip_text_chars(a, '/');
    lemma_trim_plain(u);
    lemma_find_char(u, '-');
    lemma_find_char(u, '/');
    lemma_ip_roundtrip(a);
}

/// The text of a CIDR block in canonical form normalizes to itself.
#[verifier::spinoff_prover]
pub proof fn lemma_block_fixed(a: IpAddress, n: u8)
    requires
        a is V4 ==> n <= 32,
        a is V6 ==> n <= 128,
    ensures
        normalize_spec(ip_text(a) + seq!['/'] + dec_text(n as nat)) == Ok::<
            Seq<char>,
            (Seq<char>, Seq<char>),
        >(ip_text(a) + seq!['/'] + dec_text(n as nat)),
{
    reveal(normalize_spec);
    let x = ip_text(a);
    let d = dec_text(n as nat);
    let u = x + seq!['/'] + d;
    lemma_dec_roundtrip(n as nat);
    assert forall|c: char| is_ws(c) implies !u.contains(c) by {
        lemma_ip_text_chars(a, c);
        lemma_digits_lack(d, c);
        if u.contains(c) {
            let k = choose|k: int| 0 <= k < u.len() && u[k] == c;
            if k < x.len() {
                assert(x[k] == c);
            } else if k > x.len() {
                assert(d[k - x.len() - 1] == c);
            }
        }
    }
    assert forall|c: char| is_ws(c) implies !x.contains(c) by {
        lemma_ip_text_chars(a, c);
    }
    assert forall|c: char| is_ws(c) implies !d.contains(c) by {
        lemma_digits_lack(d, c);
    }
    lemma_ip_text_chars(a, '-');
    lemma_ip_text_chars(a, '/');
    lemma_digits_lack(d, '-');
    assert(!u.contains('-')) by {
        if u.contains('-') {
            let k = choose|k: int| 0 <= k < u.len() && u[k] == '-';
            if k < x.len() {
                assert(x[k] == '-');
            } else if k > x.len() {
                assert(d[k - x.len() - 1] == '-');
            }
        }
    }
    lemma_trim_plain(u);
    lemma_trim_plain(x);
    lemma_trim_plain(d);
    lemma_find_char(u, '-');
    lemma_split_once_at(x, '/', d);
    lemma_ip_roundtrip(a);
    assert(d[0] != '+');
    assert(prefix_of(d) == Some(n));
}

/// The text of a range in canonical form normalizes to itself.
#[verifier::spinoff_prover]
#[verifier::rlimit(40)]
pub proof fn lemma_range_fixed(a: IpAddress, b: IpAddress)
    requires
        (a matches IpAddress::V4(x) && b matches IpAddress::V4(y) && ipv4_le(x, y)) || (
        a matches IpAddress::V6(x) && b matches IpAddress::V6(y) && ipv6_le(x, y)),
    ensures
        normalize_spec(ip_text(a) + seq!['-'] + ip_text(b)) == Ok::<Seq<char>, (Seq<char>, Seq<char>)>(
            ip_text(a) + seq!['-'] + ip_text(b),
        ),
{
    reveal(normalize_spec);
    let x = ip_text(a);
    let y = ip_text(b);
    let u = x + seq!['-'] + y;
    assert forall|c: char| is_ws(c) implies !u.contains(c) by {
        lemma_ip_text_chars(a, c);
        lemma_ip_text_chars(b, c);
        if u.contains(c) {
            let k = choose|k: int| 0 <= k < u.len() && u[k] == c;
            if k < x.len() {
                assert(x[k] == c);
            } else if k > x.len() {
                assert(y[k - x.len() - 1] == c);
            }
        }
    }
    assert forall|c: char| is_ws(c) implies !x.contains(c) by {
        lemma_ip_text_chars(a, c);
    }
    assert forall|c: char| is_ws(c) implies !y.contains(c) by {
        lemma_ip_text_chars(b, c);
    }
    lemma_ip_text_chars(a, '-');
    lemma_trim_plain(u);
    lemma_trim_plain(x);
    lemma_trim_plain(y);
    lemma_split_once_at(x, '-', y);
    lemma_ip_roundtrip(a);
    lemma_ip_roundtrip(b);
}

/// Normalizing the normalized text of a token gives that text back: the
/// text that `normalize_address` writes is canonical.
pub proof fn lemma_normalize_idempotent(token: Seq<char>)
    ensures
        normalize_spec(token) matches Ok(u) ==> normalize_spec(u) == Ok::<
            Seq<char>,
            (Seq<char>, Seq<char>),
        >(u),
{
    reveal(normalize_spec);
    let t = trim(token);
    if t.len() > 0 {
        match split_once(t, '-') {
            Some((p, q)) => {
                match (parse_ip_spec(trim(p)), parse_ip_spec(trim(q))) {
                    (Some(a), Some(b)) => {
                        if (a matches IpAddress::V4(x) && b matches IpAddress::V4(y) && ipv4_le(x, y))
                            || (a matches IpAddress::V6(x) && b matches IpAddress::V6(y) && ipv6_le(
                            x,
                            y,
                        )) {
                            lemma_range_fixed(a, b);
                        }
                    },
                    _ => {},
                }
            },
            None => {
                match split_once(t, '/') {
                    Some((p, q)) => {
                        match (parse_ip_spec(trim(p)), prefix_of(trim(q))) {
                            (Some(a), Some(n)) => {
                                if (a is V4 ==> n <= 32) && (a is V6 ==> n <= 128) {
                                    lemma_block_fixed(a, n);
                                }
                            },
                            _ => {},
                        }
                    },
                    None => {
                        match parse_ip_spec(t) {
                            Some(a) => lemma_address_fixed(a),
                            None => {},
                        }
                    },
                }
            },
        }
    }
}

/// Every address that the tokens normalize to is in canonical form.
proof fn lemma_normalize_all_canonical(ts: Seq<Seq<char>>)
    ensures
        normalize_all(ts) matches Ok(xs) ==> forall|i: int|
            0 <= i < xs.len() ==> normalize_spec(#[trigger] xs[i]) == Ok::<
                Seq<char>,
                (Seq<char>, Seq<char>),
            >(xs[i]),
    decreases ts.len(),
{
    if ts.len() > 0 {
        lemma_normalize_all_canonical(ts.drop_last());
        lemma_normalize_idempotent(ts.last());
        match normalize_all(ts) {
            Ok(xs) => {
                let prev = normalize_all(ts.drop_last())->Ok_0;
                assert forall|i: int| 0 <= i < xs.len() implies normalize_spec(#[trigger] xs[i])
                    == Ok::<Seq<char>, (Seq<char>, Seq<char>)>(xs[i]) by {
                    if i < prev.len() {
                        assert(xs[i] == prev[i]);
                    }
                }
            },
            Err(_) => {},
        }
    }
}

/// Every address of a parsed address list is in canonical form: normalizing
/// it again gives it back.
pub proof fn lemma_list_canonical(raw: Seq<char>)
    ensures
        address_list_spec(raw) matches Ok(xs) ==> forall|i: int|
            0 <= i < xs.len() ==> normalize_spec(#[trigger] xs[i]) == Ok::<
                Seq<char>,
                (Seq<char>, Seq<char>),
            >(xs[i]),
{
    let ts = crate::address::list_tokens(raw);
    lemma_normalize_all_canonical(ts);
    match normalize_all(ts) {
        Ok(ys) => {
            lemma_dedupe_distinct(ys);
            let xs = dedupe(ys);
            assert forall|i: int| 0 <= i < xs.len() implies normalize_spec(#[trigger] xs[i]) == Ok::<
                Seq<char>,
                (Seq<char>, Seq<char>),
            >(xs[i]) by {
                assert(xs.to_set().contains(xs[i]));
                assert(ys.to_set().contains(xs[i]));
                let k = choose|k: int| 0 <= k < ys.len() && ys[k] == xs[i];
                assert(normalize_spec(ys[k]) == Ok::<Seq<char>, (Seq<char>, Seq<char>)>(ys[k]));
            }
        },
        Err(_) => {},
    }
}

/// Each entry that normalizes is kept in canonical form.
proof fn lemma_normalized_entries(xs: Seq<Seq<char>>)
    ensures
        forall|i: int|
            0 <= i < normalized_entries(xs).len() ==> normalize_spec(#[trigger] normalized_entries(xs)[i])
                == Ok::<Seq<char>, (Seq<char>, Seq<char>)>(normalized_entries(xs)[i]),
    decreases xs.len(),
{
    if xs.len() > 0 {
        lemma_normalized_entries(xs.drop_last());
        lemma_normalize_idempotent(xs.last());
        let prev = normalized_entries(xs.drop_last());
        let now = normalized_entries(xs);
        assert forall|i: int| 0 <= i < now.len() implies normalize_spec(#[trigger] now[i]) == Ok::<
            Seq<char>,
            (Seq<char>, Seq<char>),
        >(now[i]) by {
            if i < prev.len() {
                assert(now[i] == prev[i]);
            }
        }
    }
}

/// `without` keeps the values not excluded, in order, and nothing else.
proof fn lemma_without(xs: Seq<Seq<char>>, excluded: Seq<Seq<char>>)
    ensures
        forall|i: int|
            0 <= i < without(xs, excluded).len() ==> xs.contains(#[trigger] without(xs, excluded)[i])
                && !excluded.contains(without(xs, excluded)[i]),
        xs.no_duplicates() ==> without(xs, excluded).no_duplicates(),
    decreases xs.len(),
{
    if xs.len() > 0 {
        let init = xs.drop_last();
        lemma_without(init, excluded);
        let prev = without(init, excluded);
        let now = without(xs, excluded);
        assert forall|i: int| 0 <= i < now.len() implies xs.contains(#[trigger] now[i])
            && !excluded.contains(now[i]) by {
            if i < prev.len() {
                assert(now[i] == prev[i]);
                let k = choose|k: int| 0 <= k < init.len() && init[k] == prev[i];
                assert(xs[k] == init[k]);
            } else {
                assert(xs[xs.len() - 1] == xs.last());
            }
        }
        if xs.no_duplicates() {
            assert(init.no_duplicates()) by {
                assert forall|a: int, b: int| 0 <= a < init.len() && 0 <= b < init.len() && a != b implies init[a]
                    != init[b] by {
                    assert(init[a] == xs[a] && init[b] == xs[b]);
                }
            }
            if !excluded.contains(xs.last()) {
                assert(!prev.contains(xs.last())) by {
                    if prev.contains(xs.last()) {
                        let j = choose|j: int| 0 <= j < prev.len() && prev[j] == xs.last();
                        assert(init.contains(prev[j]));
                        let k = choose|k: int| 0 <= k < init.len() && init[k] == prev[j];
                        assert(xs[k] == xs[xs.len() - 1]);
                    }
                }
                assert forall|a: int, b: int| 0 <= a < now.len() && 0 <= b < now.len() && a != b implies now[a]
                    != now[b] by {
                    if a < prev.len() && b < prev.len() {
                        assert(now[a] == prev[a] && now[b] == prev[b]);
                    } else if a < prev.len() {
                        assert(now[a] == prev[a]);
                    } else if b < prev.len() {
                        assert(now[b] == prev[b]);
                    }
                }
            }
        }
    }
}

/// The addresses that a data list gives a target hold each address once,
/// each in canonical form.
pub proof fn lemma_listed_addresses(raw: Seq<&'static str>)
    ensures
        listed_addresses(raw).no_duplicates(),
        forall|i: int|
            0 <= i < listed_addresses(raw).len() ==> normalize_spec(#[trigger] listed_addresses(raw)[i])
                == Ok::<Seq<char>, (Seq<char>, Seq<char>)>(listed_addresses(raw)[i]),
{
    let ys = normalized_entries(strs_view(raw));
    lemma_normalized_entries(strs_view(raw));
    lemma_dedupe_distinct(ys);
    let xs = dedupe(ys);
    assert forall|i: int| 0 <= i < xs.len() implies normalize_spec(#[trigger] xs[i]) == Ok::<
        Seq<char>,
        (Seq<char>, Seq<char>),
    >(xs[i]) by {
        assert(xs.to_set().contains(xs[i]));
        assert(ys.to_set().contains(xs[i]));
        let k = choose|k: int| 0 <= k < ys.len() && ys[k] == xs[i];
        assert(normalize_spec(ys[k]) == Ok::<Seq<char>, (Seq<char>, Seq<char>)>(ys[k]));
    }
}

/// A Google target's addresses hold each address once, each in canonical
/// form, each from its data list and none of the excluded ranges: the
/// targets of one region hold disjoint address lists.
pub proof fn lemma_listed_addresses_without(raw: Seq<&'static str>, excluded: Seq<&'static str>)
    ensures
        listed_addresses_without(raw, excluded).no_duplicates(),
        forall|i: int|
            0 <= i < listed_addresses_without(raw, excluded).len() ==> {
                let x = #[trigger] listed_addresses_without(raw, excluded)[i];
                &&& normalize_spec(x) == Ok::<Seq<char>, (Seq<char>, Seq<char>)>(x)
                &&& listed_addresses(raw).contains(x)
                &&& !normalized_entries(strs_view(excluded)).contains(x)
            },
{
    lemma_listed_addresses(raw);
    lemma_without(listed_addresses(raw), normalized_entries(strs_view(excluded)));
    let xs = listed_addresses(raw);
    let w = listed_addresses_without(raw, excluded);
    assert forall|i: int| 0 <= i < w.len() implies normalize_spec(#[trigger] w[i]) == Ok::<
        Seq<char>,
        (Seq<char>, Seq<char>),
    >(w[i]) by {
        assert(xs.contains(w[i]));
        let k = choose|k: int| 0 <= k < xs.len() && xs[k] == w[i];
        assert(normalize_spec(xs[k]) == Ok::<Seq<char>, (Seq<char>, Seq<char>)>(xs[k]));
    }
}

/// A character that a normalized token can hold.
pub open spec fn token_char(c: char) -> bool {
    address_char(c) || c == '/' || c == '-'
}

/// Three texts glued together hold only what each holds.
proof fn lemma_concat3_lacks(x: Seq<char>, m: char, y: Seq<char>, c: char)
    requires
        !x.contains(c),
        m != c,
        !y.contains(c),
    ensures
        !(x + seq![m] + y).contains(c),
{
    let u = x + seq![m] + y;
    if u.contains(c) {
        let k = choose|k: int| 0 <= k < u.len() && u[k] == c;
        if k < x.len() {
            assert(x[k] == c);
        } else if k > x.len() {
            assert(y[k - x.len() - 1] == c);
        }
    }
}

/// What a token normalizes to is not empty and holds only digits, `a` to
/// `f`, colons, dots, slashes and hyphens.
pub proof fn lemma_normalized_text(token: Seq<char>, c: char)
    requires
        normalize_spec(token) is Ok,
        !token_char(c),
    ensures
        normalize_spec(token)->Ok_0.len() > 0,
        !normalize_spec(token)->Ok_0.contains(c),
{
    reveal(normalize_spec);
    let t = trim(token);
    match split_once(t, '-') {
        Some((p, q)) => {
            let a = parse_ip_spec(trim(p))->0;
            let b = parse_ip_spec(trim(q))->0;
            lemma_ip_text_chars(a, c);
            lemma_ip_text_chars(b, c);
            lemma_concat3_lacks(ip_text(a), '-', ip_text(b), c);
        },
        None => {
            match split_once(t, '/') {
                Some((p, q)) => {
                    let a = parse_ip_spec(trim(p))->0;
                    let n = prefix_of(trim(q))->0;
                    lemma_ip_text_chars(a, c);
                    lemma_dec_roundtrip(n as nat);
                    if is_digit(c) {
                        assert(false);
                    }
                    lemma_digits_lack(dec_text(n as nat), c);
                    lemma_concat3_lacks(ip_text(a), '/', dec_text(n as nat), c);
                },
                None => {
                    lemma_ip_text_chars(parse_ip_spec(t)->0, c);
                },
            }
        },
    }
}

/// A list without repeats is its own `dedupe`.
proof fn lemma_dedupe_distinct_fixed(xs: Seq<Seq<char>>)
    requires
        xs.no_duplicates(),
    ensures
        dedupe(xs) == xs,
    decreases xs.len(),
{
    if xs.len() > 0 {
        let init = xs.drop_last();
        assert(init.no_duplicates()) by {
            assert forall|a: int, b: int| 0 <= a < init.len() && 0 <= b < init.len() && a != b implies init[a]
                != init[b] by {
                assert(init[a] == xs[a] && init[b] == xs[b]);
            }
        }
        lemma_dedupe_distinct_fixed(init);
        if init.contains(xs.last()) {
            let k = choose|k: int| 0 <= k < init.len() && init[k] == xs.last();
            assert(xs[k] == xs[xs.len() - 1]);
        }
        assert(init.push(xs.last()) =~= xs);
    }
}

/// Canonical tokens normalize to themselves, all of them.
proof fn lemma_normalize_all_fixed(xs: Seq<Seq<char>>)
    requires
        forall|i: int|
            0 <= i < xs.len() ==> normalize_spec(#[trigger] xs[i]) == Ok::<
                Seq<char>,
                (Seq<char>, Seq<char>),
            >(xs[i]),
    ensures
        normalize_all(xs) == Ok::<Seq<Seq<char>>, (Seq<char>, Seq<char>)>(xs),
    decreases xs.len(),
{
    if xs.len() > 0 {
        let init = xs.drop_last();
        assert forall|i: int| 0 <= i < init.len() implies normalize_spec(#[trigger] init[i]) == Ok::<
            Seq<char>,
            (Seq<char>, Seq<char>),
        >(init[i]) by {
            assert(init[i] == xs[i]);
        }
        lemma_normalize_all_fixed(init);
        assert(normalize_spec(xs[xs.len() - 1]) == Ok::<Seq<char>, (Seq<char>, Seq<char>)>(
            xs[xs.len() - 1],
        ));
        assert(xs[xs.len() - 1] == xs.last());
        assert(init.push(xs.last()) =~= xs);
    } else {
        assert(xs =~= Seq::<Seq<char>>::empty());
    }
}

/// Each canonical token is a line of its own tokens.
proof fn lemma_token_line(x: Seq<char>)
    requires
        normalize_spec(x) == Ok::<Seq<char>, (Seq<char>, Seq<char>)>(x),
    ensures
        line_tokens(x) == seq![x],
        x.len() > 0,
        !x.contains('\n'),
        !x.contains(','),
        !x.contains('#'),
        strip_cr(x) == x,
        trim(x) == x,
{
    lemma_normalized_text(x, '#');
    lemma_normalized_text(x, ',');
    lemma_normalized_text(x, '\n');
    lemma_normalized_text(x, '\r');
    assert forall|c: char| is_ws(c) implies !x.contains(c) by {
        lemma_normalized_text(x, c);
    }
    lemma_trim_plain(x);
    lemma_find_char(x, '#');
    assert(strip_comment(x) == x);
    lemma_fields_of_join(seq![x], ',');
    assert(join(seq![x], seq![',']) == x);
    assert(x.contains(x[x.len() - 1]));
}

/// Tokens that are lines of their own give themselves back.
proof fn lemma_tokens_of_token_lines(xs: Seq<Seq<char>>)
    requires
        forall|i: int| 0 <= i < xs.len() ==> line_tokens(#[trigger] xs[i]) == seq![xs[i]],
    ensures
        tokens_of_lines(xs) == xs,
    decreases xs.len(),
{
    if xs.len() > 0 {
        let init = xs.drop_last();
        assert forall|i: int| 0 <= i < init.len() implies line_tokens(#[trigger] init[i]) == seq![init[i]] by {
            assert(init[i] == xs[i]);
        }
        lemma_tokens_of_token_lines(init);
        assert(xs[xs.len() - 1] == xs.last());
        assert(init + seq![xs.last()] =~= xs);
    }
}

/// A parsed address list read again, one address per line or all on one
/// line separated by commas, gives the same list back.
pub proof fn lemma_list_roundtrip(raw: Seq<char>)
    ensures
        address_list_spec(raw) matches Ok(v) ==> {
            &&& address_list_spec(join(v, seq!['\n'])) == Ok::<
                Seq<Seq<char>>,
                (Seq<char>, Seq<char>),
            >(v)
            &&& address_list_spec(join(v, seq![','])) == Ok::<Seq<Seq<char>>, (Seq<char>, Seq<char>)>(v)
        },
{
    match address_list_spec(raw) {
        Ok(v) => {
            lemma_list_canonical(raw);
            let ts = list_tokens(raw);
            match normalize_all(ts) {
                Ok(ys) => {
                    lemma_dedupe_distinct(ys);
                },
                Err(_) => {},
            }
            assert(v.no_duplicates());
            lemma_dedupe_distinct_fixed(v);
            lemma_normalize_all_fixed(v);
            assert forall|i: int| 0 <= i < v.len() implies line_tokens(#[trigger] v[i]) == seq![v[i]]
                && v[i].len() > 0 && !v[i].contains('\n') && !v[i].contains(',') && !v[i].contains('#')
                && strip_cr(v[i])
                == v[i] && trim(v[i]) == v[i] by {
                lemma_token_line(v[i]);
            }
            lemma_tokens_of_token_lines(v);
            // One address per line.
            let nl = join(v, seq!['\n']);
            if v.len() == 0 {
                assert(nl =~= Seq::<char>::empty());
                assert(lines(nl) =~= Seq::<Seq<char>>::empty());
            } else {
                lemma_split_join(v, '\n');
                assert(v[v.len() - 1].len() > 0);
                assert(lines(nl) =~= v);
            }
            assert(list_tokens(nl) == v);
            // All on one line.
            let cm = join(v, seq![',']);
            if v.len() == 0 {
                assert(cm =~= Seq::<char>::empty());
                assert(lines(cm) =~= Seq::<Seq<char>>::empty());
                assert(tokens_of_lines(Seq::<Seq<char>>::empty()) =~= v);
            } else {
                assert forall|i: int| 0 <= i < v.len() implies !(#[trigger] v[i]).contains('\n') by {}
                lemma_join_without(v, ',', '\n');
                lemma_join_without(v, ',', '#');
                lemma_split_single(cm, '\n');
                lemma_fields_of_join(v, ',');
                lemma_find_char(cm, '#');
                assert(strip_comment(cm) == cm);
                assert(cm.len() > 0) by {
                    assert(join(v, seq![',']).len() >= v[0].len()) by {
                        lemma_join_len(v);
                    }
                }
                assert(lines(cm) =~= seq![cm]);
                assert(line_tokens(cm) == v);
                assert(tokens_of_lines(seq![cm]) =~= v) by {
                    assert(seq![cm].drop_last() =~= Seq::<Seq<char>>::empty());
                    assert(tokens_of_lines(Seq::<Seq<char>>::empty()) == Seq::<Seq<char>>::empty());
                    assert(seq![cm].last() == cm);
                    assert(Seq::<Seq<char>>::empty() + v =~= v);
                }
            }
            assert(list_tokens(cm) == v);
        },
        Err(_) => {},
    }
}

/// A join is at least as long as its first piece.
proof fn lemma_join_len(ps: Seq<Seq<char>>)
    requires
        ps.len() > 0,
    ensures
        join(ps, seq![',']).len() >= ps[0].len(),
    decreases ps.len(),
{
    if ps.len() > 1 {
        lemma_join_len(ps.drop_last());
        assert(ps.drop_last()[0] == ps[0]);
    }
}


/// Every entry of a data list is an address, CIDR block or range in
/// canonical form.
pub open spec fn all_canonical(xs: Seq<&'static str>) -> bool {
    forall|i: int|
        0 <= i < xs.len() ==> normalize_spec(#[trigger] xs[i]@) == Ok::<
            Seq<char>,
            (Seq<char>, Seq<char>),
        >(xs[i]@)
}

/// The text of an IPv4 block in canonical form normalizes to itself.
pub proof fn lemma_v4_block(s: Seq<char>, a: u8, b: u8, c: u8, d: u8, n: u8)
    requires
        n <= 32,
        s =~= ipv4_text(seq![a, b, c, d]) + seq!['/'] + dec_text(n as nat),
    ensures
        normalize_spec(s) == Ok::<Seq<char>, (Seq<char>, Seq<char>)>(s),
{
    let x = crate::ip::Ipv4Address { octets: [a, b, c, d] };
    assert(x.octets@ =~= seq![a, b, c, d]);
    lemma_block_fixed(IpAddress::V4(x), n);
}

/// The text of an IPv6 block in canonical form normalizes to itself.
pub proof fn lemma_v6_block(s: Seq<char>, g: Seq<u16>, n: u8)
    requires
        n <= 128,
        g.len() == 8,
        s =~= ipv6_text(g) + seq!['/'] + dec_text(n as nat),
    ensures
        normalize_spec(s) == Ok::<Seq<char>, (Seq<char>, Seq<char>)>(s),
{
    let x = crate::ip::Ipv6Address { segments: [g[0], g[1], g[2], g[3], g[4], g[5], g[6], g[7]] };
    assert(x.segments@ =~= g);
    lemma_block_fixed(IpAddress::V6(x), n);
}

/// The text of an ascending IPv4 range in canonical form normalizes to
/// itself.
pub proof fn lemma_v4_range(s: Seq<char>, a: Seq<u8>, b: Seq<u8>)
    requires
        a.len() == 4,
        b.len() == 4,
        crate::address::lex_le_from(
            crate::address::octet_ints(a),
            crate::address::octet_ints(b),
            0,
        ),
        s =~= ipv4_text(a) + seq!['-'] + ipv4_text(b),
    ensures
        normalize_spec(s) == Ok::<Seq<char>, (Seq<char>, Seq<char>)>(s),
{
    let x = crate::ip::Ipv4Address { octets: [a[0], a[1], a[2], a[3]] };
    let y = crate::ip::Ipv4Address { octets: [b[0], b[1], b[2], b[3]] };
    assert(x.octets@ =~= a);
    assert(y.octets@ =~= b);
    lemma_range_fixed(IpAddress::V4(x), IpAddress::V4(y));
}

/// A data list whose entries are all canonical loses and changes no entry
/// when normalized: a target's addresses are its data list, each once.
pub proof fn lemma_canonical_entries(raw: Seq<&'static str>)
    requires
        all_canonical(raw),
    ensures
        normalized_entries(strs_view(raw)) == strs_view(raw),
        listed_addresses(raw) == dedupe(strs_view(raw)),
    decreases raw.len(),
{
    if raw.len() > 0 {
        let init = raw.drop_last();
        assert forall|i: int| 0 <= i < init.len() implies normalize_spec(#[trigger] init[i]@) == Ok::<
            Seq<char>,
            (Seq<char>, Seq<char>),
        >(init[i]@) by {
            assert(init[i] == raw[i]);
        }
        lemma_canonical_entries(init);
        let xs = strs_view(raw);
        assert(xs == strs_view(init).push(raw.last()@));
        assert(xs.drop_last() =~= strs_view(init));
        assert(raw[raw.len() - 1] == raw.last());
        assert(normalize_spec(raw[raw.len() - 1]@) == Ok::<Seq<char>, (Seq<char>, Seq<char>)>(
            raw[raw.len() - 1]@,
        ));
    }
}

/// Adds a canonical entry to a data list.
pub fn push_canonical(r: &mut Vec<&'static str>, x: &'static str)
    requires
        all_canonical(old(r)@),
        normalize_spec(x@) == Ok::<Seq<char>, (Seq<char>, Seq<char>)>(x@),
    ensures
        final(r)@ == old(r)@.push(x),
        all_canonical(final(r)@),
{
    let ghost before = r@;
    r.push(x);
    assert forall|i: int| 0 <= i < r@.len() implies normalize_spec(#[trigger] r@[i]@) == Ok::<
        Seq<char>,
        (Seq<char>, Seq<char>),
    >(r@[i]@) by {
        if i < before.len() {
            assert(r@[i] == before[i]);
        }
    }
}
} // verus!
