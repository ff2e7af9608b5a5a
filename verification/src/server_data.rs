//! Published address ranges of the cloud regions that host game servers.
use vstd::prelude::*;
use crate::address::{lex_le_from, normalize_spec};
use crate::canonical::{all_canonical, push_canonical, lemma_v4_block, lemma_v6_block, lemma_v4_range};
use crate::ip::{dec_text, hex_text, longest_zero_run, zero_run};
use crate::text::join;

verus! {

/// Google Cloud ranges of the brazil region.
pub open spec fn brazil_ranges() -> Seq<&'static str> {
    seq![
        "34.39.128.0/17",
        "34.95.128.0/17",
        "34.104.80.0/21",
        "34.124.16.0/21",
        "34.151.0.0/18",
        "34.151.192.0/18",
        "35.198.0.0/18",
        "35.199.64.0/18",
        "35.215.0.0/18",
        "35.247.192.0/18",
        "2600:1900:40f0::/44",
    ]
}

/// Adds the entries of `brazil` from the 1. group of 12, each checked to be canonical.
#[verifier::spinoff_prover]
#[verifier::rlimit(100)]
fn brazil_part_1(r: &mut Vec<&'static str>)
    requires
        all_canonical(old(r)@),
    ensures
        final(r)@ == old(r)@ + seq!["34.39.128.0/17", "34.95.128.0/17", "34.104.80.0/21", "34.124.16.0/21", "34.151.0.0/18", "34.151.192.0/18", "35.198.0.0/18", "35.199.64.0/18", "35.215.0.0/18", "35.247.192.0/18", "2600:1900:40f0::/44"],
        all_canonical(final(r)@),
{
    let ghost start = r@;
    assert(normalize_spec("34.39.128.0/17"@) == Ok::<Seq<char>, (Seq<char>, Seq<char>)>("34.39.128.0/17"@)) by {
        reveal_strlit("34.39.128.0/17");
        reveal_with_fuel(dec_text, 4);
        lemma_v4_block("34.39.128.0/17"@, 34, 39, 128, 0, 17);
    }
    push_canonical(r, "34.39.128.0/17");
    assert(normalize_spec("34.95.128.0/17"@) == Ok::<Seq<char>, (Seq<char>, Seq<char>)>("34.95.128.0/17"@)) by {
        reveal_strlit("34.95.128.0/17");
        reveal_with_fuel(dec_text, 4);
        lemma_v4_block("34.95.128.0/17"@, 34, 95, 128, 0, 17);
    }
    push_canonical(r, "34.95.128.0/17");
    assert(normalize_spec("34.104.80.0/21"@) == Ok::<Seq<char>, (Seq<char>, Seq<char>)>("34.104.80.0/21"@)) by {
        reveal_strlit("34.104.80.0/21");
        reveal_with_fuel(dec_text, 4);
        lemma_v4_block("34.104.80.0/21"@, 34, 104, 80, 0, 21);
    }
    push_canonical(r, "34.104.80.0/21");
    assert(normalize_spec("34.124.16.0/21"@) == Ok::<Seq<char>, (Seq<char>, Seq<char>)>("34.124.16.0/21"@)) by {
        reveal_strlit("34.124.16.0/21");
        reveal_with_fuel(dec_text, 4);
        lemma_v4_block("34.124.16.0/21"@, 34, 124, 16, 0, 21);
    }
    push_canonical(r, "34.124.16.0/21");
    assert(normalize_spec("34.151.0.0/18"@) == Ok::<Seq<char>, (Seq<char>, Seq<char>)>("34.151.0.0/18"@)) by {
        reveal_strlit("34.151.0.0/18");
        reveal_with_fuel(dec_text, 4);
        lemma_v4_block("34.151.0.0/18"@, 34, 151, 0, 0, 18);
    }
    push_canonical(r, "34.151.0.0/18");
    assert(normalize_spec("34.151.192.0/18"@) == Ok::<Seq<char>, (Seq<char>, Seq<char>)>("34.151.192.0/18"@)) by {
        reveal_strlit("34.151.192.0/18");
        reveal_with_fuel(dec_text, 4);
        lemma_v4_block("34.151.192.0/18"@, 34, 151, 192, 0, 18);
    }
    push_canonical(r, "34.151.192.0/18");
    assert(normalize_spec("35.198.0.0/18"@) == Ok::<Seq<char>, (Seq<char>, Seq<char>)>("35.198.0.0/18"@)) by {
        reveal_strlit("35.198.0.0/18");
        reveal_with_fuel(dec_text, 4);
        lemma_v4_block("35.198.0.0/18"@, 35, 198, 0, 0, 18);
    }
    push_canonical(r, "35.198.0.0/18");
    assert(normalize_spec("35.199.64.0/18"@) == Ok::<Seq<char>, (Seq<char>, Seq<char>)>("35.199.64.0/18"@)) by {
        reveal_strlit("35.199.64.0/18");
        reveal_with_fuel(dec_text, 4);
        lemma_v4_block("35.199.64.0/18"@, 35, 199, 64, 0, 18);
    }
    push_canonical(r, "35.199.64.0/18");
    assert(normalize_spec("35.215.0.0/18"@) == Ok::<Seq<char>, (Seq<char>, Seq<char>)>("35.215.0.0/18"@)) by {
        reveal_strlit("35.215.0.0/18");
        reveal_with_fuel(dec_text, 4);
        lemma_v4_block("35.215.0.0/18"@, 35, 215, 0, 0, 18);
    }
    push_canonical(r, "35.215.0.0/18");
    assert(normalize_spec("35.247.192.0/18"@) == Ok::<Seq<char>, (Seq<char>, Seq<char>)>("35.247.192.0/18"@)) by {
        reveal_strlit("35.247.192.0/18");
        reveal_with_fuel(dec_text, 4);
        lemma_v4_block("35.247.192.0/18"@, 35, 247, 192, 0, 18);
    }
    push_canonical(r, "35.247.192.0/18");
    assert(normalize_spec("2600:1900:40f0::/44"@) == Ok::<Seq<char>, (Seq<char>, Seq<char>)>("2600:1900:40f0::/44"@)) by {
        reveal_strlit("2600:1900:40f0::/44");
        reveal_with_fuel(dec_text, 4);
        reveal_with_fuel(hex_text, 4);
        reveal_with_fuel(longest_zero_run, 9);
        reveal_with_fuel(zero_run, 9);
        reveal_with_fuel(join, 8);
        let g = seq![9728u16, 6400u16, 16624u16, 0u16, 0u16, 0u16, 0u16, 0u16];
        assert(g.take(3).map_values(|x: u16| hex_text(x as nat)) =~= seq![hex_text(9728), hex_text(6400), hex_text(16624)]);
        assert(g.skip(8).map_values(|x: u16| hex_text(x as nat)) =~= Seq::<Seq<char>>::empty());
        lemma_v6_block("2600:1900:40f0::/44"@, g, 44);
    }
    push_canonical(r, "2600:1900:40f0::/44");
    assert(r@ =~= start + seq!["34.39.128.0/17", "34.95.128.0/17", "34.104.80.0/21", "34.124.16.0/21", "34.151.0.0/18", "34.151.192.0/18", "35.198.0.0/18", "35.199.64.0/18", "35.215.0.0/18", "35.247.192.0/18", "2600:1900:40f0::/44"]);
}

/// Google Cloud ranges of the brazil region.
pub fn brazil() -> (r: Vec<&'static str>)
    ensures
        r@ == brazil_ranges(),
        all_canonical(r@),
{
    let mut r: Vec<&'static str> = Vec::new();
    brazil_part_1(&mut r);
    assert(r@ =~= brazil_ranges());
    r
}

/// Google Cloud ranges of the australia region.
pub open spec fn australia_ranges() -> Seq<&'static str> {
    seq![
        "34.40.128.0/17",
        "34.87.192.0/18",
        "34.104.104.0/21",
        "34.116.64.0/18",
        "34.124.40.0/21",
        "34.151.64.0/18",
        "34.151.128.0/18",
        "35.189.0.0/18",
        "35.197.160.0/19",
        "35.201.0.0/19",
        "35.244.64.0/18",
        "2600:1900:40b0::/44",
    ]
}

/// Adds the entries of `australia` from the 1. group of 12, each checked to be canonical.
#[verifier::spinoff_prover]
#[verifier::rlimit(100)]
fn australia_part_1(r: &mut Vec<&'static str>)
    requires
        all_canonical(old(r)@),
    ensures
        final(r)@ == old(r)@ + seq!["34.40.128.0/17", "34.87.192.0/18", "34.104.104.0/21", "34.116.64.0/18", "34.124.40.0/21", "34.151.64.0/18", "34.151.128.0/18", "35.189.0.0/18", "35.197.160.0/19", "35.201.0.0/19", "35.244.64.0/18", "2600:1900:40b0::/44"],
        all_canonical(final(r)@),
{
    let ghost start = r@;
    assert(normalize_spec("34.40.128.0/17"@) == Ok::<Seq<char>, (Seq<char>, Seq<char>)>("34.40.128.0/17"@)) by {
        reveal_strlit("34.40.128.0/17");
        reveal_with_fuel(dec_text, 4);
        lemma_v4_block("34.40.128.0/17"@, 34, 40, 128, 0, 17);
    }
    push_canonical(r, "34.40.128.0/17");
    assert(normalize_spec("34.87.192.0/18"@) == Ok::<Seq<char>, (Seq<char>, Seq<char>)>("34.87.192.0/18"@)) by {
        reveal_strlit("34.87.192.0/18");
        reveal_with_fuel(dec_text, 4);
        lemma_v4_block("34.87.192.0/18"@, 34, 87, 192, 0, 18);
    }
    push_canonical(r, "34.87.192.0/18");
    assert(normalize_spec("34.104.104.0/21"@) == Ok::<Seq<char>, (Seq<char>, Seq<char>)>("34.104.104.0/21"@)) by {
        reveal_strlit("34.104.104.0/21");
        reveal_with_fuel(dec_text, 4);
        lemma_v4_block("34.104.104.0/21"@, 34, 104, 104, 0, 21);
    }
    push_canonical(r, "34.104.104.0/21");
    assert(normalize_spec("34.116.64.0/18"@) == Ok::<Seq<char>, (Seq<char>, Seq<char>)>("34.116.64.0/18"@)) by {
        reveal_strlit("34.116.64.0/18");
        reveal_with_fuel(dec_text, 4);
        lemma_v4_block("34.116.64.0/18"@, 34, 116, 64, 0, 18);
    }
    push_canonical(r, "34.116.64.0/18");
    assert(normalize_spec("34.124.40.0/21"@) == Ok::<Seq<char>, (Seq<char>, Seq<char>)>("34.124.40.0/21"@)) by {
        reveal_strlit("34.124.40.0/21");
        reveal_with_fuel(dec_text, 4);
        lemma_v4_block("34.124.40.0/21"@, 34, 124, 40, 0, 21);
    }
    push_canonical(r, "34.124.40.0/21");
    assert(normalize_spec("34.151.64.0/18"@) == Ok::<Seq<char>, (Seq<char>, Seq<char>)>("34.151.64.0/18"@)) by {
        reveal_strlit("34.151.64.0/18");
        reveal_with_fuel(dec_text, 4);
        lemma_v4_block("34.151.64.0/18"@, 34, 151, 64, 0, 18);
    }
    push_canonical(r, "34.151.64.0/18");
    assert(normalize_spec("34.151.128.0/18"@) == Ok::<Seq<char>, (Seq<char>, Seq<char>)>("34.151.128.0/18"@)) by {
        reveal_strlit("34.151.128.0/18");
        reveal_with_fuel(dec_text, 4);
        lemma_v4_block("34.151.128.0/18"@, 34, 151, 128, 0, 18);
    }
    push_canonical(r, "34.151.128.0/18");
    assert(normalize_spec("35.189.0.0/18"@) == Ok::<Seq<char>, (Seq<char>, Seq<char>)>("35.189.0.0/18"@)) by {
        reveal_strlit("35.189.0.0/18");
        reveal_with_fuel(dec_text, 4);
        lemma_v4_block("35.189.0.0/18"@, 35, 189, 0, 0, 18);
    }
    push_canonical(r, "35.189.0.0/18");
    assert(normalize_spec("35.197.160.0/19"@) == Ok::<Seq<char>, (Seq<char>, Seq<char>)>("35.197.160.0/19"@)) by {
        reveal_strlit("35.197.160.0/19");
        reveal_with_fuel(dec_text, 4);
        lemma_v4_block("35.197.160.0/19"@, 35, 197, 160, 0, 19);
    }
    push_canonical(r, "35.197.160.0/19");
    assert(normalize_spec("35.201.0.0/19"@) == Ok::<Seq<char>, (Seq<char>, Seq<char>)>("35.201.0.0/19"@)) by {
        reveal_strlit("35.201.0.0/19");
        reveal_with_fuel(dec_text, 4);
        lemma_v4_block("35.201.0.0/19"@, 35, 201, 0, 0, 19);
    }
    push_canonical(r, "35.201.0.0/19");
    assert(normalize_spec("35.244.64.0/18"@) == Ok::<Seq<char>, (Seq<char>, Seq<char>)>("35.244.64.0/18"@)) by {
        reveal_strlit("35.244.64.0/18");
        reveal_with_fuel(dec_text, 4);
        lemma_v4_block("35.244.64.0/18"@, 35, 244, 64, 0, 18);
    }
    push_canonical(r, "35.244.64.0/18");
    assert(normalize_spec("2600:1900:40b0::/44"@) == Ok::<Seq<char>, (Seq<char>, Seq<char>)>("2600:1900:40b0::/44"@)) by {
        reveal_strlit("2600:1900:40b0::/44");
        reveal_with_fuel(dec_text, 4);
        reveal_with_fuel(hex_text, 4);
        reveal_with_fuel(longest_zero_run, 9);
        reveal_with_fuel(zero_run, 9);
        reveal_with_fuel(join, 8);
        let g = seq![9728u16, 6400u16, 16560u16, 0u16, 0u16, 0u16, 0u16, 0u16];
        assert(g.take(3).map_values(|x: u16| hex_text(x as nat)) =~= seq![hex_text(9728), hex_text(6400), hex_text(16560)]);
        assert(g.skip(8).map_values(|x: u16| hex_text(x as nat)) =~= Seq::<Seq<char>>::empty());
        lemma_v6_block("2600:1900:40b0::/44"@, g, 44);
    }
    push_canonical(r, "2600:1900:40b0::/44");
    assert(r@ =~= start + seq!["34.40.128.0/17", "34.87.192.0/18", "34.104.104.0/21", "34.116.64.0/18", "34.124.40.0/21", "34.151.64.0/18", "34.151.128.0/18", "35.189.0.0/18", "35.197.160.0/19", "35.201.0.0/19", "35.244.64.0/18", "2600:1900:40b0::/44"]);
}

/// Google Cloud ranges of the australia region.
pub fn australia() -> (r: Vec<&'static str>)
    ensures
        r@ == australia_ranges(),
        all_canonical(r@),
{
    let mut r: Vec<&'static str> = Vec::new();
    australia_part_1(&mut r);
    assert(r@ =~= australia_ranges());
    r
}

/// Google Cloud ranges of the usa central region.
pub open spec fn usa_central_ranges() -> Seq<&'static str> {
    seq![
        "34.66.0.0/15",
        "34.68.0.0/14",
        "34.72.0.0/16",
        "34.118.200.0/21",
        "35.184.0.0/16",
        "35.188.0.0/17",
        "35.192.0.0/14",
        "35.202.0.0/16",
        "35.206.64.0/18",
        "35.208.0.0/15",
        "35.220.64.0/19",
        "35.222.0.0/15",
        "35.224.0.0/15",
        "35.226.0.0/16",
        "35.232.0.0/16",
        "35.238.0.0/15",
        "35.242.96.0/19",
        "104.154.16.0/20",
        "104.154.32.0/19",
        "104.154.64.0/19",
        "104.154.128.0/17",
        "104.155.128.0/18",
        "104.197.0.0/16",
        "104.198.128.0/17",
        "107.178.208.0/20",
        "108.59.80.0/21",
        "130.211.112.0/20",
        "130.211.128.0/18",
        "146.148.32.0/19",
        "146.148.64.0/19",
        "162.222.176.0/21",
        "173.255.112.0/21",
        "2600:1900:4000::/44",
    ]
}

/// Adds the entries of `usa_central` from the 1. group of 12, each checked to be canonical.
#[verifier::spinoff_prover]
#[verifier::rlimit(100)]
fn usa_central_part_1(r: &mut Vec<&'static str>)
    requires
        all_canonical(old(r)@),
    ensures
        final(r)@ == old(r)@ + seq!["34.66.0.0/15", "34.68.0.0/14", "34.72.0.0/16", "34.118.200.0/21", "35.184.0.0/16", "35.188.0.0/17", "35.192.0.0/14", "35.202.0.0/16", "35.206.64.0/18", "35.208.0.0/15", "35.220.64.0/19", "35.222.0.0/15"],
        all_canonical(final(r)@),
{
    let ghost start = r@;
    assert(normalize_spec("34.66.0.0/15"@) == Ok::<Seq<char>, (Seq<char>, Seq<char>)>("34.66.0.0/15"@)) by {
        reveal_strlit("34.66.0.0/15");
        reveal_with_fuel(dec_text, 4);
        lemma_v4_block("34.66.0.0/15"@, 34, 66, 0, 0, 15);
    }
    push_canonical(r, "34.66.0.0/15");
    assert(normalize_spec("34.68.0.0/14"@) == Ok::<Seq<char>, (Seq<char>, Seq<char>)>("34.68.0.0/14"@)) by {
        reveal_strlit("34.68.0.0/14");
        reveal_with_fuel(dec_text, 4);
        lemma_v4_block("34.68.0.0/14"@, 34, 68, 0, 0, 14);
    }
    push_canonical(r, "34.68.0.0/14");
    assert(normalize_spec("34.72.0.0/16"@) == Ok::<Seq<char>, (Seq<char>, Seq<char>)>("34.72.0.0/16"@)) by {
        reveal_strlit("34.72.0.0/16");
        reveal_with_fuel(dec_text, 4);
        lemma_v4_block("34.72.0.0/16"@, 34, 72, 0, 0, 16);
    }
    push_canonical(r, "34.72.0.0/16");
    assert(normalize_spec("34.118.200.0/21"@) == Ok::<Seq<char>, (Seq<char>, Seq<char>)>("34.118.200.0/21"@)) by {
        reveal_strlit("34.118.200.0/21");
        reveal_with_fuel(dec_text, 4);
        lemma_v4_block("34.118.200.0/21"@, 34, 118, 200, 0, 21);
    }
    push_canonical(r, "34.118.200.0/21");
    assert(normalize_spec("35.184.0.0/16"@) == Ok::<Seq<char>, (Seq<char>, Seq<char>)>("35.184.0.0/16"@)) by {
        reveal_strlit("35.184.0.0/16");
        reveal_with_fuel(dec_text, 4);
        lemma_v4_block("35.184.0.0/16"@, 35, 184, 0, 0, 16);
    }
    push_canonical(r, "35.184.0.0/16");
    assert(normalize_spec("35.188.0.0/17"@) == Ok::<Seq<char>, (Seq<char>, Seq<char>)>("35.188.0.0/17"@)) by {
        reveal_strlit("35.188.0.0/17");
        reveal_with_fuel(dec_text, 4);
        lemma_v4_block("35.188.0.0/17"@, 35, 188, 0, 0, 17);
    }
    push_canonical(r, "35.188.0.0/17");
    assert(normalize_spec("35.192.0.0/14"@) == Ok::<Seq<char>, (Seq<char>, Seq<char>)>("35.192.0.0/14"@)) by {
        reveal_strlit("35.192.0.0/14");
        reveal_with_fuel(dec_text, 4);
        lemma_v4_block("35.192.0.0/14"@, 35, 192, 0, 0, 14);
    }
    push_canonical(r, "35.192.0.0/14");
    assert(normalize_spec("35.202.0.0/16"@) == Ok::<Seq<char>, (Seq<char>, Seq<char>)>("35.202.0.0/16"@)) by {
        reveal_strlit("35.202.0.0/16");
        reveal_with_fuel(dec_text, 4);
        lemma_v4_block("35.202.0.0/16"@, 35, 202, 0, 0, 16);
    }
    push_canonical(r, "35.202.0.0/16");
    assert(normalize_spec("35.206.64.0/18"@) == Ok::<Seq<char>, (Seq<char>, Seq<char>)>("35.206.64.0/18"@)) by {
        reveal_strlit("35.206.64.0/18");
        reveal_with_fuel(dec_text, 4);
        lemma_v4_block("35.206.64.0/18"@, 35, 206, 64, 0, 18);
    }
    push_canonical(r, "35.206.64.0/18");
    assert(normalize_spec("35.208.0.0/15"@) == Ok::<Seq<char>, (Seq<char>, Seq<char>)>("35.208.0.0/15"@)) by {
        reveal_strlit("35.208.0.0/15");
        reveal_with_fuel(dec_text, 4);
        lemma_v4_block("35.208.0.0/15"@, 35, 208, 0, 0, 15);
    }
    push_canonical(r, "35.208.0.0/15");
    assert(normalize_spec("35.220.64.0/19"@) == Ok::<Seq<char>, (Seq<char>, Seq<char>)>("35.220.64.0/19"@)) by {
        reveal_strlit("35.220.64.0/19");
        reveal_with_fuel(dec_text, 4);
        lemma_v4_block("35.220.64.0/19"@, 35, 220, 64, 0, 19);
    }
    push_canonical(r, "35.220.64.0/19");
    assert(normalize_spec("35.222.0.0/15"@) == Ok::<Seq<char>, (Seq<char>, Seq<char>)>("35.222.0.0/15"@)) by {
        reveal_strlit("35.222.0.0/15");
        reveal_with_fuel(dec_text, 4);
        lemma_v4_block("35.222.0.0/15"@, 35, 222, 0, 0, 15);
    }
    push_canonical(r, "35.222.0.0/15");
    assert(r@ =~= start + seq!["34.66.0.0/15", "34.68.0.0/14", "34.72.0.0/16", "34.118.200.0/21", "35.184.0.0/16", "35.188.0.0/17", "35.192.0.0/14", "35.202.0.0/16", "35.206.64.0/18", "35.208.0.0/15", "35.220.64.0/19", "35.222.0.0/15"]);
}

/// Adds the entries of `usa_central` from the 2. group of 12, each checked to be canonical.
#[verifier::spinoff_prover]
#[verifier::rlimit(100)]
fn usa_central_part_2(r: &mut Vec<&'static str>)
    requires
        all_canonical(old(r)@),
    ensures
        final(r)@ == old(r)@ + seq!["35.224.0.0/15", "35.226.0.0/16", "35.232.0.0/16", "35.238.0.0/15", "35.242.96.0/19", "104.154.16.0/20", "104.154.32.0/19", "104.154.64.0/19", "104.154.128.0/17", "104.155.128.0/18", "104.197.0.0/16", "104.198.128.0/17"],
        all_canonical(final(r)@),
{
    let ghost start = r@;
    assert(normalize_spec("35.224.0.0/15"@) == Ok::<Seq<char>, (Seq<char>, Seq<char>)>("35.224.0.0/15"@)) by {
        reveal_strlit("35.224.0.0/15");
        reveal_with_fuel(dec_text, 4);
        lemma_v4_block("35.224.0.0/15"@, 35, 224, 0, 0, 15);
    }
    push_canonical(r, "35.224.0.0/15");
    assert(normalize_spec("35.226.0.0/16"@) == Ok::<Seq<char>, (Seq<char>, Seq<char>)>("35.226.0.0/16"@)) by {
        reveal_strlit("35.226.0.0/16");
        reveal_with_fuel(dec_text, 4);
        lemma_v4_block("35.226.0.0/16"@, 35, 226, 0, 0, 16);
    }
    push_canonical(r, "35.226.0.0/16");
    assert(normalize_spec("35.232.0.0/16"@) == Ok::<Seq<char>, (Seq<char>, Seq<char>)>("35.232.0.0/16"@)) by {
        reveal_strlit("35.232.0.0/16");
        reveal_with_fuel(dec_text, 4);
        lemma_v4_block("35.232.0.0/16"@, 35, 232, 0, 0, 16);
    }
    push_canonical(r, "35.232.0.0/16");
    assert(normalize_spec("35.238.0.0/15"@) == Ok::<Seq<char>, (Seq<char>, Seq<char>)>("35.238.0.0/15"@)) by {
        reveal_strlit("35.238.0.0/15");
        reveal_with_fuel(dec_text, 4);
        lemma_v4_block("35.238.0.0/15"@, 35, 238, 0, 0, 15);
    }
    push_canonical(r, "35.238.0.0/15");
    assert(normalize_spec("35.242.96.0/19"@) == Ok::<Seq<char>, (Seq<char>, Seq<char>)>("35.242.96.0/19"@)) by {
        reveal_strlit("35.242.96.0/19");
        reveal_with_fuel(dec_text, 4);
        lemma_v4_block("35.242.96.0/19"@, 35, 242, 96, 0, 19);
    }
    push_canonical(r, "35.242.96.0/19");
    assert(normalize_spec("104.154.16.0/20"@) == Ok::<Seq<char>, (Seq<char>, Seq<char>)>("104.154.16.0/20"@)) by {
        reveal_strlit("104.154.16.0/20");
        reveal_with_fuel(dec_text, 4);
        lemma_v4_block("104.154.16.0/20"@, 104, 154, 16, 0, 20);
    }
    push_canonical(r, "104.154.16.0/20");
    assert(normalize_spec("104.154.32.0/19"@) == Ok::<Seq<char>, (Seq<char>, Seq<char>)>("104.154.32.0/19"@)) by {
        reveal_strlit("104.154.32.0/19");
        reveal_with_fuel(dec_text, 4);
        lemma_v4_block("104.154.32.0/19"@, 104, 154, 32, 0, 19);
    }
    push_canonical(r, "104.154.32.0/19");
    assert(normalize_spec("104.154.64.0/19"@) == Ok::<Seq<char>, (Seq<char>, Seq<char>)>("104.154.64.0/19"@)) by {
        reveal_strlit("104.154.64.0/19");
        reveal_with_fuel(dec_text, 4);
        lemma_v4_block("104.154.64.0/19"@, 104, 154, 64, 0, 19);
    }
    push_canonical(r, "104.154.64.0/19");
    assert(normalize_spec("104.154.128.0/17"@) == Ok::<Seq<char>, (Seq<char>, Seq<char>)>("104.154.128.0/17"@)) by {
        reveal_strlit("104.154.128.0/17");
        reveal_with_fuel(dec_text, 4);
        lemma_v4_block("104.154.128.0/17"@, 104, 154, 128, 0, 17);
    }
    push_canonical(r, "104.154.128.0/17");
    assert(normalize_spec("104.155.128.0/18"@) == Ok::<Seq<char>, (Seq<char>, Seq<char>)>("104.155.128.0/18"@)) by {
        reveal_strlit("104.155.128.0/18");
        reveal_with_fuel(dec_text, 4);
        lemma_v4_block("104.155.128.0/18"@, 104, 155, 128, 0, 18);
    }
    push_canonical(r, "104.155.128.0/18");
    assert(normalize_spec("104.197.0.0/16"@) == Ok::<Seq<char>, (Seq<char>, Seq<char>)>("104.197.0.0/16"@)) by {
        reveal_strlit("104.197.0.0/16");
        reveal_with_fuel(dec_text, 4);
        lemma_v4_block("104.197.0.0/16"@, 104, 197, 0, 0, 16);
    }
    push_canonical(r, "104.197.0.0/16");
    assert(normalize_spec("104.198.128.0/17"@) == Ok::<Seq<char>, (Seq<char>, Seq<char>)>("104.198.128.0/17"@)) by {
        reveal_strlit("104.198.128.0/17");
        reveal_with_fuel(dec_text, 4);
        lemma_v4_block("104.198.128.0/17"@, 104, 198, 128, 0, 17);
    }
    push_canonical(r, "104.198.128.0/17");
    assert(r@ =~= start + seq!["35.224.0.0/15", "35.226.0.0/16", "35.232.0.0/16", "35.238.0.0/15", "35.242.96.0/19", "104.154.16.0/20", "104.154.32.0/19", "104.154.64.0/19", "104.154.128.0/17", "104.155.128.0/18", "104.197.0.0/16", "104.198.128.0/17"]);
}

/// Adds the entries of `usa_central` from the 3. group of 12, each checked to be canonical.
#[verifier::spinoff_prover]
#[verifier::rlimit(100)]
fn usa_central_part_3(r: &mut Vec<&'static str>)
    requires
        all_canonical(old(r)@),
    ensures
        final(r)@ == old(r)@ + seq!["107.178.208.0/20", "108.59.80.0/21", "130.211.112.0/20", "130.211.128.0/18", "146.148.32.0/19", "146.148.64.0/19", "162.222.176.0/21", "173.255.112.0/21", "2600:1900:4000::/44"],
        all_canonical(final(r)@),
{
    let ghost start = r@;
    assert(normalize_spec("107.178.208.0/20"@) == Ok::<Seq<char>, (Seq<char>, Seq<char>)>("107.178.208.0/20"@)) by {
        reveal_strlit("107.178.208.0/20");
        reveal_with_fuel(dec_text, 4);
        lemma_v4_block("107.178.208.0/20"@, 107, 178, 208, 0, 20);
    }
    push_canonical(r, "107.178.208.0/20");
    assert(normalize_spec("108.59.80.0/21"@) == Ok::<Seq<char>, (Seq<char>, Seq<char>)>("108.59.80.0/21"@)) by {
        reveal_strlit("108.59.80.0/21");
        reveal_with_fuel(dec_text, 4);
        lemma_v4_block("108.59.80.0/21"@, 108, 59, 80, 0, 21);
    }
    push_canonical(r, "108.59.80.0/21");
    assert(normalize_spec("130.211.112.0/20"@) == Ok::<Seq<char>, (Seq<char>, Seq<char>)>("130.211.112.0/20"@)) by {
        reveal_strlit("130.211.112.0/20");
        reveal_with_fuel(dec_text, 4);
        lemma_v4_block("130.211.112.0/20"@, 130, 211, 112, 0, 20);
    }
    push_canonical(r, "130.211.112.0/20");
    assert(normalize_spec("130.211.128.0/18"@) == Ok::<Seq<char>, (Seq<char>, Seq<char>)>("130.211.128.0/18"@)) by {
        reveal_strlit("130.211.128.0/18");
        reveal_with_fuel(dec_text, 4);
        lemma_v4_block("130.211.128.0/18"@, 130, 211, 128, 0, 18);
    }
    push_canonical(r, "130.211.128.0/18");
    assert(normalize_spec("146.148.32.0/19"@) == Ok::<Seq<char>, (Seq<char>, Seq<char>)>("146.148.32.0/19"@)) by {
        reveal_strlit("146.148.32.0/19");
        reveal_with_fuel(dec_text, 4);
        lemma_v4_block("146.148.32.0/19"@, 146, 148, 32, 0, 19);
    }
    push_canonical(r, "146.148.32.0/19");
    assert(normalize_spec("146.148.64.0/19"@) == Ok::<Seq<char>, (Seq<char>, Seq<char>)>("146.148.64.0/19"@)) by {
        reveal_strlit("146.148.64.0/19");
        reveal_with_fuel(dec_text, 4);
        lemma_v4_block("146.148.64.0/19"@, 146, 148, 64, 0, 19);
    }
    push_canonical(r, "146.148.64.0/19");
    assert(normalize_spec("162.222.176.0/21"@) == Ok::<Seq<char>, (Seq<char>, Seq<char>)>("162.222.176.0/21"@)) by {
        reveal_strlit("162.222.176.0/21");
        reveal_with_fuel(dec_text, 4);
        lemma_v4_block("162.222.176.0/21"@, 162, 222, 176, 0, 21);
    }
    push_canonical(r, "162.222.176.0/21");
    assert(normalize_spec("173.255.112.0/21"@) == Ok::<Seq<char>, (Seq<char>, Seq<char>)>("173.255.112.0/21"@)) by {
        reveal_strlit("173.255.112.0/21");
        reveal_with_fuel(dec_text, 4);
        lemma_v4_block("173.255.112.0/21"@, 173, 255, 112, 0, 21);
    }
    push_canonical(r, "173.255.112.0/21");
    assert(normalize_spec("2600:1900:4000::/44"@) == Ok::<Seq<char>, (Seq<char>, Seq<char>)>("2600:1900:4000::/44"@)) by {
        reveal_strlit("2600:1900:4000::/44");
        reveal_with_fuel(dec_text, 4);
        reveal_with_fuel(hex_text, 4);
        reveal_with_fuel(longest_zero_run, 9);
        reveal_with_fuel(zero_run, 9);
        reveal_with_fuel(join, 8);
        let g = seq![9728u16, 6400u16, 16384u16, 0u16, 0u16, 0u16, 0u16, 0u16];
        assert(g.take(3).map_values(|x: u16| hex_text(x as nat)) =~= seq![hex_text(9728), hex_text(6400), hex_text(16384)]);
        assert(g.skip(8).map_values(|x: u16| hex_text(x as nat)) =~= Seq::<Seq<char>>::empty());
        lemma_v6_block("2600:1900:4000::/44"@, g, 44);
    }
    push_canonical(r, "2600:1900:4000::/44");
    assert(r@ =~= start + seq!["107.178.208.0/20", "108.59.80.0/21", "130.211.112.0/20", "130.211.128.0/18", "146.148.32.0/19", "146.148.64.0/19", "162.222.176.0/21", "173.255.112.0/21", "2600:1900:4000::/44"]);
}

/// Google Cloud ranges of the usa central region.
pub fn usa_central() -> (r: Vec<&'static str>)
    ensures
        r@ == usa_central_ranges(),
        all_canonical(r@),
{
    let mut r: Vec<&'static str> = Vec::new();
    usa_central_part_1(&mut r);
    usa_central_part_2(&mut r);
    usa_central_part_3(&mut r);
    assert(r@ =~= usa_central_ranges());
    r
}

/// Google Cloud ranges of the usa east region.
pub open spec fn usa_east_ranges() -> Seq<&'static str> {
    seq![
        "34.48.0.0/16",
        "34.85.128.0/17",
        "34.86.0.0/16",
        "34.145.128.0/17",
        "34.150.128.0/17",
        "35.186.160.0/19",
        "35.188.224.0/19",
        "35.194.64.0/19",
        "35.199.0.0/18",
        "35.212.0.0/17",
        "35.221.0.0/18",
        "35.230.160.0/19",
        "35.234.176.0/20",
        "35.236.192.0/18",
        "35.242.0.0/20",
        "35.245.0.0/16",
        "2600:1900:4090::/44",
    ]
}

/// Adds the entries of `usa_east` from the 1. group of 12, each checked to be canonical.
#[verifier::spinoff_prover]
#[verifier::rlimit(100)]
fn usa_east_part_1(r: &mut Vec<&'static str>)
    requires
        all_canonical(old(r)@),
    ensures
        final(r)@ == old(r)@ + seq!["34.48.0.0/16", "34.85.128.0/17", "34.86.0.0/16", "34.145.128.0/17", "34.150.128.0/17", "35.186.160.0/19", "35.188.224.0/19", "35.194.64.0/19", "35.199.0.0/18", "35.212.0.0/17", "35.221.0.0/18", "35.230.160.0/19"],
        all_canonical(final(r)@),
{
    let ghost start = r@;
    assert(normalize_spec("34.48.0.0/16"@) == Ok::<Seq<char>, (Seq<char>, Seq<char>)>("34.48.0.0/16"@)) by {
        reveal_strlit("34.48.0.0/16");
        reveal_with_fuel(dec_text, 4);
        lemma_v4_block("34.48.0.0/16"@, 34, 48, 0, 0, 16);
    }
    push_canonical(r, "34.48.0.0/16");
    assert(normalize_spec("34.85.128.0/17"@) == Ok::<Seq<char>, (Seq<char>, Seq<char>)>("34.85.128.0/17"@)) by {
        reveal_strlit("34.85.128.0/17");
        reveal_with_fuel(dec_text, 4);
        lemma_v4_block("34.85.128.0/17"@, 34, 85, 128, 0, 17);
    }
    push_canonical(r, "34.85.128.0/17");
    assert(normalize_spec("34.86.0.0/16"@) == Ok::<Seq<char>, (Seq<char>, Seq<char>)>("34.86.0.0/16"@)) by {
        reveal_strlit("34.86.0.0/16");
        reveal_with_fuel(dec_text, 4);
        lemma_v4_block("34.86.0.0/16"@, 34, 86, 0, 0, 16);
    }
    push_canonical(r, "34.86.0.0/16");
    assert(normalize_spec("34.145.128.0/17"@) == Ok::<Seq<char>, (Seq<char>, Seq<char>)>("34.145.128.0/17"@)) by {
        reveal_strlit("34.145.128.0/17");
        reveal_with_fuel(dec_text, 4);
        lemma_v4_block("34.145.128.0/17"@, 34, 145, 128, 0, 17);
    }
    push_canonical(r, "34.145.128.0/17");
    assert(normalize_spec("34.150.128.0/17"@) == Ok::<Seq<char>, (Seq<char>, Seq<char>)>("34.150.128.0/17"@)) by {
        reveal_strlit("34.150.128.0/17");
        reveal_with_fuel(dec_text, 4);
        lemma_v4_block("34.150.128.0/17"@, 34, 150, 128, 0, 17);
    }
    push_canonical(r, "34.150.128.0/17");
    assert(normalize_spec("35.186.160.0/19"@) == Ok::<Seq<char>, (Seq<char>, Seq<char>)>("35.186.160.0/19"@)) by {
        reveal_strlit("35.186.160.0/19");
        reveal_with_fuel(dec_text, 4);
        lemma_v4_block("35.186.160.0/19"@, 35, 186, 160, 0, 19);
    }
    push_canonical(r, "35.186.160.0/19");
    assert(normalize_spec("35.188.224.0/19"@) == Ok::<Seq<char>, (Seq<char>, Seq<char>)>("35.188.224.0/19"@)) by {
        reveal_strlit("35.188.224.0/19");
        reveal_with_fuel(dec_text, 4);
        lemma_v4_block("35.188.224.0/19"@, 35, 188, 224, 0, 19);
    }
    push_canonical(r, "35.188.224.0/19");
    assert(normalize_spec("35.194.64.0/19"@) == Ok::<Seq<char>, (Seq<char>, Seq<char>)>("35.194.64.0/19"@)) by {
        reveal_strlit("35.194.64.0/19");
        reveal_with_fuel(dec_text, 4);
        lemma_v4_block("35.194.64.0/19"@, 35, 194, 64, 0, 19);
    }
    push_canonical(r, "35.194.64.0/19");
    assert(normalize_spec("35.199.0.0/18"@) == Ok::<Seq<char>, (Seq<char>, Seq<char>)>("35.199.0.0/18"@)) by {
        reveal_strlit("35.199.0.0/18");
        reveal_with_fuel(dec_text, 4);
        lemma_v4_block("35.199.0.0/18"@, 35, 199, 0, 0, 18);
    }
    push_canonical(r, "35.199.0.0/18");
    assert(normalize_spec("35.212.0.0/17"@) == Ok::<Seq<char>, (Seq<char>, Seq<char>)>("35.212.0.0/17"@)) by {
        reveal_strlit("35.212.0.0/17");
        reveal_with_fuel(dec_text, 4);
        lemma_v4_block("35.212.0.0/17"@, 35, 212, 0, 0, 17);
    }
    push_canonical(r, "35.212.0.0/17");
    assert(normalize_spec("35.221.0.0/18"@) == Ok::<Seq<char>, (Seq<char>, Seq<char>)>("35.221.0.0/18"@)) by {
        reveal_strlit("35.221.0.0/18");
        reveal_with_fuel(dec_text, 4);
        lemma_v4_block("35.221.0.0/18"@, 35, 221, 0, 0, 18);
    }
    push_canonical(r, "35.221.0.0/18");
    assert(normalize_spec("35.230.160.0/19"@) == Ok::<Seq<char>, (Seq<char>, Seq<char>)>("35.230.160.0/19"@)) by {
        reveal_strlit("35.230.160.0/19");
        reveal_with_fuel(dec_text, 4);
        lemma_v4_block("35.230.160.0/19"@, 35, 230, 160, 0, 19);
    }
    push_canonical(r, "35.230.160.0/19");
    assert(r@ =~= start + seq!["34.48.0.0/16", "34.85.128.0/17", "34.86.0.0/16", "34.145.128.0/17", "34.150.128.0/17", "35.186.160.0/19", "35.188.224.0/19", "35.194.64.0/19", "35.199.0.0/18", "35.212.0.0/17", "35.221.0.0/18", "35.230.160.0/19"]);
}

/// Adds the entries of `usa_east` from the 2. group of 12, each checked to be canonical.
#[verifier::spinoff_prover]
#[verifier::rlimit(100)]
fn usa_east_part_2(r: &mut Vec<&'static str>)
    requires
        all_canonical(old(r)@),
    ensures
        final(r)@ == old(r)@ + seq!["35.234.176.0/20", "35.236.192.0/18", "35.242.0.0/20", "35.245.0.0/16", "2600:1900:4090::/44"],
        all_canonical(final(r)@),
{
    let ghost start = r@;
    assert(normalize_spec("35.234.176.0/20"@) == Ok::<Seq<char>, (Seq<char>, Seq<char>)>("35.234.176.0/20"@)) by {
        reveal_strlit("35.234.176.0/20");
        reveal_with_fuel(dec_text, 4);
        lemma_v4_block("35.234.176.0/20"@, 35, 234, 176, 0, 20);
    }
    push_canonical(r, "35.234.176.0/20");
    assert(normalize_spec("35.236.192.0/18"@) == Ok::<Seq<char>, (Seq<char>, Seq<char>)>("35.236.192.0/18"@)) by {
        reveal_strlit("35.236.192.0/18");
        reveal_with_fuel(dec_text, 4);
        lemma_v4_block("35.236.192.0/18"@, 35, 236, 192, 0, 18);
    }
    push_canonical(r, "35.236.192.0/18");
    assert(normalize_spec("35.242.0.0/20"@) == Ok::<Seq<char>, (Seq<char>, Seq<char>)>("35.242.0.0/20"@)) by {
        reveal_strlit("35.242.0.0/20");
        reveal_with_fuel(dec_text, 4);
        lemma_v4_block("35.242.0.0/20"@, 35, 242, 0, 0, 20);
    }
    push_canonical(r, "35.242.0.0/20");
    assert(normalize_spec("35.245.0.0/16"@) == Ok::<Seq<char>, (Seq<char>, Seq<char>)>("35.245.0.0/16"@)) by {
        reveal_strlit("35.245.0.0/16");
        reveal_with_fuel(dec_text, 4);
        lemma_v4_block("35.245.0.0/16"@, 35, 245, 0, 0, 16);
    }
    push_canonical(r, "35.245.0.0/16");
    assert(normalize_spec("2600:1900:4090::/44"@) == Ok::<Seq<char>, (Seq<char>, Seq<char>)>("2600:1900:4090::/44"@)) by {
        reveal_strlit("2600:1900:4090::/44");
        reveal_with_fuel(dec_text, 4);
        reveal_with_fuel(hex_text, 4);
        reveal_with_fuel(longest_zero_run, 9);
        reveal_with_fuel(zero_run, 9);
        reveal_with_fuel(join, 8);
        let g = seq![9728u16, 6400u16, 16528u16, 0u16, 0u16, 0u16, 0u16, 0u16];
        assert(g.take(3).map_values(|x: u16| hex_text(x as nat)) =~= seq![hex_text(9728), hex_text(6400), hex_text(16528)]);
        assert(g.skip(8).map_values(|x: u16| hex_text(x as nat)) =~= Seq::<Seq<char>>::empty());
        lemma_v6_block("2600:1900:4090::/44"@, g, 44);
    }
    push_canonical(r, "2600:1900:4090::/44");
    assert(r@ =~= start + seq!["35.234.176.0/20", "35.236.192.0/18", "35.242.0.0/20", "35.245.0.0/16", "2600:1900:4090::/44"]);
}

/// Google Cloud ranges of the usa east region.
pub fn usa_east() -> (r: Vec<&'static str>)
    ensures
        r@ == usa_east_ranges(),
        all_canonical(r@),
{
    let mut r: Vec<&'static str> = Vec::new();
    usa_east_part_1(&mut r);
    usa_east_part_2(&mut r);
    assert(r@ =~= usa_east_ranges());
    r
}

/// Google Cloud ranges of the usa west region.
pub open spec fn usa_west_ranges() -> Seq<&'static str> {
    seq![
        "34.82.0.0/15",
        "34.94.0.0/16",
        "34.102.0.0/17",
        "34.104.64.0/21",
        "34.105.0.0/17",
        "34.108.0.0/16",
        "34.118.192.0/21",
        "34.127.0.0/17",
        "34.145.0.0/17",
        "34.168.0.0/15",
        "35.185.192.0/18",
        "35.197.0.0/17",
        "35.199.144.0/20",
        "35.199.160.0/19",
        "35.203.128.0/18",
        "35.212.128.0/17",
        "35.215.64.0/18",
        "35.227.128.0/18",
        "35.230.0.0/17",
        "35.233.128.0/17",
        "35.235.64.0/18",
        "35.236.0.0/17",
        "35.242.48.0/20",
        "35.242.80.0/20",
        "35.247.0.0/17",
        "104.196.224.0/19",
        "104.198.0.0/20",
        "104.198.96.0/20",
        "104.199.112.0/20",
        "2600:1900:4040::/44",
        "2600:1900:4120::/44",
    ]
}

/// Adds the entries of `usa_west` from the 1. group of 12, each checked to be canonical.
#[verifier::spinoff_prover]
#[verifier::rlimit(100)]
fn usa_west_part_1(r: &mut Vec<&'static str>)
    requires
        all_canonical(old(r)@),
    ensures
        final(r)@ == old(r)@ + seq!["34.82.0.0/15", "34.94.0.0/16", "34.102.0.0/17", "34.104.64.0/21", "34.105.0.0/17", "34.108.0.0/16", "34.118.192.0/21", "34.127.0.0/17", "34.145.0.0/17", "34.168.0.0/15", "35.185.192.0/18", "35.197.0.0/17"],
        all_canonical(final(r)@),
{
    let ghost start = r@;
    assert(normalize_spec("34.82.0.0/15"@) == Ok::<Seq<char>, (Seq<char>, Seq<char>)>("34.82.0.0/15"@)) by {
        reveal_strlit("34.82.0.0/15");
        reveal_with_fuel(dec_text, 4);
        lemma_v4_block("34.82.0.0/15"@, 34, 82, 0, 0, 15);
    }
    push_canonical(r, "34.82.0.0/15");
    assert(normalize_spec("34.94.0.0/16"@) == Ok::<Seq<char>, (Seq<char>, Seq<char>)>("34.94.0.0/16"@)) by {
        reveal_strlit("34.94.0.0/16");
        reveal_with_fuel(dec_text, 4);
        lemma_v4_block("34.94.0.0/16"@, 34, 94, 0, 0, 16);
    }
    push_canonical(r, "34.94.0.0/16");
    assert(normalize_spec("34.102.0.0/17"@) == Ok::<Seq<char>, (Seq<char>, Seq<char>)>("34.102.0.0/17"@)) by {
        reveal_strlit("34.102.0.0/17");
        reveal_with_fuel(dec_text, 4);
        lemma_v4_block("34.102.0.0/17"@, 34, 102, 0, 0, 17);
    }
    push_canonical(r, "34.102.0.0/17");
    assert(normalize_spec("34.104.64.0/21"@) == Ok::<Seq<char>, (Seq<char>, Seq<char>)>("34.104.64.0/21"@)) by {
        reveal_strlit("34.104.64.0/21");
        reveal_with_fuel(dec_text, 4);
        lemma_v4_block("34.104.64.0/21"@, 34, 104, 64, 0, 21);
    }
    push_canonical(r, "34.104.64.0/21");
    assert(normalize_spec("34.105.0.0/17"@) == Ok::<Seq<char>, (Seq<char>, Seq<char>)>("34.105.0.0/17"@)) by {
        reveal_strlit("34.105.0.0/17");
        reveal_with_fuel(dec_text, 4);
        lemma_v4_block("34.105.0.0/17"@, 34, 105, 0, 0, 17);
    }
    push_canonical(r, "34.105.0.0/17");
    assert(normalize_spec("34.108.0.0/16"@) == Ok::<Seq<char>, (Seq<char>, Seq<char>)>("34.108.0.0/16"@)) by {
        reveal_strlit("34.108.0.0/16");
        reveal_with_fuel(dec_text, 4);
        lemma_v4_block("34.108.0.0/16"@, 34, 108, 0, 0, 16);
    }
    push_canonical(r, "34.108.0.0/16");
    assert(normalize_spec("34.118.192.0/21"@) == Ok::<Seq<char>, (Seq<char>, Seq<char>)>("34.118.192.0/21"@)) by {
        reveal_strlit("34.118.192.0/21");
        reveal_with_fuel(dec_text, 4);
        lemma_v4_block("34.118.192.0/21"@, 34, 118, 192, 0, 21);
    }
    push_canonical(r, "34.118.192.0/21");
    assert(normalize_spec("34.127.0.0/17"@) == Ok::<Seq<char>, (Seq<char>, Seq<char>)>("34.127.0.0/17"@)) by {
        reveal_strlit("34.127.0.0/17");
        reveal_with_fuel(dec_text, 4);
        lemma_v4_block("34.127.0.0/17"@, 34, 127, 0, 0, 17);
    }
    push_canonical(r, "34.127.0.0/17");
    assert(normalize_spec("34.145.0.0/17"@) == Ok::<Seq<char>, (Seq<char>, Seq<char>)>("34.145.0.0/17"@)) by {
        reveal_strlit("34.145.0.0/17");
        reveal_with_fuel(dec_text, 4);
        lemma_v4_block("34.145.0.0/17"@, 34, 145, 0, 0, 17);
    }
    push_canonical(r, "34.145.0.0/17");
    assert(normalize_spec("34.168.0.0/15"@) == Ok::<Seq<char>, (Seq<char>, Seq<char>)>("34.168.0.0/15"@)) by {
        reveal_strlit("34.168.0.0/15");
        reveal_with_fuel(dec_text, 4);
        lemma_v4_block("34.168.0.0/15"@, 34, 168, 0, 0, 15);
    }
    push_canonical(r, "34.168.0.0/15");
    assert(normalize_spec("35.185.192.0/18"@) == Ok::<Seq<char>, (Seq<char>, Seq<char>)>("35.185.192.0/18"@)) by {
        reveal_strlit("35.185.192.0/18");
        reveal_with_fuel(dec_text, 4);
        lemma_v4_block("35.185.192.0/18"@, 35, 185, 192, 0, 18);
    }
    push_canonical(r, "35.185.192.0/18");
    assert(normalize_spec("35.197.0.0/17"@) == Ok::<Seq<char>, (Seq<char>, Seq<char>)>("35.197.0.0/17"@)) by {
        reveal_strlit("35.197.0.0/17");
        reveal_with_fuel(dec_text, 4);
        lemma_v4_block("35.197.0.0/17"@, 35, 197, 0, 0, 17);
    }
    push_canonical(r, "35.197.0.0/17");
    assert(r@ =~= start + seq!["34.82.0.0/15", "34.94.0.0/16", "34.102.0.0/17", "34.104.64.0/21", "34.105.0.0/17", "34.108.0.0/16", "34.118.192.0/21", "34.127.0.0/17", "34.145.0.0/17", "34.168.0.0/15", "35.185.192.0/18", "35.197.0.0/17"]);
}

/// Adds the entries of `usa_west` from the 2. group of 12, each checked to be canonical.
#[verifier::spinoff_prover]
#[verifier::rlimit(100)]
fn usa_west_part_2(r: &mut Vec<&'static str>)
    requires
        all_canonical(old(r)@),
    ensures
        final(r)@ == old(r)@ + seq!["35.199.144.0/20", "35.199.160.0/19", "35.203.128.0/18", "35.212.128.0/17", "35.215.64.0/18", "35.227.128.0/18", "35.230.0.0/17", "35.233.128.0/17", "35.235.64.0/18", "35.236.0.0/17", "35.242.48.0/20", "35.242.80.0/20"],
        all_canonical(final(r)@),
{
    let ghost start = r@;
    assert(normalize_spec("35.199.144.0/20"@) == Ok::<Seq<char>, (Seq<char>, Seq<char>)>("35.199.144.0/20"@)) by {
        reveal_strlit("35.199.144.0/20");
        reveal_with_fuel(dec_text, 4);
        lemma_v4_block("35.199.144.0/20"@, 35, 199, 144, 0, 20);
    }
    push_canonical(r, "35.199.144.0/20");
    assert(normalize_spec("35.199.160.0/19"@) == Ok::<Seq<char>, (Seq<char>, Seq<char>)>("35.199.160.0/19"@)) by {
        reveal_strlit("35.199.160.0/19");
        reveal_with_fuel(dec_text, 4);
        lemma_v4_block("35.199.160.0/19"@, 35, 199, 160, 0, 19);
    }
    push_canonical(r, "35.199.160.0/19");
    assert(normalize_spec("35.203.128.0/18"@) == Ok::<Seq<char>, (Seq<char>, Seq<char>)>("35.203.128.0/18"@)) by {
        reveal_strlit("35.203.128.0/18");
        reveal_with_fuel(dec_text, 4);
        lemma_v4_block("35.203.128.0/18"@, 35, 203, 128, 0, 18);
    }
    push_canonical(r, "35.203.128.0/18");
    assert(normalize_spec("35.212.128.0/17"@) == Ok::<Seq<char>, (Seq<char>, Seq<char>)>("35.212.128.0/17"@)) by {
        reveal_strlit("35.212.128.0/17");
        reveal_with_fuel(dec_text, 4);
        lemma_v4_block("35.212.128.0/17"@, 35, 212, 128, 0, 17);
    }
    push_canonical(r, "35.212.128.0/17");
    assert(normalize_spec("35.215.64.0/18"@) == Ok::<Seq<char>, (Seq<char>, Seq<char>)>("35.215.64.0/18"@)) by {
        reveal_strlit("35.215.64.0/18");
        reveal_with_fuel(dec_text, 4);
        lemma_v4_block("35.215.64.0/18"@, 35, 215, 64, 0, 18);
    }
    push_canonical(r, "35.215.64.0/18");
    assert(normalize_spec("35.227.128.0/18"@) == Ok::<Seq<char>, (Seq<char>, Seq<char>)>("35.227.128.0/18"@)) by {
        reveal_strlit("35.227.128.0/18");
        reveal_with_fuel(dec_text, 4);
        lemma_v4_block("35.227.128.0/18"@, 35, 227, 128, 0, 18);
    }
    push_canonical(r, "35.227.128.0/18");
    assert(normalize_spec("35.230.0.0/17"@) == Ok::<Seq<char>, (Seq<char>, Seq<char>)>("35.230.0.0/17"@)) by {
        reveal_strlit("35.230.0.0/17");
        reveal_with_fuel(dec_text, 4);
        lemma_v4_block("35.230.0.0/17"@, 35, 230, 0, 0, 17);
    }
    push_canonical(r, "35.230.0.0/17");
    assert(normalize_spec("35.233.128.0/17"@) == Ok::<Seq<char>, (Seq<char>, Seq<char>)>("35.233.128.0/17"@)) by {
        reveal_strlit("35.233.128.0/17");
        reveal_with_fuel(dec_text, 4);
        lemma_v4_block("35.233.128.0/17"@, 35, 233, 128, 0, 17);
    }
    push_canonical(r, "35.233.128.0/17");
    assert(normalize_spec("35.235.64.0/18"@) == Ok::<Seq<char>, (Seq<char>, Seq<char>)>("35.235.64.0/18"@)) by {
        reveal_strlit("35.235.64.0/18");
        reveal_with_fuel(dec_text, 4);
        lemma_v4_block("35.235.64.0/18"@, 35, 235, 64, 0, 18);
    }
    push_canonical(r, "35.235.64.0/18");
    assert(normalize_spec("35.236.0.0/17"@) == Ok::<Seq<char>, (Seq<char>, Seq<char>)>("35.236.0.0/17"@)) by {
        reveal_strlit("35.236.0.0/17");
        reveal_with_fuel(dec_text, 4);
        lemma_v4_block("35.236.0.0/17"@, 35, 236, 0, 0, 17);
    }
    push_canonical(r, "35.236.0.0/17");
    assert(normalize_spec("35.242.48.0/20"@) == Ok::<Seq<char>, (Seq<char>, Seq<char>)>("35.242.48.0/20"@)) by {
        reveal_strlit("35.242.48.0/20");
        reveal_with_fuel(dec_text, 4);
        lemma_v4_block("35.242.48.0/20"@, 35, 242, 48, 0, 20);
    }
    push_canonical(r, "35.242.48.0/20");
    assert(normalize_spec("35.242.80.0/20"@) == Ok::<Seq<char>, (Seq<char>, Seq<char>)>("35.242.80.0/20"@)) by {
        reveal_strlit("35.242.80.0/20");
        reveal_with_fuel(dec_text, 4);
        lemma_v4_block("35.242.80.0/20"@, 35, 242, 80, 0, 20);
    }
    push_canonical(r, "35.242.80.0/20");
    assert(r@ =~= start + seq!["35.199.144.0/20", "35.199.160.0/19", "35.203.128.0/18", "35.212.128.0/17", "35.215.64.0/18", "35.227.128.0/18", "35.230.0.0/17", "35.233.128.0/17", "35.235.64.0/18", "35.236.0.0/17", "35.242.48.0/20", "35.242.80.0/20"]);
}

/// Adds the entries of `usa_west` from the 3. group of 12, each checked to be canonical.
#[verifier::spinoff_prover]
#[verifier::rlimit(100)]
fn usa_west_part_3(r: &mut Vec<&'static str>)
    requires
        all_canonical(old(r)@),
    ensures
        final(r)@ == old(r)@ + seq!["35.247.0.0/17", "104.196.224.0/19", "104.198.0.0/20", "104.198.96.0/20", "104.199.112.0/20", "2600:1900:4040::/44", "2600:1900:4120::/44"],
        all_canonical(final(r)@),
{
    let ghost start = r@;
    assert(normalize_spec("35.247.0.0/17"@) == Ok::<Seq<char>, (Seq<char>, Seq<char>)>("35.247.0.0/17"@)) by {
        reveal_strlit("35.247.0.0/17");
        reveal_with_fuel(dec_text, 4);
        lemma_v4_block("35.247.0.0/17"@, 35, 247, 0, 0, 17);
    }
    push_canonical(r, "35.247.0.0/17");
    assert(normalize_spec("104.196.224.0/19"@) == Ok::<Seq<char>, (Seq<char>, Seq<char>)>("104.196.224.0/19"@)) by {
        reveal_strlit("104.196.224.0/19");
        reveal_with_fuel(dec_text, 4);
        lemma_v4_block("104.196.224.0/19"@, 104, 196, 224, 0, 19);
    }
    push_canonical(r, "104.196.224.0/19");
    assert(normalize_spec("104.198.0.0/20"@) == Ok::<Seq<char>, (Seq<char>, Seq<char>)>("104.198.0.0/20"@)) by {
        reveal_strlit("104.198.0.0/20");
        reveal_with_fuel(dec_text, 4);
        lemma_v4_block("104.198.0.0/20"@, 104, 198, 0, 0, 20);
    }
    push_canonical(r, "104.198.0.0/20");
    assert(normalize_spec("104.198.96.0/20"@) == Ok::<Seq<char>, (Seq<char>, Seq<char>)>("104.198.96.0/20"@)) by {
        reveal_strlit("104.198.96.0/20");
        reveal_with_fuel(dec_text, 4);
        lemma_v4_block("104.198.96.0/20"@, 104, 198, 96, 0, 20);
    }
    push_canonical(r, "104.198.96.0/20");
    assert(normalize_spec("104.199.112.0/20"@) == Ok::<Seq<char>, (Seq<char>, Seq<char>)>("104.199.112.0/20"@)) by {
        reveal_strlit("104.199.112.0/20");
        reveal_with_fuel(dec_text, 4);
        lemma_v4_block("104.199.112.0/20"@, 104, 199, 112, 0, 20);
    }
    push_canonical(r, "104.199.112.0/20");
    assert(normalize_spec("2600:1900:4040::/44"@) == Ok::<Seq<char>, (Seq<char>, Seq<char>)>("2600:1900:4040::/44"@)) by {
        reveal_strlit("2600:1900:4040::/44");
        reveal_with_fuel(dec_text, 4);
        reveal_with_fuel(hex_text, 4);
        reveal_with_fuel(longest_zero_run, 9);
        reveal_with_fuel(zero_run, 9);
        reveal_with_fuel(join, 8);
        let g = seq![9728u16, 6400u16, 16448u16, 0u16, 0u16, 0u16, 0u16, 0u16];
        assert(g.take(3).map_values(|x: u16| hex_text(x as nat)) =~= seq![hex_text(9728), hex_text(6400), hex_text(16448)]);
        assert(g.skip(8).map_values(|x: u16| hex_text(x as nat)) =~= Seq::<Seq<char>>::empty());
        lemma_v6_block("2600:1900:4040::/44"@, g, 44);
    }
    push_canonical(r, "2600:1900:4040::/44");
    assert(normalize_spec("2600:1900:4120::/44"@) == Ok::<Seq<char>, (Seq<char>, Seq<char>)>("2600:1900:4120::/44"@)) by {
        reveal_strlit("2600:1900:4120::/44");
        reveal_with_fuel(dec_text, 4);
        reveal_with_fuel(hex_text, 4);
        reveal_with_fuel(longest_zero_run, 9);
        reveal_with_fuel(zero_run, 9);
        reveal_with_fuel(join, 8);
        let g = seq![9728u16, 6400u16, 16672u16, 0u16, 0u16, 0u16, 0u16, 0u16];
        assert(g.take(3).map_values(|x: u16| hex_text(x as nat)) =~= seq![hex_text(9728), hex_text(6400), hex_text(16672)]);
        assert(g.skip(8).map_values(|x: u16| hex_text(x as nat)) =~= Seq::<Seq<char>>::empty());
        lemma_v6_block("2600:1900:4120::/44"@, g, 44);
    }
    push_canonical(r, "2600:1900:4120::/44");
    assert(r@ =~= start + seq!["35.247.0.0/17", "104.196.224.0/19", "104.198.0.0/20", "104.198.96.0/20", "104.199.112.0/20", "2600:1900:4040::/44", "2600:1900:4120::/44"]);
}

/// Google Cloud ranges of the usa west region.
pub fn usa_west() -> (r: Vec<&'static str>)
    ensures
        r@ == usa_west_ranges(),
        all_canonical(r@),
{
    let mut r: Vec<&'static str> = Vec::new();
    usa_west_part_1(&mut r);
    usa_west_part_2(&mut r);
    usa_west_part_3(&mut r);
    assert(r@ =~= usa_west_ranges());
    r
}

/// Google Cloud ranges of the europe region.
pub open spec fn europe_ranges() -> Seq<&'static str> {
    seq![
        "34.76.0.0/14",
        "34.89.0.0/16",
        "34.90.0.0/15",
        "34.141.0.0/17",
        "35.187.0.0/17",
        "35.189.64.0/18",
        "35.195.0.0/16",
        "35.197.192.0/18",
        "35.198.64.0/18",
        "35.204.0.0/16",
        "35.205.0.0/16",
        "35.207.64.0/18",
        "35.214.128.0/17",
        "35.234.64.0/18",
        "35.242.128.0/18",
        "35.246.128.0/17",
        "104.155.0.0/17",
        "2600:1900:4010::/44",
        "2600:1900:4020::/44",
    ]
}

/// Adds the entries of `europe` from the 1. group of 12, each checked to be canonical.
#[verifier::spinoff_prover]
#[verifier::rlimit(100)]
fn europe_part_1(r: &mut Vec<&'static str>)
    requires
        all_canonical(old(r)@),
    ensures
        final(r)@ == old(r)@ + seq!["34.76.0.0/14", "34.89.0.0/16", "34.90.0.0/15", "34.141.0.0/17", "35.187.0.0/17", "35.189.64.0/18", "35.195.0.0/16", "35.197.192.0/18", "35.198.64.0/18", "35.204.0.0/16", "35.205.0.0/16", "35.207.64.0/18"],
        all_canonical(final(r)@),
{
    let ghost start = r@;
    assert(normalize_spec("34.76.0.0/14"@) == Ok::<Seq<char>, (Seq<char>, Seq<char>)>("34.76.0.0/14"@)) by {
        reveal_strlit("34.76.0.0/14");
        reveal_with_fuel(dec_text, 4);
        lemma_v4_block("34.76.0.0/14"@, 34, 76, 0, 0, 14);
    }
    push_canonical(r, "34.76.0.0/14");
    assert(normalize_spec("34.89.0.0/16"@) == Ok::<Seq<char>, (Seq<char>, Seq<char>)>("34.89.0.0/16"@)) by {
        reveal_strlit("34.89.0.0/16");
        reveal_with_fuel(dec_text, 4);
        lemma_v4_block("34.89.0.0/16"@, 34, 89, 0, 0, 16);
    }
    push_canonical(r, "34.89.0.0/16");
    assert(normalize_spec("34.90.0.0/15"@) == Ok::<Seq<char>, (Seq<char>, Seq<char>)>("34.90.0.0/15"@)) by {
        reveal_strlit("34.90.0.0/15");
        reveal_with_fuel(dec_text, 4);
        lemma_v4_block("34.90.0.0/15"@, 34, 90, 0, 0, 15);
    }
    push_canonical(r, "34.90.0.0/15");
    assert(normalize_spec("34.141.0.0/17"@) == Ok::<Seq<char>, (Seq<char>, Seq<char>)>("34.141.0.0/17"@)) by {
        reveal_strlit("34.141.0.0/17");
        reveal_with_fuel(dec_text, 4);
        lemma_v4_block("34.141.0.0/17"@, 34, 141, 0, 0, 17);
    }
    push_canonical(r, "34.141.0.0/17");
    assert(normalize_spec("35.187.0.0/17"@) == Ok::<Seq<char>, (Seq<char>, Seq<char>)>("35.187.0.0/17"@)) by {
        reveal_strlit("35.187.0.0/17");
        reveal_with_fuel(dec_text, 4);
        lemma_v4_block("35.187.0.0/17"@, 35, 187, 0, 0, 17);
    }
    push_canonical(r, "35.187.0.0/17");
    assert(normalize_spec("35.189.64.0/18"@) == Ok::<Seq<char>, (Seq<char>, Seq<char>)>("35.189.64.0/18"@)) by {
        reveal_strlit("35.189.64.0/18");
        reveal_with_fuel(dec_text, 4);
        lemma_v4_block("35.189.64.0/18"@, 35, 189, 64, 0, 18);
    }
    push_canonical(r, "35.189.64.0/18");
    assert(normalize_spec("35.195.0.0/16"@) == Ok::<Seq<char>, (Seq<char>, Seq<char>)>("35.195.0.0/16"@)) by {
        reveal_strlit("35.195.0.0/16");
        reveal_with_fuel(dec_text, 4);
        lemma_v4_block("35.195.0.0/16"@, 35, 195, 0, 0, 16);
    }
    push_canonical(r, "35.195.0.0/16");
    assert(normalize_spec("35.197.192.0/18"@) == Ok::<Seq<char>, (Seq<char>, Seq<char>)>("35.197.192.0/18"@)) by {
        reveal_strlit("35.197.192.0/18");
        reveal_with_fuel(dec_text, 4);
        lemma_v4_block("35.197.192.0/18"@, 35, 197, 192, 0, 18);
    }
    push_canonical(r, "35.197.192.0/18");
    assert(normalize_spec("35.198.64.0/18"@) == Ok::<Seq<char>, (Seq<char>, Seq<char>)>("35.198.64.0/18"@)) by {
        reveal_strlit("35.198.64.0/18");
        reveal_with_fuel(dec_text, 4);
        lemma_v4_block("35.198.64.0/18"@, 35, 198, 64, 0, 18);
    }
    push_canonical(r, "35.198.64.0/18");
    assert(normalize_spec("35.204.0.0/16"@) == Ok::<Seq<char>, (Seq<char>, Seq<char>)>("35.204.0.0/16"@)) by {
        reveal_strlit("35.204.0.0/16");
        reveal_with_fuel(dec_text, 4);
        lemma_v4_block("35.204.0.0/16"@, 35, 204, 0, 0, 16);
    }
    push_canonical(r, "35.204.0.0/16");
    assert(normalize_spec("35.205.0.0/16"@) == Ok::<Seq<char>, (Seq<char>, Seq<char>)>("35.205.0.0/16"@)) by {
        reveal_strlit("35.205.0.0/16");
        reveal_with_fuel(dec_text, 4);
        lemma_v4_block("35.205.0.0/16"@, 35, 205, 0, 0, 16);
    }
    push_canonical(r, "35.205.0.0/16");
    assert(normalize_spec("35.207.64.0/18"@) == Ok::<Seq<char>, (Seq<char>, Seq<char>)>("35.207.64.0/18"@)) by {
        reveal_strlit("35.207.64.0/18");
        reveal_with_fuel(dec_text, 4);
        lemma_v4_block("35.207.64.0/18"@, 35, 207, 64, 0, 18);
    }
    push_canonical(r, "35.207.64.0/18");
    assert(r@ =~= start + seq!["34.76.0.0/14", "34.89.0.0/16", "34.90.0.0/15", "34.141.0.0/17", "35.187.0.0/17", "35.189.64.0/18", "35.195.0.0/16", "35.197.192.0/18", "35.198.64.0/18", "35.204.0.0/16", "35.205.0.0/16", "35.207.64.0/18"]);
}

/// Adds the entries of `europe` from the 2. group of 12, each checked to be canonical.
#[verifier::spinoff_prover]
#[verifier::rlimit(100)]
fn europe_part_2(r: &mut Vec<&'static str>)
    requires
        all_canonical(old(r)@),
    ensures
        final(r)@ == old(r)@ + seq!["35.214.128.0/17", "35.234.64.0/18", "35.242.128.0/18", "35.246.128.0/17", "104.155.0.0/17", "2600:1900:4010::/44", "2600:1900:4020::/44"],
        all_canonical(final(r)@),
{
    let ghost start = r@;
    assert(normalize_spec("35.214.128.0/17"@) == Ok::<Seq<char>, (Seq<char>, Seq<char>)>("35.214.128.0/17"@)) by {
        reveal_strlit("35.214.128.0/17");
        reveal_with_fuel(dec_text, 4);
        lemma_v4_block("35.214.128.0/17"@, 35, 214, 128, 0, 17);
    }
    push_canonical(r, "35.214.128.0/17");
    assert(normalize_spec("35.234.64.0/18"@) == Ok::<Seq<char>, (Seq<char>, Seq<char>)>("35.234.64.0/18"@)) by {
        reveal_strlit("35.234.64.0/18");
        reveal_with_fuel(dec_text, 4);
        lemma_v4_block("35.234.64.0/18"@, 35, 234, 64, 0, 18);
    }
    push_canonical(r, "35.234.64.0/18");
    assert(normalize_spec("35.242.128.0/18"@) == Ok::<Seq<char>, (Seq<char>, Seq<char>)>("35.242.128.0/18"@)) by {
        reveal_strlit("35.242.128.0/18");
        reveal_with_fuel(dec_text, 4);
        lemma_v4_block("35.242.128.0/18"@, 35, 242, 128, 0, 18);
    }
    push_canonical(r, "35.242.128.0/18");
    assert(normalize_spec("35.246.128.0/17"@) == Ok::<Seq<char>, (Seq<char>, Seq<char>)>("35.246.128.0/17"@)) by {
        reveal_strlit("35.246.128.0/17");
        reveal_with_fuel(dec_text, 4);
        lemma_v4_block("35.246.128.0/17"@, 35, 246, 128, 0, 17);
    }
    push_canonical(r, "35.246.128.0/17");
    assert(normalize_spec("104.155.0.0/17"@) == Ok::<Seq<char>, (Seq<char>, Seq<char>)>("104.155.0.0/17"@)) by {
        reveal_strlit("104.155.0.0/17");
        reveal_with_fuel(dec_text, 4);
        lemma_v4_block("104.155.0.0/17"@, 104, 155, 0, 0, 17);
    }
    push_canonical(r, "104.155.0.0/17");
    assert(normalize_spec("2600:1900:4010::/44"@) == Ok::<Seq<char>, (Seq<char>, Seq<char>)>("2600:1900:4010::/44"@)) by {
        reveal_strlit("2600:1900:4010::/44");
        reveal_with_fuel(dec_text, 4);
        reveal_with_fuel(hex_text, 4);
        reveal_with_fuel(longest_zero_run, 9);
        reveal_with_fuel(zero_run, 9);
        reveal_with_fuel(join, 8);
        let g = seq![9728u16, 6400u16, 16400u16, 0u16, 0u16, 0u16, 0u16, 0u16];
        assert(g.take(3).map_values(|x: u16| hex_text(x as nat)) =~= seq![hex_text(9728), hex_text(6400), hex_text(16400)]);
        assert(g.skip(8).map_values(|x: u16| hex_text(x as nat)) =~= Seq::<Seq<char>>::empty());
        lemma_v6_block("2600:1900:4010::/44"@, g, 44);
    }
    push_canonical(r, "2600:1900:4010::/44");
    assert(normalize_spec("2600:1900:4020::/44"@) == Ok::<Seq<char>, (Seq<char>, Seq<char>)>("2600:1900:4020::/44"@)) by {
        reveal_strlit("2600:1900:4020::/44");
        reveal_with_fuel(dec_text, 4);
        reveal_with_fuel(hex_text, 4);
        reveal_with_fuel(longest_zero_run, 9);
        reveal_with_fuel(zero_run, 9);
        reveal_with_fuel(join, 8);
        let g = seq![9728u16, 6400u16, 16416u16, 0u16, 0u16, 0u16, 0u16, 0u16];
        assert(g.take(3).map_values(|x: u16| hex_text(x as nat)) =~= seq![hex_text(9728), hex_text(6400), hex_text(16416)]);
        assert(g.skip(8).map_values(|x: u16| hex_text(x as nat)) =~= Seq::<Seq<char>>::empty());
        lemma_v6_block("2600:1900:4020::/44"@, g, 44);
    }
    push_canonical(r, "2600:1900:4020::/44");
    assert(r@ =~= start + seq!["35.214.128.0/17", "35.234.64.0/18", "35.242.128.0/18", "35.246.128.0/17", "104.155.0.0/17", "2600:1900:4010::/44", "2600:1900:4020::/44"]);
}

/// Google Cloud ranges of the europe region.
pub fn europe() -> (r: Vec<&'static str>)
    ensures
        r@ == europe_ranges(),
        all_canonical(r@),
{
    let mut r: Vec<&'static str> = Vec::new();
    europe_part_1(&mut r);
    europe_part_2(&mut r);
    assert(r@ =~= europe_ranges());
    r
}

/// Google Cloud ranges of the middle east region.
pub open spec fn middle_east_ranges() -> Seq<&'static str> {
    seq![
        "34.1.48.0/20",
        "34.18.0.0/16",
        "34.157.126.0/23",
        "34.166.0.0/16",
        "2600:1900:5400::/44",
    ]
}

/// Adds the entries of `middle_east` from the 1. group of 12, each checked to be canonical.
#[verifier::spinoff_prover]
#[verifier::rlimit(100)]
fn middle_east_part_1(r: &mut Vec<&'static str>)
    requires
        all_canonical(old(r)@),
    ensures
        final(r)@ == old(r)@ + seq!["34.1.48.0/20", "34.18.0.0/16", "34.157.126.0/23", "34.166.0.0/16", "2600:1900:5400::/44"],
        all_canonical(final(r)@),
{
    let ghost start = r@;
    assert(normalize_spec("34.1.48.0/20"@) == Ok::<Seq<char>, (Seq<char>, Seq<char>)>("34.1.48.0/20"@)) by {
        reveal_strlit("34.1.48.0/20");
        reveal_with_fuel(dec_text, 4);
        lemma_v4_block("34.1.48.0/20"@, 34, 1, 48, 0, 20);
    }
    push_canonical(r, "34.1.48.0/20");
    assert(normalize_spec("34.18.0.0/16"@) == Ok::<Seq<char>, (Seq<char>, Seq<char>)>("34.18.0.0/16"@)) by {
        reveal_strlit("34.18.0.0/16");
        reveal_with_fuel(dec_text, 4);
        lemma_v4_block("34.18.0.0/16"@, 34, 18, 0, 0, 16);
    }
    push_canonical(r, "34.18.0.0/16");
    assert(normalize_spec("34.157.126.0/23"@) == Ok::<Seq<char>, (Seq<char>, Seq<char>)>("34.157.126.0/23"@)) by {
        reveal_strlit("34.157.126.0/23");
        reveal_with_fuel(dec_text, 4);
        lemma_v4_block("34.157.126.0/23"@, 34, 157, 126, 0, 23);
    }
    push_canonical(r, "34.157.126.0/23");
    assert(normalize_spec("34.166.0.0/16"@) == Ok::<Seq<char>, (Seq<char>, Seq<char>)>("34.166.0.0/16"@)) by {
        reveal_strlit("34.166.0.0/16");
        reveal_with_fuel(dec_text, 4);
        lemma_v4_block("34.166.0.0/16"@, 34, 166, 0, 0, 16);
    }
    push_canonical(r, "34.166.0.0/16");
    assert(normalize_spec("2600:1900:5400::/44"@) == Ok::<Seq<char>, (Seq<char>, Seq<char>)>("2600:1900:5400::/44"@)) by {
        reveal_strlit("2600:1900:5400::/44");
        reveal_with_fuel(dec_text, 4);
        reveal_with_fuel(hex_text, 4);
        reveal_with_fuel(longest_zero_run, 9);
        reveal_with_fuel(zero_run, 9);
        reveal_with_fuel(join, 8);
        let g = seq![9728u16, 6400u16, 21504u16, 0u16, 0u16, 0u16, 0u16, 0u16];
        assert(g.take(3).map_values(|x: u16| hex_text(x as nat)) =~= seq![hex_text(9728), hex_text(6400), hex_text(21504)]);
        assert(g.skip(8).map_values(|x: u16| hex_text(x as nat)) =~= Seq::<Seq<char>>::empty());
        lemma_v6_block("2600:1900:5400::/44"@, g, 44);
    }
    push_canonical(r, "2600:1900:5400::/44");
    assert(r@ =~= start + seq!["34.1.48.0/20", "34.18.0.0/16", "34.157.126.0/23", "34.166.0.0/16", "2600:1900:5400::/44"]);
}

/// Google Cloud ranges of the middle east region.
pub fn middle_east() -> (r: Vec<&'static str>)
    ensures
        r@ == middle_east_ranges(),
        all_canonical(r@),
{
    let mut r: Vec<&'static str> = Vec::new();
    middle_east_part_1(&mut r);
    assert(r@ =~= middle_east_ranges());
    r
}

/// Google Cloud ranges of the asia japan region.
pub open spec fn asia_japan_ranges() -> Seq<&'static str> {
    seq![
        "34.84.0.0/16",
        "34.85.0.0/17",
        "34.104.128.0/17",
        "34.146.0.0/16",
        "35.187.192.0/19",
        "35.189.128.0/19",
        "35.190.224.0/20",
        "35.194.96.0/19",
        "35.200.0.0/17",
        "35.213.0.0/18",
        "35.221.64.0/18",
        "35.230.240.0/20",
        "35.243.64.0/18",
        "104.198.80.0/20",
        "104.198.112.0/20",
        "2600:1900:4050::/44",
    ]
}

/// Adds the entries of `asia_japan` from the 1. group of 12, each checked to be canonical.
#[verifier::spinoff_prover]
#[verifier::rlimit(100)]
fn asia_japan_part_1(r: &mut Vec<&'static str>)
    requires
        all_canonical(old(r)@),
    ensures
        final(r)@ == old(r)@ + seq!["34.84.0.0/16", "34.85.0.0/17", "34.104.128.0/17", "34.146.0.0/16", "35.187.192.0/19", "35.189.128.0/19", "35.190.224.0/20", "35.194.96.0/19", "35.200.0.0/17", "35.213.0.0/18", "35.221.64.0/18", "35.230.240.0/20"],
        all_canonical(final(r)@),
{
    let ghost start = r@;
    assert(normalize_spec("34.84.0.0/16"@) == Ok::<Seq<char>, (Seq<char>, Seq<char>)>("34.84.0.0/16"@)) by {
        reveal_strlit("34.84.0.0/16");
        reveal_with_fuel(dec_text, 4);
        lemma_v4_block("34.84.0.0/16"@, 34, 84, 0, 0, 16);
    }
    push_canonical(r, "34.84.0.0/16");
    assert(normalize_spec("34.85.0.0/17"@) == Ok::<Seq<char>, (Seq<char>, Seq<char>)>("34.85.0.0/17"@)) by {
        reveal_strlit("34.85.0.0/17");
        reveal_with_fuel(dec_text, 4);
        lemma_v4_block("34.85.0.0/17"@, 34, 85, 0, 0, 17);
    }
    push_canonical(r, "34.85.0.0/17");
    assert(normalize_spec("34.104.128.0/17"@) == Ok::<Seq<char>, (Seq<char>, Seq<char>)>("34.104.128.0/17"@)) by {
        reveal_strlit("34.104.128.0/17");
        reveal_with_fuel(dec_text, 4);
        lemma_v4_block("34.104.128.0/17"@, 34, 104, 128, 0, 17);
    }
    push_canonical(r, "34.104.128.0/17");
    assert(normalize_spec("34.146.0.0/16"@) == Ok::<Seq<char>, (Seq<char>, Seq<char>)>("34.146.0.0/16"@)) by {
        reveal_strlit("34.146.0.0/16");
        reveal_with_fuel(dec_text, 4);
        lemma_v4_block("34.146.0.0/16"@, 34, 146, 0, 0, 16);
    }
    push_canonical(r, "34.146.0.0/16");
    assert(normalize_spec("35.187.192.0/19"@) == Ok::<Seq<char>, (Seq<char>, Seq<char>)>("35.187.192.0/19"@)) by {
        reveal_strlit("35.187.192.0/19");
        reveal_with_fuel(dec_text, 4);
        lemma_v4_block("35.187.192.0/19"@, 35, 187, 192, 0, 19);
    }
    push_canonical(r, "35.187.192.0/19");
    assert(normalize_spec("35.189.128.0/19"@) == Ok::<Seq<char>, (Seq<char>, Seq<char>)>("35.189.128.0/19"@)) by {
        reveal_strlit("35.189.128.0/19");
        reveal_with_fuel(dec_text, 4);
        lemma_v4_block("35.189.128.0/19"@, 35, 189, 128, 0, 19);
    }
    push_canonical(r, "35.189.128.0/19");
    assert(normalize_spec("35.190.224.0/20"@) == Ok::<Seq<char>, (Seq<char>, Seq<char>)>("35.190.224.0/20"@)) by {
        reveal_strlit("35.190.224.0/20");
        reveal_with_fuel(dec_text, 4);
        lemma_v4_block("35.190.224.0/20"@, 35, 190, 224, 0, 20);
    }
    push_canonical(r, "35.190.224.0/20");
    assert(normalize_spec("35.194.96.0/19"@) == Ok::<Seq<char>, (Seq<char>, Seq<char>)>("35.194.96.0/19"@)) by {
        reveal_strlit("35.194.96.0/19");
        reveal_with_fuel(dec_text, 4);
        lemma_v4_block("35.194.96.0/19"@, 35, 194, 96, 0, 19);
    }
    push_canonical(r, "35.194.96.0/19");
    assert(normalize_spec("35.200.0.0/17"@) == Ok::<Seq<char>, (Seq<char>, Seq<char>)>("35.200.0.0/17"@)) by {
        reveal_strlit("35.200.0.0/17");
        reveal_with_fuel(dec_text, 4);
        lemma_v4_block("35.200.0.0/17"@, 35, 200, 0, 0, 17);
    }
    push_canonical(r, "35.200.0.0/17");
    assert(normalize_spec("35.213.0.0/18"@) == Ok::<Seq<char>, (Seq<char>, Seq<char>)>("35.213.0.0/18"@)) by {
        reveal_strlit("35.213.0.0/18");
        reveal_with_fuel(dec_text, 4);
        lemma_v4_block("35.213.0.0/18"@, 35, 213, 0, 0, 18);
    }
    push_canonical(r, "35.213.0.0/18");
    assert(normalize_spec("35.221.64.0/18"@) == Ok::<Seq<char>, (Seq<char>, Seq<char>)>("35.221.64.0/18"@)) by {
        reveal_strlit("35.221.64.0/18");
        reveal_with_fuel(dec_text, 4);
        lemma_v4_block("35.221.64.0/18"@, 35, 221, 64, 0, 18);
    }
    push_canonical(r, "35.221.64.0/18");
    assert(normalize_spec("35.230.240.0/20"@) == Ok::<Seq<char>, (Seq<char>, Seq<char>)>("35.230.240.0/20"@)) by {
        reveal_strlit("35.230.240.0/20");
        reveal_with_fuel(dec_text, 4);
        lemma_v4_block("35.230.240.0/20"@, 35, 230, 240, 0, 20);
    }
    push_canonical(r, "35.230.240.0/20");
    assert(r@ =~= start + seq!["34.84.0.0/16", "34.85.0.0/17", "34.104.128.0/17", "34.146.0.0/16", "35.187.192.0/19", "35.189.128.0/19", "35.190.224.0/20", "35.194.96.0/19", "35.200.0.0/17", "35.213.0.0/18", "35.221.64.0/18", "35.230.240.0/20"]);
}

/// Adds the entries of `asia_japan` from the 2. group of 12, each checked to be canonical.
#[verifier::spinoff_prover]
#[verifier::rlimit(100)]
fn asia_japan_part_2(r: &mut Vec<&'static str>)
    requires
        all_canonical(old(r)@),
    ensures
        final(r)@ == old(r)@ + seq!["35.243.64.0/18", "104.198.80.0/20", "104.198.112.0/20", "2600:1900:4050::/44"],
        all_canonical(final(r)@),
{
    let ghost start = r@;
    assert(normalize_spec("35.243.64.0/18"@) == Ok::<Seq<char>, (Seq<char>, Seq<char>)>("35.243.64.0/18"@)) by {
        reveal_strlit("35.243.64.0/18");
        reveal_with_fuel(dec_text, 4);
        lemma_v4_block("35.243.64.0/18"@, 35, 243, 64, 0, 18);
    }
    push_canonical(r, "35.243.64.0/18");
    assert(normalize_spec("104.198.80.0/20"@) == Ok::<Seq<char>, (Seq<char>, Seq<char>)>("104.198.80.0/20"@)) by {
        reveal_strlit("104.198.80.0/20");
        reveal_with_fuel(dec_text, 4);
        lemma_v4_block("104.198.80.0/20"@, 104, 198, 80, 0, 20);
    }
    push_canonical(r, "104.198.80.0/20");
    assert(normalize_spec("104.198.112.0/20"@) == Ok::<Seq<char>, (Seq<char>, Seq<char>)>("104.198.112.0/20"@)) by {
        reveal_strlit("104.198.112.0/20");
        reveal_with_fuel(dec_text, 4);
        lemma_v4_block("104.198.112.0/20"@, 104, 198, 112, 0, 20);
    }
    push_canonical(r, "104.198.112.0/20");
    assert(normalize_spec("2600:1900:4050::/44"@) == Ok::<Seq<char>, (Seq<char>, Seq<char>)>("2600:1900:4050::/44"@)) by {
        reveal_strlit("2600:1900:4050::/44");
        reveal_with_fuel(dec_text, 4);
        reveal_with_fuel(hex_text, 4);
        reveal_with_fuel(longest_zero_run, 9);
        reveal_with_fuel(zero_run, 9);
        reveal_with_fuel(join, 8);
        let g = seq![9728u16, 6400u16, 16464u16, 0u16, 0u16, 0u16, 0u16, 0u16];
        assert(g.take(3).map_values(|x: u16| hex_text(x as nat)) =~= seq![hex_text(9728), hex_text(6400), hex_text(16464)]);
        assert(g.skip(8).map_values(|x: u16| hex_text(x as nat)) =~= Seq::<Seq<char>>::empty());
        lemma_v6_block("2600:1900:4050::/44"@, g, 44);
    }
    push_canonical(r, "2600:1900:4050::/44");
    assert(r@ =~= start + seq!["35.243.64.0/18", "104.198.80.0/20", "104.198.112.0/20", "2600:1900:4050::/44"]);
}

/// Google Cloud ranges of the asia japan region.
pub fn asia_japan() -> (r: Vec<&'static str>)
    ensures
        r@ == asia_japan_ranges(),
        all_canonical(r@),
{
    let mut r: Vec<&'static str> = Vec::new();
    asia_japan_part_1(&mut r);
    asia_japan_part_2(&mut r);
    assert(r@ =~= asia_japan_ranges());
    r
}

/// Google Cloud ranges of the asia korea region.
pub open spec fn asia_korea_ranges() -> Seq<&'static str> {
    seq![
        "34.22.64.0/19",
        "34.47.64.0/18",
        "34.50.0.0/18",
        "34.64.0.0/16",
        "35.216.0.0/17",
        "2600:1900:41e0::/44",
    ]
}

/// Adds the entries of `asia_korea` from the 1. group of 12, each checked to be canonical.
#[verifier::spinoff_prover]
#[verifier::rlimit(100)]
fn asia_korea_part_1(r: &mut Vec<&'static str>)
    requires
        all_canonical(old(r)@),
    ensures
        final(r)@ == old(r)@ + seq!["34.22.64.0/19", "34.47.64.0/18", "34.50.0.0/18", "34.64.0.0/16", "35.216.0.0/17", "2600:1900:41e0::/44"],
        all_canonical(final(r)@),
{
    let ghost start = r@;
    assert(normalize_spec("34.22.64.0/19"@) == Ok::<Seq<char>, (Seq<char>, Seq<char>)>("34.22.64.0/19"@)) by {
        reveal_strlit("34.22.64.0/19");
        reveal_with_fuel(dec_text, 4);
        lemma_v4_block("34.22.64.0/19"@, 34, 22, 64, 0, 19);
    }
    push_canonical(r, "34.22.64.0/19");
    assert(normalize_spec("34.47.64.0/18"@) == Ok::<Seq<char>, (Seq<char>, Seq<char>)>("34.47.64.0/18"@)) by {
        reveal_strlit("34.47.64.0/18");
        reveal_with_fuel(dec_text, 4);
        lemma_v4_block("34.47.64.0/18"@, 34, 47, 64, 0, 18);
    }
    push_canonical(r, "34.47.64.0/18");
    assert(normalize_spec("34.50.0.0/18"@) == Ok::<Seq<char>, (Seq<char>, Seq<char>)>("34.50.0.0/18"@)) by {
        reveal_strlit("34.50.0.0/18");
        reveal_with_fuel(dec_text, 4);
        lemma_v4_block("34.50.0.0/18"@, 34, 50, 0, 0, 18);
    }
    push_canonical(r, "34.50.0.0/18");
    assert(normalize_spec("34.64.0.0/16"@) == Ok::<Seq<char>, (Seq<char>, Seq<char>)>("34.64.0.0/16"@)) by {
        reveal_strlit("34.64.0.0/16");
        reveal_with_fuel(dec_text, 4);
        lemma_v4_block("34.64.0.0/16"@, 34, 64, 0, 0, 16);
    }
    push_canonical(r, "34.64.0.0/16");
    assert(normalize_spec("35.216.0.0/17"@) == Ok::<Seq<char>, (Seq<char>, Seq<char>)>("35.216.0.0/17"@)) by {
        reveal_strlit("35.216.0.0/17");
        reveal_with_fuel(dec_text, 4);
        lemma_v4_block("35.216.0.0/17"@, 35, 216, 0, 0, 17);
    }
    push_canonical(r, "35.216.0.0/17");
    assert(normalize_spec("2600:1900:41e0::/44"@) == Ok::<Seq<char>, (Seq<char>, Seq<char>)>("2600:1900:41e0::/44"@)) by {
        reveal_strlit("2600:1900:41e0::/44");
        reveal_with_fuel(dec_text, 4);
        reveal_with_fuel(hex_text, 4);
        reveal_with_fuel(longest_zero_run, 9);
        reveal_with_fuel(zero_run, 9);
        reveal_with_fuel(join, 8);
        let g = seq![9728u16, 6400u16, 16864u16, 0u16, 0u16, 0u16, 0u16, 0u16];
        assert(g.take(3).map_values(|x: u16| hex_text(x as nat)) =~= seq![hex_text(9728), hex_text(6400), hex_text(16864)]);
        assert(g.skip(8).map_values(|x: u16| hex_text(x as nat)) =~= Seq::<Seq<char>>::empty());
        lemma_v6_block("2600:1900:41e0::/44"@, g, 44);
    }
    push_canonical(r, "2600:1900:41e0::/44");
    assert(r@ =~= start + seq!["34.22.64.0/19", "34.47.64.0/18", "34.50.0.0/18", "34.64.0.0/16", "35.216.0.0/17", "2600:1900:41e0::/44"]);
}

/// Google Cloud ranges of the asia korea region.
pub fn asia_korea() -> (r: Vec<&'static str>)
    ensures
        r@ == asia_korea_ranges(),
        all_canonical(r@),
{
    let mut r: Vec<&'static str> = Vec::new();
    asia_korea_part_1(&mut r);
    assert(r@ =~= asia_korea_ranges());
    r
}

/// Google Cloud ranges of the asia singapore region.
pub open spec fn asia_singapore_ranges() -> Seq<&'static str> {
    seq![
        "34.87.0.0/17",
        "34.124.128.0/17",
        "34.126.64.0/18",
        "34.126.128.0/18",
        "34.142.128.0/17",
        "34.143.128.0/17",
        "35.185.176.0/20",
        "35.186.144.0/20",
        "35.187.224.0/19",
        "35.197.128.0/19",
        "35.198.192.0/18",
        "35.213.128.0/18",
        "35.240.128.0/17",
        "35.247.128.0/18",
        "2600:1900:4080::/44",
    ]
}

/// Adds the entries of `asia_singapore` from the 1. group of 12, each checked to be canonical.
#[verifier::spinoff_prover]
#[verifier::rlimit(100)]
fn asia_singapore_part_1(r: &mut Vec<&'static str>)
    requires
        all_canonical(old(r)@),
    ensures
        final(r)@ == old(r)@ + seq!["34.87.0.0/17", "34.124.128.0/17", "34.126.64.0/18", "34.126.128.0/18", "34.142.128.0/17", "34.143.128.0/17", "35.185.176.0/20", "35.186.144.0/20", "35.187.224.0/19", "35.197.128.0/19", "35.198.192.0/18", "35.213.128.0/18"],
        all_canonical(final(r)@),
{
    let ghost start = r@;
    assert(normalize_spec("34.87.0.0/17"@) == Ok::<Seq<char>, (Seq<char>, Seq<char>)>("34.87.0.0/17"@)) by {
        reveal_strlit("34.87.0.0/17");
        reveal_with_fuel(dec_text, 4);
        lemma_v4_block("34.87.0.0/17"@, 34, 87, 0, 0, 17);
    }
    push_canonical(r, "34.87.0.0/17");
    assert(normalize_spec("34.124.128.0/17"@) == Ok::<Seq<char>, (Seq<char>, Seq<char>)>("34.124.128.0/17"@)) by {
        reveal_strlit("34.124.128.0/17");
        reveal_with_fuel(dec_text, 4);
        lemma_v4_block("34.124.128.0/17"@, 34, 124, 128, 0, 17);
    }
    push_canonical(r, "34.124.128.0/17");
    assert(normalize_spec("34.126.64.0/18"@) == Ok::<Seq<char>, (Seq<char>, Seq<char>)>("34.126.64.0/18"@)) by {
        reveal_strlit("34.126.64.0/18");
        reveal_with_fuel(dec_text, 4);
        lemma_v4_block("34.126.64.0/18"@, 34, 126, 64, 0, 18);
    }
    push_canonical(r, "34.126.64.0/18");
    assert(normalize_spec("34.126.128.0/18"@) == Ok::<Seq<char>, (Seq<char>, Seq<char>)>("34.126.128.0/18"@)) by {
        reveal_strlit("34.126.128.0/18");
        reveal_with_fuel(dec_text, 4);
        lemma_v4_block("34.126.128.0/18"@, 34, 126, 128, 0, 18);
    }
    push_canonical(r, "34.126.128.0/18");
    assert(normalize_spec("34.142.128.0/17"@) == Ok::<Seq<char>, (Seq<char>, Seq<char>)>("34.142.128.0/17"@)) by {
        reveal_strlit("34.142.128.0/17");
        reveal_with_fuel(dec_text, 4);
        lemma_v4_block("34.142.128.0/17"@, 34, 142, 128, 0, 17);
    }
    push_canonical(r, "34.142.128.0/17");
    assert(normalize_spec("34.143.128.0/17"@) == Ok::<Seq<char>, (Seq<char>, Seq<char>)>("34.143.128.0/17"@)) by {
        reveal_strlit("34.143.128.0/17");
        reveal_with_fuel(dec_text, 4);
        lemma_v4_block("34.143.128.0/17"@, 34, 143, 128, 0, 17);
    }
    push_canonical(r, "34.143.128.0/17");
    assert(normalize_spec("35.185.176.0/20"@) == Ok::<Seq<char>, (Seq<char>, Seq<char>)>("35.185.176.0/20"@)) by {
        reveal_strlit("35.185.176.0/20");
        reveal_with_fuel(dec_text, 4);
        lemma_v4_block("35.185.176.0/20"@, 35, 185, 176, 0, 20);
    }
    push_canonical(r, "35.185.176.0/20");
    assert(normalize_spec("35.186.144.0/20"@) == Ok::<Seq<char>, (Seq<char>, Seq<char>)>("35.186.144.0/20"@)) by {
        reveal_strlit("35.186.144.0/20");
        reveal_with_fuel(dec_text, 4);
        lemma_v4_block("35.186.144.0/20"@, 35, 186, 144, 0, 20);
    }
    push_canonical(r, "35.186.144.0/20");
    assert(normalize_spec("35.187.224.0/19"@) == Ok::<Seq<char>, (Seq<char>, Seq<char>)>("35.187.224.0/19"@)) by {
        reveal_strlit("35.187.224.0/19");
        reveal_with_fuel(dec_text, 4);
        lemma_v4_block("35.187.224.0/19"@, 35, 187, 224, 0, 19);
    }
    push_canonical(r, "35.187.224.0/19");
    assert(normalize_spec("35.197.128.0/19"@) == Ok::<Seq<char>, (Seq<char>, Seq<char>)>("35.197.128.0/19"@)) by {
        reveal_strlit("35.197.128.0/19");
        reveal_with_fuel(dec_text, 4);
        lemma_v4_block("35.197.128.0/19"@, 35, 197, 128, 0, 19);
    }
    push_canonical(r, "35.197.128.0/19");
    assert(normalize_spec("35.198.192.0/18"@) == Ok::<Seq<char>, (Seq<char>, Seq<char>)>("35.198.192.0/18"@)) by {
        reveal_strlit("35.198.192.0/18");
        reveal_with_fuel(dec_text, 4);
        lemma_v4_block("35.198.192.0/18"@, 35, 198, 192, 0, 18);
    }
    push_canonical(r, "35.198.192.0/18");
    assert(normalize_spec("35.213.128.0/18"@) == Ok::<Seq<char>, (Seq<char>, Seq<char>)>("35.213.128.0/18"@)) by {
        reveal_strlit("35.213.128.0/18");
        reveal_with_fuel(dec_text, 4);
        lemma_v4_block("35.213.128.0/18"@, 35, 213, 128, 0, 18);
    }
    push_canonical(r, "35.213.128.0/18");
    assert(r@ =~= start + seq!["34.87.0.0/17", "34.124.128.0/17", "34.126.64.0/18", "34.126.128.0/18", "34.142.128.0/17", "34.143.128.0/17", "35.185.176.0/20", "35.186.144.0/20", "35.187.224.0/19", "35.197.128.0/19", "35.198.192.0/18", "35.213.128.0/18"]);
}

/// Adds the entries of `asia_singapore` from the 2. group of 12, each checked to be canonical.
#[verifier::spinoff_prover]
#[verifier::rlimit(100)]
fn asia_singapore_part_2(r: &mut Vec<&'static str>)
    requires
        all_canonical(old(r)@),
    ensures
        final(r)@ == old(r)@ + seq!["35.240.128.0/17", "35.247.128.0/18", "2600:1900:4080::/44"],
        all_canonical(final(r)@),
{
    let ghost start = r@;
    assert(normalize_spec("35.240.128.0/17"@) == Ok::<Seq<char>, (Seq<char>, Seq<char>)>("35.240.128.0/17"@)) by {
        reveal_strlit("35.240.128.0/17");
        reveal_with_fuel(dec_text, 4);
        lemma_v4_block("35.240.128.0/17"@, 35, 240, 128, 0, 17);
    }
    push_canonical(r, "35.240.128.0/17");
    assert(normalize_spec("35.247.128.0/18"@) == Ok::<Seq<char>, (Seq<char>, Seq<char>)>("35.247.128.0/18"@)) by {
        reveal_strlit("35.247.128.0/18");
        reveal_with_fuel(dec_text, 4);
        lemma_v4_block("35.247.128.0/18"@, 35, 247, 128, 0, 18);
    }
    push_canonical(r, "35.247.128.0/18");
    assert(normalize_spec("2600:1900:4080::/44"@) == Ok::<Seq<char>, (Seq<char>, Seq<char>)>("2600:1900:4080::/44"@)) by {
        reveal_strlit("2600:1900:4080::/44");
        reveal_with_fuel(dec_text, 4);
        reveal_with_fuel(hex_text, 4);
        reveal_with_fuel(longest_zero_run, 9);
        reveal_with_fuel(zero_run, 9);
        reveal_with_fuel(join, 8);
        let g = seq![9728u16, 6400u16, 16512u16, 0u16, 0u16, 0u16, 0u16, 0u16];
        assert(g.take(3).map_values(|x: u16| hex_text(x as nat)) =~= seq![hex_text(9728), hex_text(6400), hex_text(16512)]);
        assert(g.skip(8).map_values(|x: u16| hex_text(x as nat)) =~= Seq::<Seq<char>>::empty());
        lemma_v6_block("2600:1900:4080::/44"@, g, 44);
    }
    push_canonical(r, "2600:1900:4080::/44");
    assert(r@ =~= start + seq!["35.240.128.0/17", "35.247.128.0/18", "2600:1900:4080::/44"]);
}

/// Google Cloud ranges of the asia singapore region.
pub fn asia_singapore() -> (r: Vec<&'static str>)
    ensures
        r@ == asia_singapore_ranges(),
        all_canonical(r@),
{
    let mut r: Vec<&'static str> = Vec::new();
    asia_singapore_part_1(&mut r);
    asia_singapore_part_2(&mut r);
    assert(r@ =~= asia_singapore_ranges());
    r
}

/// Google Cloud ranges of the asia taiwan region.
pub open spec fn asia_taiwan_ranges() -> Seq<&'static str> {
    seq![
        "34.80.0.0/15",
        "34.137.0.0/16",
        "35.185.128.0/19",
        "35.187.144.0/20",
        "35.189.160.0/19",
        "35.194.128.0/17",
        "35.201.128.0/17",
        "35.206.192.0/18",
        "35.221.128.0/17",
        "35.229.128.0/17",
        "35.234.0.0/18",
        "35.236.128.0/18",
        "104.155.192.0/19",
        "104.199.128.0/18",
        "104.199.192.0/19",
        "107.167.176.0/20",
        "130.211.240.0/20",
        "2600:1900:4030::/44",
    ]
}

/// Adds the entries of `asia_taiwan` from the 1. group of 12, each checked to be canonical.
#[verifier::spinoff_prover]
#[verifier::rlimit(100)]
fn asia_taiwan_part_1(r: &mut Vec<&'static str>)
    requires
        all_canonical(old(r)@),
    ensures
        final(r)@ == old(r)@ + seq!["34.80.0.0/15", "34.137.0.0/16", "35.185.128.0/19", "35.187.144.0/20", "35.189.160.0/19", "35.194.128.0/17", "35.201.128.0/17", "35.206.192.0/18", "35.221.128.0/17", "35.229.128.0/17", "35.234.0.0/18", "35.236.128.0/18"],
        all_canonical(final(r)@),
{
    let ghost start = r@;
    assert(normalize_spec("34.80.0.0/15"@) == Ok::<Seq<char>, (Seq<char>, Seq<char>)>("34.80.0.0/15"@)) by {
        reveal_strlit("34.80.0.0/15");
        reveal_with_fuel(dec_text, 4);
        lemma_v4_block("34.80.0.0/15"@, 34, 80, 0, 0, 15);
    }
    push_canonical(r, "34.80.0.0/15");
    assert(normalize_spec("34.137.0.0/16"@) == Ok::<Seq<char>, (Seq<char>, Seq<char>)>("34.137.0.0/16"@)) by {
        reveal_strlit("34.137.0.0/16");
        reveal_with_fuel(dec_text, 4);
        lemma_v4_block("34.137.0.0/16"@, 34, 137, 0, 0, 16);
    }
    push_canonical(r, "34.137.0.0/16");
    assert(normalize_spec("35.185.128.0/19"@) == Ok::<Seq<char>, (Seq<char>, Seq<char>)>("35.185.128.0/19"@)) by {
        reveal_strlit("35.185.128.0/19");
        reveal_with_fuel(dec_text, 4);
        lemma_v4_block("35.185.128.0/19"@, 35, 185, 128, 0, 19);
    }
    push_canonical(r, "35.185.128.0/19");
    assert(normalize_spec("35.187.144.0/20"@) == Ok::<Seq<char>, (Seq<char>, Seq<char>)>("35.187.144.0/20"@)) by {
        reveal_strlit("35.187.144.0/20");
        reveal_with_fuel(dec_text, 4);
        lemma_v4_block("35.187.144.0/20"@, 35, 187, 144, 0, 20);
    }
    push_canonical(r, "35.187.144.0/20");
    assert(normalize_spec("35.189.160.0/19"@) == Ok::<Seq<char>, (Seq<char>, Seq<char>)>("35.189.160.0/19"@)) by {
        reveal_strlit("35.189.160.0/19");
        reveal_with_fuel(dec_text, 4);
        lemma_v4_block("35.189.160.0/19"@, 35, 189, 160, 0, 19);
    }
    push_canonical(r, "35.189.160.0/19");
    assert(normalize_spec("35.194.128.0/17"@) == Ok::<Seq<char>, (Seq<char>, Seq<char>)>("35.194.128.0/17"@)) by {
        reveal_strlit("35.194.128.0/17");
        reveal_with_fuel(dec_text, 4);
        lemma_v4_block("35.194.128.0/17"@, 35, 194, 128, 0, 17);
    }
    push_canonical(r, "35.194.128.0/17");
    assert(normalize_spec("35.201.128.0/17"@) == Ok::<Seq<char>, (Seq<char>, Seq<char>)>("35.201.128.0/17"@)) by {
        reveal_strlit("35.201.128.0/17");
        reveal_with_fuel(dec_text, 4);
        lemma_v4_block("35.201.128.0/17"@, 35, 201, 128, 0, 17);
    }
    push_canonical(r, "35.201.128.0/17");
    assert(normalize_spec("35.206.192.0/18"@) == Ok::<Seq<char>, (Seq<char>, Seq<char>)>("35.206.192.0/18"@)) by {
        reveal_strlit("35.206.192.0/18");
        reveal_with_fuel(dec_text, 4);
        lemma_v4_block("35.206.192.0/18"@, 35, 206, 192, 0, 18);
    }
    push_canonical(r, "35.206.192.0/18");
    assert(normalize_spec("35.221.128.0/17"@) == Ok::<Seq<char>, (Seq<char>, Seq<char>)>("35.221.128.0/17"@)) by {
        reveal_strlit("35.221.128.0/17");
        reveal_with_fuel(dec_text, 4);
        lemma_v4_block("35.221.128.0/17"@, 35, 221, 128, 0, 17);
    }
    push_canonical(r, "35.221.128.0/17");
    assert(normalize_spec("35.229.128.0/17"@) == Ok::<Seq<char>, (Seq<char>, Seq<char>)>("35.229.128.0/17"@)) by {
        reveal_strlit("35.229.128.0/17");
        reveal_with_fuel(dec_text, 4);
        lemma_v4_block("35.229.128.0/17"@, 35, 229, 128, 0, 17);
    }
    push_canonical(r, "35.229.128.0/17");
    assert(normalize_spec("35.234.0.0/18"@) == Ok::<Seq<char>, (Seq<char>, Seq<char>)>("35.234.0.0/18"@)) by {
        reveal_strlit("35.234.0.0/18");
        reveal_with_fuel(dec_text, 4);
        lemma_v4_block("35.234.0.0/18"@, 35, 234, 0, 0, 18);
    }
    push_canonical(r, "35.234.0.0/18");
    assert(normalize_spec("35.236.128.0/18"@) == Ok::<Seq<char>, (Seq<char>, Seq<char>)>("35.236.128.0/18"@)) by {
        reveal_strlit("35.236.128.0/18");
        reveal_with_fuel(dec_text, 4);
        lemma_v4_block("35.236.128.0/18"@, 35, 236, 128, 0, 18);
    }
    push_canonical(r, "35.236.128.0/18");
    assert(r@ =~= start + seq!["34.80.0.0/15", "34.137.0.0/16", "35.185.128.0/19", "35.187.144.0/20", "35.189.160.0/19", "35.194.128.0/17", "35.201.128.0/17", "35.206.192.0/18", "35.221.128.0/17", "35.229.128.0/17", "35.234.0.0/18", "35.236.128.0/18"]);
}

/// Adds the entries of `asia_taiwan` from the 2. group of 12, each checked to be canonical.
#[verifier::spinoff_prover]
#[verifier::rlimit(100)]
fn asia_taiwan_part_2(r: &mut Vec<&'static str>)
    requires
        all_canonical(old(r)@),
    ensures
        final(r)@ == old(r)@ + seq!["104.155.192.0/19", "104.199.128.0/18", "104.199.192.0/19", "107.167.176.0/20", "130.211.240.0/20", "2600:1900:4030::/44"],
        all_canonical(final(r)@),
{
    let ghost start = r@;
    assert(normalize_spec("104.155.192.0/19"@) == Ok::<Seq<char>, (Seq<char>, Seq<char>)>("104.155.192.0/19"@)) by {
        reveal_strlit("104.155.192.0/19");
        reveal_with_fuel(dec_text, 4);
        lemma_v4_block("104.155.192.0/19"@, 104, 155, 192, 0, 19);
    }
    push_canonical(r, "104.155.192.0/19");
    assert(normalize_spec("104.199.128.0/18"@) == Ok::<Seq<char>, (Seq<char>, Seq<char>)>("104.199.128.0/18"@)) by {
        reveal_strlit("104.199.128.0/18");
        reveal_with_fuel(dec_text, 4);
        lemma_v4_block("104.199.128.0/18"@, 104, 199, 128, 0, 18);
    }
    push_canonical(r, "104.199.128.0/18");
    assert(normalize_spec("104.199.192.0/19"@) == Ok::<Seq<char>, (Seq<char>, Seq<char>)>("104.199.192.0/19"@)) by {
        reveal_strlit("104.199.192.0/19");
        reveal_with_fuel(dec_text, 4);
        lemma_v4_block("104.199.192.0/19"@, 104, 199, 192, 0, 19);
    }
    push_canonical(r, "104.199.192.0/19");
    assert(normalize_spec("107.167.176.0/20"@) == Ok::<Seq<char>, (Seq<char>, Seq<char>)>("107.167.176.0/20"@)) by {
        reveal_strlit("107.167.176.0/20");
        reveal_with_fuel(dec_text, 4);
        lemma_v4_block("107.167.176.0/20"@, 107, 167, 176, 0, 20);
    }
    push_canonical(r, "107.167.176.0/20");
    assert(normalize_spec("130.211.240.0/20"@) == Ok::<Seq<char>, (Seq<char>, Seq<char>)>("130.211.240.0/20"@)) by {
        reveal_strlit("130.211.240.0/20");
        reveal_with_fuel(dec_text, 4);
        lemma_v4_block("130.211.240.0/20"@, 130, 211, 240, 0, 20);
    }
    push_canonical(r, "130.211.240.0/20");
    assert(normalize_spec("2600:1900:4030::/44"@) == Ok::<Seq<char>, (Seq<char>, Seq<char>)>("2600:1900:4030::/44"@)) by {
        reveal_strlit("2600:1900:4030::/44");
        reveal_with_fuel(dec_text, 4);
        reveal_with_fuel(hex_text, 4);
        reveal_with_fuel(longest_zero_run, 9);
        reveal_with_fuel(zero_run, 9);
        reveal_with_fuel(join, 8);
        let g = seq![9728u16, 6400u16, 16432u16, 0u16, 0u16, 0u16, 0u16, 0u16];
        assert(g.take(3).map_values(|x: u16| hex_text(x as nat)) =~= seq![hex_text(9728), hex_text(6400), hex_text(16432)]);
        assert(g.skip(8).map_values(|x: u16| hex_text(x as nat)) =~= Seq::<Seq<char>>::empty());
        lemma_v6_block("2600:1900:4030::/44"@, g, 44);
    }
    push_canonical(r, "2600:1900:4030::/44");
    assert(r@ =~= start + seq!["104.155.192.0/19", "104.199.128.0/18", "104.199.192.0/19", "107.167.176.0/20", "130.211.240.0/20", "2600:1900:4030::/44"]);
}

/// Google Cloud ranges of the asia taiwan region.
pub fn asia_taiwan() -> (r: Vec<&'static str>)
    ensures
        r@ == asia_taiwan_ranges(),
        all_canonical(r@),
{
    let mut r: Vec<&'static str> = Vec::new();
    asia_taiwan_part_1(&mut r);
    asia_taiwan_part_2(&mut r);
    assert(r@ =~= asia_taiwan_ranges());
    r
}

} // verus!
