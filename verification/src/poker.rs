//! Heads-up no-limit Texas Hold'em as an event-sourced room.
//!
//! Hole cards and community cards travel in the `HAND_STARTED` and `STREET`
//! events that `validate` emits, so replaying the log rebuilds every hand
//! without dealing again. Two players; the dealer button alternates each
//! hand; the dealer posts the small blind and acts first before the flop,
//! the other player acts first after it. The match ends after the configured
//! number of hands or when a player is bust.
use vstd::prelude::*;
use vstd::std_specs::hash::DefaultHasherAdditionalSpecFns;
use vstd::string::StringSliceAdditionalSpecFns;
use std::collections::hash_map::DefaultHasher;
use std::hash::Hasher;
use crate::text::{chars_of, string_of};

verus! {

// ---------------------------------------------------------------------------
// Cards
// ---------------------------------------------------------------------------

/// Cards are `0..52`: `card / 4` is the rank (0 is a deuce, 12 an ace) and
/// `card % 4` the suit (clubs, diamonds, hearts, spades).
pub open spec fn rank_char(r: int) -> char {
    if r == 0 {
        '2'
    } else if r == 1 {
        '3'
    } else if r == 2 {
        '4'
    } else if r == 3 {
        '5'
    } else if r == 4 {
        '6'
    } else if r == 5 {
        '7'
    } else if r == 6 {
        '8'
    } else if r == 7 {
        '9'
    } else if r == 8 {
        'T'
    } else if r == 9 {
        'J'
    } else if r == 10 {
        'Q'
    } else if r == 11 {
        'K'
    } else {
        'A'
    }
}

pub open spec fn suit_char(s: int) -> char {
    if s == 0 {
        'c'
    } else if s == 1 {
        'd'
    } else if s == 2 {
        'h'
    } else {
        's'
    }
}

/// The rank a character names.
pub open spec fn rank_index(c: char) -> Option<int> {
    if c == '2' {
        Some(0)
    } else if c == '3' {
        Some(1)
    } else if c == '4' {
        Some(2)
    } else if c == '5' {
        Some(3)
    } else if c == '6' {
        Some(4)
    } else if c == '7' {
        Some(5)
    } else if c == '8' {
        Some(6)
    } else if c == '9' {
        Some(7)
    } else if c == 'T' {
        Some(8)
    } else if c == 'J' {
        Some(9)
    } else if c == 'Q' {
        Some(10)
    } else if c == 'K' {
        Some(11)
    } else if c == 'A' {
        Some(12)
    } else {
        None
    }
}

pub open spec fn suit_index(c: char) -> Option<int> {
    if c == 'c' {
        Some(0)
    } else if c == 'd' {
        Some(1)
    } else if c == 'h' {
        Some(2)
    } else if c == 's' {
        Some(3)
    } else {
        None
    }
}

/// A card's two-character name, rank then suit: `As`, `Td`, `2c`.
pub open spec fn card_name(card: int) -> Seq<char> {
    seq![rank_char(card / 4), suit_char(card % 4)]
}

/// The card a two-character name denotes.
pub open spec fn card_of(s: Seq<char>) -> Option<u8> {
    if s.len() == 2 {
        match (rank_index(s[0]), suit_index(s[1])) {
            (Some(r), Some(t)) => Some((r * 4 + t) as u8),
            _ => None,
        }
    } else {
        None
    }
}

fn rank_char_exec(r: u8) -> (c: char)
    ensures
        c == rank_char(r as int),
{
    match r {
        0 => '2',
        1 => '3',
        2 => '4',
        3 => '5',
        4 => '6',
        5 => '7',
        6 => '8',
        7 => '9',
        8 => 'T',
        9 => 'J',
        10 => 'Q',
        11 => 'K',
        _ => 'A',
    }
}

fn suit_char_exec(s: u8) -> (c: char)
    ensures
        c == suit_char(s as int),
{
    match s {
        0 => 'c',
        1 => 'd',
        2 => 'h',
        _ => 's',
    }
}

fn rank_index_exec(c: char) -> (r: Option<u8>)
    ensures
        match rank_index(c) {
            Some(i) => r == Some(i as u8),
            None => r is None,
        },
{
    match c {
        '2' => Some(0),
        '3' => Some(1),
        '4' => Some(2),
        '5' => Some(3),
        '6' => Some(4),
        '7' => Some(5),
        '8' => Some(6),
        '9' => Some(7),
        'T' => Some(8),
        'J' => Some(9),
        'Q' => Some(10),
        'K' => Some(11),
        'A' => Some(12),
        _ => None,
    }
}

fn suit_index_exec(c: char) -> (r: Option<u8>)
    ensures
        match suit_index(c) {
            Some(i) => r == Some(i as u8),
            None => r is None,
        },
{
    match c {
        'c' => Some(0),
        'd' => Some(1),
        'h' => Some(2),
        's' => Some(3),
        _ => None,
    }
}

/// The name of `card`.
pub fn card_to_str(card: u8) -> (s: String)
    requires
        card < 52,
    ensures
        s@ == card_name(card as int),
{
    let mut v: Vec<char> = Vec::new();
    v.push(rank_char_exec(card / 4));
    v.push(suit_char_exec(card % 4));
    proof {
        assert(v@ =~= card_name(card as int));
    }
    string_of(&v)
}

/// Reads a card name.
pub fn parse_card(s: &str) -> (r: Option<u8>)
    ensures
        r == card_of(s@),
{
    let v = chars_of(s);
    if v.len() != 2 {
        return None;
    }
    let rank = match rank_index_exec(v[0]) {
        Some(x) => x,
        None => {
            return None;
        },
    };
    let suit = match suit_index_exec(v[1]) {
        Some(x) => x,
        None => {
            return None;
        },
    };
    Some(rank * 4 + suit)
}

/// Naming a card and reading the name back gives the card.
pub proof fn law_card_round_trip(card: int)
    requires
        0 <= card < 52,
    ensures
        card_of(card_name(card)) == Some(card as u8),
{
}

/// A readable name is the name of the card it reads as.
pub proof fn law_card_names_unique(s: Seq<char>)
    requires
        card_of(s) is Some,
    ensures
        card_of(s)->0 < 52,
        card_name(card_of(s)->0 as int) == s,
{
    let c = card_of(s)->0 as int;
    assert(c / 4 == rank_index(s[0])->0);
    assert(c % 4 == suit_index(s[1])->0);
    assert(card_name(c) =~= s);
}


// ---------------------------------------------------------------------------
// Hand values
// ---------------------------------------------------------------------------

pub const CAT_HIGH_CARD: u64 = 0;

pub const CAT_PAIR: u64 = 1;

pub const CAT_TWO_PAIR: u64 = 2;

pub const CAT_TRIPS: u64 = 3;

pub const CAT_STRAIGHT: u64 = 4;

pub const CAT_FLUSH: u64 = 5;

pub const CAT_FULL_HOUSE: u64 = 6;

pub const CAT_QUADS: u64 = 7;

pub const CAT_STRAIGHT_FLUSH: u64 = 8;

/// A category and five kickers packed four bits each, most significant
/// first: `[cat][k1][k2][k3][k4][k5]`.
pub open spec fn packed(cat: int, k0: int, k1: int, k2: int, k3: int, k4: int) -> int {
    cat * 0x100000 + k0 * 0x10000 + k1 * 0x1000 + k2 * 0x100 + k3 * 0x10 + k4
}

/// What `pack_rank` computes, bit by bit.
pub open spec fn pack_bits(cat: u64, k: [u8; 5]) -> u64 {
    (cat << 20u64) | ((k[0] as u64) << 16u64) | ((k[1] as u64) << 12u64) | ((k[2] as u64) << 8u64)
        | ((k[3] as u64) << 4u64) | (k[4] as u64)
}

proof fn lemma_pack_small(cat: u64, k0: u64, k1: u64, k2: u64, k3: u64, k4: u64)
    requires
        cat < 16,
        k0 < 16,
        k1 < 16,
        k2 < 16,
        k3 < 16,
        k4 < 16,
    ensures
        (cat << 20u64) | (k0 << 16u64) | (k1 << 12u64) | (k2 << 8u64) | (k3 << 4u64) | k4 == cat
            * 0x100000 + k0 * 0x10000 + k1 * 0x1000 + k2 * 0x100 + k3 * 0x10 + k4,
{
    assert((cat << 20u64) | (k0 << 16u64) | (k1 << 12u64) | (k2 << 8u64) | (k3 << 4u64) | k4 == cat
        * 0x100000 + k0 * 0x10000 + k1 * 0x1000 + k2 * 0x100 + k3 * 0x10 + k4) by (bit_vector)
        requires
            cat < 16,
            k0 < 16,
            k1 < 16,
            k2 < 16,
            k3 < 16,
            k4 < 16,
    ;
}

/// Packs a category and five kickers into one comparable number.
pub fn pack_rank(cat: u64, k: [u8; 5]) -> (r: u64)
    ensures
        r == pack_bits(cat, k),
        cat < 16 && k[0] < 16 && k[1] < 16 && k[2] < 16 && k[3] < 16 && k[4] < 16 ==> r == packed(
            cat as int,
            k[0] as int,
            k[1] as int,
            k[2] as int,
            k[3] as int,
            k[4] as int,
        ),
{
    let r = (cat << 20u64) | ((k[0] as u64) << 16u64) | ((k[1] as u64) << 12u64) | ((k[2] as u64)
        << 8u64) | ((k[3] as u64) << 4u64) | (k[4] as u64);
    proof {
        if cat < 16 && k[0] < 16 && k[1] < 16 && k[2] < 16 && k[3] < 16 && k[4] < 16 {
            lemma_pack_small(cat, k[0] as u64, k[1] as u64, k[2] as u64, k[3] as u64, k[4] as u64);
        }
    }
    r
}

/// Rank `r` is marked in the mask `m`.
pub open spec fn bit_set(m: u16, r: int) -> bool {
    (m >> (r as u16)) & 1u16 == 1u16
}

/// Five ranks ending at `top` are all present.
pub open spec fn run_at(p: spec_fn(int) -> bool, top: int) -> bool {
    p(top) && p(top - 1) && p(top - 2) && p(top - 3) && p(top - 4)
}

/// The highest `top` in `4..=hi` with five present ranks ending at it.
pub open spec fn highest_run(p: spec_fn(int) -> bool, hi: int) -> Option<int>
    decreases hi,
{
    if hi < 4 {
        None
    } else if run_at(p, hi) {
        Some(hi)
    } else {
        highest_run(p, hi - 1)
    }
}

/// The top rank of the best straight among the present ranks: the highest
/// run of five, else the wheel A-2-3-4-5 (whose top is the five, rank 3).
pub open spec fn straight_top(p: spec_fn(int) -> bool) -> Option<int> {
    match highest_run(p, 12) {
        Some(t) => Some(t),
        None => if p(12) && p(0) && p(1) && p(2) && p(3) {
            Some(3)
        } else {
            None
        },
    }
}

proof fn lemma_highest_run_ext(p1: spec_fn(int) -> bool, p2: spec_fn(int) -> bool, hi: int)
    requires
        hi <= 12,
        forall|r: int| 0 <= r < 13 ==> #[trigger] p1(r) == p2(r),
    ensures
        highest_run(p1, hi) == highest_run(p2, hi),
    decreases hi,
{
    if hi >= 4 {
        lemma_highest_run_ext(p1, p2, hi - 1);
    }
}

proof fn lemma_highest_run_bound(p: spec_fn(int) -> bool, hi: int)
    ensures
        highest_run(p, hi) matches Some(t) ==> 4 <= t <= hi,
    decreases hi,
{
    if hi >= 4 {
        lemma_highest_run_bound(p, hi - 1);
    }
}

proof fn lemma_straight_top_bound(p: spec_fn(int) -> bool)
    ensures
        straight_top(p) matches Some(t) ==> 3 <= t <= 12,
{
    lemma_highest_run_bound(p, 12);
}

/// Straights depend only on which of the thirteen ranks are present.
proof fn lemma_straight_ext(p1: spec_fn(int) -> bool, p2: spec_fn(int) -> bool)
    requires
        forall|r: int| 0 <= r < 13 ==> #[trigger] p1(r) == p2(r),
    ensures
        straight_top(p1) == straight_top(p2),
{
    lemma_highest_run_ext(p1, p2, 12);
}

fn bit_set_exec(m: u16, r: u16) -> (b: bool)
    requires
        r < 16,
    ensures
        b == bit_set(m, r as int),
{
    (m >> r) & 1u16 == 1u16
}

/// The top rank of the best straight in a mask of ranks.
pub fn straight_high(ranks_present: u16) -> (r: Option<u8>)
    ensures
        match straight_top(|r: int| bit_set(ranks_present, r)) {
            Some(t) => r == Some(t as u8),
            None => r is None,
        },
{
    let mut top: u16 = 12;
    while top >= 4
        invariant
            3 <= top <= 12,
            highest_run(|r: int| bit_set(ranks_present, r), 12) == highest_run(
                |r: int| bit_set(ranks_present, r),
                top as int,
            ),
        decreases top,
    {
        if bit_set_exec(ranks_present, top) && bit_set_exec(ranks_present, top - 1) && bit_set_exec(
            ranks_present,
            top - 2,
        ) && bit_set_exec(ranks_present, top - 3) && bit_set_exec(ranks_present, top - 4) {
            return Some(top as u8);
        }
        top -= 1;
    }
    if bit_set_exec(ranks_present, 12) && bit_set_exec(ranks_present, 0) && bit_set_exec(
        ranks_present,
        1,
    ) && bit_set_exec(ranks_present, 2) && bit_set_exec(ranks_present, 3) {
        Some(3)
    } else {
        None
    }
}


// ---------------------------------------------------------------------------
// Evaluating a hand
// ---------------------------------------------------------------------------

/// How many of the cards have rank `r`.
pub open spec fn rank_count(cs: Seq<u8>, r: int) -> nat
    decreases cs.len(),
{
    if cs.len() == 0 {
        0
    } else {
        rank_count(cs.drop_last(), r) + if cs.last() / 4 == r {
            1nat
        } else {
            0nat
        }
    }
}

/// How many of the cards have suit `s`.
pub open spec fn suit_count(cs: Seq<u8>, s: int) -> nat
    decreases cs.len(),
{
    if cs.len() == 0 {
        0
    } else {
        suit_count(cs.drop_last(), s) + if cs.last() % 4 == s {
            1nat
        } else {
            0nat
        }
    }
}

/// The `n` highest ranks `<= hi` for which `p` holds, highest first.
pub open spec fn ranks_desc(p: spec_fn(int) -> bool, hi: int, n: nat) -> Seq<u8>
    decreases hi + 1,
{
    if hi < 0 || n == 0 {
        seq![]
    } else if p(hi) {
        seq![hi as u8] + ranks_desc(p, hi - 1, (n - 1) as nat)
    } else {
        ranks_desc(p, hi - 1, n)
    }
}

/// The `i`-th entry, or 0 past the end.
pub open spec fn kick(q: Seq<u8>, i: int) -> int {
    if i < q.len() {
        q[i] as int
    } else {
        0
    }
}

pub open spec fn packed_top(cat: int, q: Seq<u8>) -> int {
    packed(cat, kick(q, 0), kick(q, 1), kick(q, 2), kick(q, 3), kick(q, 4))
}

/// The first suit from `s` on holding at least five of the cards.
pub open spec fn flush_suit(cs: Seq<u8>, s: int) -> Option<int>
    decreases 4 - s,
{
    if s >= 4 {
        None
    } else if suit_count(cs, s) >= 5 {
        Some(s)
    } else {
        flush_suit(cs, s + 1)
    }
}

/// The top of a straight within one suit, for the first such suit from `s`
/// on that holds at least five of the cards.
pub open spec fn straight_flush(cs: Seq<u8>, s: int) -> Option<int>
    decreases 4 - s,
{
    if s >= 4 {
        None
    } else if suit_count(cs, s) >= 5 && straight_top(|r: int| cs.contains((r * 4 + s) as u8))
        is Some {
        straight_top(|r: int| cs.contains((r * 4 + s) as u8))
    } else {
        straight_flush(cs, s + 1)
    }
}

/// The value of the best five-card hand among `cs`, as a category and
/// kickers packed so that a better hand has a larger value:
/// straight flush (its top), four of a kind (rank, kicker), full house
/// (trips, pair; a second set of trips serves as the pair), flush (its five
/// top ranks), straight (its top), three of a kind (rank, two kickers), two
/// pair (both ranks, kicker), pair (rank, three kickers), high card (five
/// top ranks). Missing kickers count as 0.
pub open spec fn hand_value(cs: Seq<u8>) -> int {
    match straight_flush(cs, 0) {
        Some(t) => packed(8, t, 0, 0, 0, 0),
        None => {
            let quads = ranks_desc(|r: int| rank_count(cs, r) == 4, 12, 1);
            let trips = ranks_desc(|r: int| rank_count(cs, r) == 3, 12, 2);
            let pairs = ranks_desc(|r: int| rank_count(cs, r) == 2, 12, 2);
            if quads.len() > 0 {
                let q = quads[0] as int;
                let k = ranks_desc(|r: int| r != q && rank_count(cs, r) >= 1, 12, 1);
                packed(7, q, kick(k, 0), 0, 0, 0)
            } else if trips.len() > 0 && (trips.len() > 1 || pairs.len() > 0) {
                packed(
                    6,
                    trips[0] as int,
                    if trips.len() > 1 {
                        trips[1] as int
                    } else {
                        pairs[0] as int
                    },
                    0,
                    0,
                    0,
                )
            } else {
                match flush_suit(cs, 0) {
                    Some(s) => packed_top(5, ranks_desc(|r: int| cs.contains((r * 4 + s) as u8), 12, 5)),
                    None => match straight_top(|r: int| rank_count(cs, r) >= 1) {
                        Some(t) => packed(4, t, 0, 0, 0, 0),
                        None => if trips.len() > 0 {
                            let t = trips[0] as int;
                            let k = ranks_desc(|r: int| r != t && rank_count(cs, r) >= 1, 12, 2);
                            packed(3, t, kick(k, 0), kick(k, 1), 0, 0)
                        } else if pairs.len() > 1 {
                            let p0 = pairs[0] as int;
                            let p1 = pairs[1] as int;
                            let k = ranks_desc(
                                |r: int| r != p0 && r != p1 && rank_count(cs, r) >= 1,
                                12,
                                1,
                            );
                            packed(2, p0, p1, kick(k, 0), 0, 0)
                        } else if pairs.len() > 0 {
                            let p0 = pairs[0] as int;
                            let k = ranks_desc(|r: int| r != p0 && rank_count(cs, r) >= 1, 12, 3);
                            packed(1, p0, kick(k, 0), kick(k, 1), kick(k, 2), 0)
                        } else {
                            packed_top(0, ranks_desc(|r: int| rank_count(cs, r) >= 1, 12, 5))
                        },
                    },
                }
            }
        },
    }
}

proof fn lemma_counts_remove(ds: Seq<u8>, j: int, r: int)
    requires
        0 <= j < ds.len(),
    ensures
        rank_count(ds, r) == rank_count(ds.remove(j), r) + if ds[j] / 4 == r {
            1nat
        } else {
            0nat
        },
        suit_count(ds, r) == suit_count(ds.remove(j), r) + if ds[j] % 4 == r {
            1nat
        } else {
            0nat
        },
    decreases ds.len(),
{
    if j == ds.len() - 1 {
        assert(ds.remove(j) =~= ds.drop_last());
    } else {
        lemma_counts_remove(ds.drop_last(), j, r);
        assert(ds.remove(j).drop_last() =~= ds.drop_last().remove(j));
        assert(ds.remove(j).last() == ds.last());
    }
}

/// Cards that hold the same cards, in whatever order, have the same counts
/// of each rank and suit.
proof fn lemma_counts_perm(cs: Seq<u8>, ds: Seq<u8>, r: int)
    requires
        cs.to_multiset() == ds.to_multiset(),
    ensures
        rank_count(cs, r) == rank_count(ds, r),
        suit_count(cs, r) == suit_count(ds, r),
    decreases cs.len(),
{
    broadcast use vstd::seq_lib::group_to_multiset_ensures;
    broadcast use vstd::multiset::group_multiset_axioms;

    vstd::seq_lib::to_multiset_len(cs);
    vstd::seq_lib::to_multiset_len(ds);
    if cs.len() == 0 {
        assert(ds.len() == 0);
    } else {
        let x = cs.last();
        let dl = cs.drop_last();
        assert(cs =~= dl.push(x));
        assert(cs.to_multiset() == dl.to_multiset().insert(x));
        vstd::seq_lib::to_multiset_build(dl, x);
        vstd::seq_lib::to_multiset_contains(ds, x);
        assert(ds.to_multiset().count(x) > 0);
        assert(ds.contains(x));
        let j = choose|j: int| 0 <= j < ds.len() && ds[j] == x;
        vstd::seq_lib::to_multiset_remove(ds, j);
        assert(ds.remove(j).to_multiset() == ds.to_multiset().remove(x));
        assert(dl.to_multiset() =~= ds.remove(j).to_multiset());
        lemma_counts_perm(dl, ds.remove(j), r);
        lemma_counts_remove(ds, j, r);
    }
}

/// The value of a hand does not depend on the order of its cards.
pub proof fn law_hand_value_order_free(cs: Seq<u8>, ds: Seq<u8>)
    requires
        cs.to_multiset() == ds.to_multiset(),
    ensures
        hand_value(cs) == hand_value(ds),
{
    broadcast use vstd::seq_lib::group_to_multiset_ensures;

    assert forall|r: int| rank_count(cs, r) == rank_count(ds, r) && suit_count(cs, r) == suit_count(ds, r) by {
        lemma_counts_perm(cs, ds, r);
    }
    assert forall|x: u8| cs.contains(x) == ds.contains(x) by {
        vstd::seq_lib::to_multiset_contains(cs, x);
        vstd::seq_lib::to_multiset_contains(ds, x);
    }
    assert(hand_value(cs) == hand_value(ds)) by {
        assert((|r: int| rank_count(cs, r) == 4) =~= (|r: int| rank_count(ds, r) == 4));
        assert((|r: int| rank_count(cs, r) == 3) =~= (|r: int| rank_count(ds, r) == 3));
        assert((|r: int| rank_count(cs, r) == 2) =~= (|r: int| rank_count(ds, r) == 2));
        assert((|r: int| rank_count(cs, r) >= 1) =~= (|r: int| rank_count(ds, r) >= 1));
        lemma_flush_perm(cs, ds, 0);
        lemma_straight_flush_perm(cs, ds, 0);
        let quads = ranks_desc(|r: int| rank_count(cs, r) == 4, 12, 1);
        let trips = ranks_desc(|r: int| rank_count(cs, r) == 3, 12, 2);
        let pairs = ranks_desc(|r: int| rank_count(cs, r) == 2, 12, 2);
        let q = quads[0] as int;
        let t = trips[0] as int;
        let p0 = pairs[0] as int;
        let p1 = pairs[1] as int;
        let fs = flush_suit(cs, 0)->0;
        assert((|r: int| r != q && rank_count(cs, r) >= 1) =~= (|r: int| r != q && rank_count(ds, r) >= 1));
        assert((|r: int| r != t && rank_count(cs, r) >= 1) =~= (|r: int| r != t && rank_count(ds, r) >= 1));
        assert((|r: int| r != p0 && rank_count(cs, r) >= 1) =~= (|r: int| r != p0 && rank_count(ds, r) >= 1));
        assert((|r: int| r != p0 && r != p1 && rank_count(cs, r) >= 1) =~= (|r: int| r != p0 && r != p1
            && rank_count(ds, r) >= 1));
        assert((|r: int| cs.contains((r * 4 + fs) as u8)) =~= (|r: int| ds.contains((r * 4 + fs) as u8)));
    }
}

proof fn lemma_flush_perm(cs: Seq<u8>, ds: Seq<u8>, s: int)
    requires
        forall|r: int| suit_count(cs, r) == suit_count(ds, r),
    ensures
        flush_suit(cs, s) == flush_suit(ds, s),
    decreases 4 - s,
{
    if s < 4 {
        lemma_flush_perm(cs, ds, s + 1);
        assert(suit_count(cs, s) == suit_count(ds, s));
    }
}

proof fn lemma_straight_flush_perm(cs: Seq<u8>, ds: Seq<u8>, s: int)
    requires
        forall|r: int| suit_count(cs, r) == suit_count(ds, r),
        forall|x: u8| cs.contains(x) == ds.contains(x),
    ensures
        straight_flush(cs, s) == straight_flush(ds, s),
    decreases 4 - s,
{
    if s < 4 {
        lemma_straight_flush_perm(cs, ds, s + 1);
        assert(suit_count(cs, s) == suit_count(ds, s));
        assert((|r: int| cs.contains((r * 4 + s) as u8)) =~= (|r: int| ds.contains((r * 4 + s) as u8)));
    }
}

proof fn lemma_ranks_desc_bound(p: spec_fn(int) -> bool, hi: int, n: nat)
    requires
        hi <= 12,
    ensures
        ranks_desc(p, hi, n).len() <= n,
        forall|i: int| 0 <= i < ranks_desc(p, hi, n).len() ==> #[trigger] ranks_desc(p, hi, n)[i] <= 12,
    decreases hi + 1,
{
    if hi >= 0 && n > 0 {
        if p(hi) {
            lemma_ranks_desc_bound(p, hi - 1, (n - 1) as nat);
        } else {
            lemma_ranks_desc_bound(p, hi - 1, n);
        }
    }
}

proof fn lemma_bit_or(m: u16, k: u16, q: u16)
    requires
        k < 16,
        q < 16,
    ensures
        bit_set(m | (1u16 << k), q as int) == (bit_set(m, q as int) || q == k),
{
    assert(((m | (1u16 << k)) >> q) & 1u16 == 1u16 <==> (((m >> q) & 1u16 == 1u16) || q == k))
        by (bit_vector)
        requires
            k < 16,
            q < 16,
    ;
}

proof fn lemma_bit_zero(q: u16)
    requires
        q < 16,
    ensures
        !bit_set(0u16, q as int),
{
    assert((0u16 >> q) & 1u16 != 1u16) by (bit_vector);
}

/// The ranks, highest first, up to `n` of them, whose count is `c`.
fn scan_count(rc: &[u8; 13], Ghost(cs): Ghost<Seq<u8>>, c: u8, n: usize) -> (out: Vec<u8>)
    requires
        forall|r: int| 0 <= r < 13 ==> rc@[r] == #[trigger] rank_count(cs, r),
    ensures
        out@ == ranks_desc(|r: int| rank_count(cs, r) == c, 12, n as nat),
{
    let ghost p = |r: int| rank_count(cs, r) == c;
    let mut out: Vec<u8> = Vec::new();
    let mut k: usize = 13;
    while k > 0 && out.len() < n
        invariant
            p == (|r: int| rank_count(cs, r) == c),
            k <= 13,
            out.len() <= n,
            forall|r: int| 0 <= r < 13 ==> rc@[r] == #[trigger] rank_count(cs, r),
            out@ + ranks_desc(p, k - 1, (n - out.len()) as nat) == ranks_desc(p, 12, n as nat),
        decreases k,
    {
        let r = k - 1;
        let ghost before = out@;
        let ghost m = (n - out.len()) as nat;
        if rc[r] == c {
            assert(p(r as int));
            out.push(r as u8);
            assert(before + ranks_desc(p, r as int, m) =~= out@ + ranks_desc(p, r - 1, (m - 1) as nat));
        }
        k -= 1;
    }
    assert(ranks_desc(p, k - 1, (n - out.len()) as nat) =~= Seq::<u8>::empty());
    assert(out@ =~= out@ + Seq::<u8>::empty());
    out
}

/// The ranks, highest first, up to `n` of them, that some card has, leaving
/// out `x` and `y`.
fn scan_present(rc: &[u8; 13], Ghost(cs): Ghost<Seq<u8>>, x: u8, y: u8, n: usize) -> (out: Vec<u8>)
    requires
        forall|r: int| 0 <= r < 13 ==> rc@[r] == #[trigger] rank_count(cs, r),
    ensures
        out@ == ranks_desc(|r: int| r != x && r != y && rank_count(cs, r) >= 1, 12, n as nat),
{
    let ghost p = |r: int| r != x && r != y && rank_count(cs, r) >= 1;
    let mut out: Vec<u8> = Vec::new();
    let mut k: usize = 13;
    while k > 0 && out.len() < n
        invariant
            p == (|r: int| r != x && r != y && rank_count(cs, r) >= 1),
            k <= 13,
            out.len() <= n,
            forall|r: int| 0 <= r < 13 ==> rc@[r] == #[trigger] rank_count(cs, r),
            out@ + ranks_desc(p, k - 1, (n - out.len()) as nat) == ranks_desc(p, 12, n as nat),
        decreases k,
    {
        let r = k - 1;
        let ghost before = out@;
        let ghost m = (n - out.len()) as nat;
        if r as u8 != x && r as u8 != y && rc[r] >= 1 {
            assert(p(r as int));
            out.push(r as u8);
            assert(before + ranks_desc(p, r as int, m) =~= out@ + ranks_desc(p, r - 1, (m - 1) as nat));
        }
        k -= 1;
    }
    assert(ranks_desc(p, k - 1, (n - out.len()) as nat) =~= Seq::<u8>::empty());
    assert(out@ =~= out@ + Seq::<u8>::empty());
    out
}

/// The ranks, highest first, up to `n` of them, held in suit `s`.
fn scan_suit(held: &[bool; 52], Ghost(cs): Ghost<Seq<u8>>, s: u8, n: usize) -> (out: Vec<u8>)
    requires
        s < 4,
        forall|c: int| 0 <= c < 52 ==> held@[c] == #[trigger] cs.contains(c as u8),
    ensures
        out@ == ranks_desc(|r: int| cs.contains((r * 4 + s) as u8), 12, n as nat),
{
    let ghost p = |r: int| cs.contains((r * 4 + s) as u8);
    let mut out: Vec<u8> = Vec::new();
    let mut k: usize = 13;
    while k > 0 && out.len() < n
        invariant
            p == (|r: int| cs.contains((r * 4 + s) as u8)),
            k <= 13,
            s < 4,
            out.len() <= n,
            forall|c: int| 0 <= c < 52 ==> held@[c] == #[trigger] cs.contains(c as u8),
            out@ + ranks_desc(p, k - 1, (n - out.len()) as nat) == ranks_desc(p, 12, n as nat),
        decreases k,
    {
        let r = k - 1;
        let ghost before = out@;
        let ghost m = (n - out.len()) as nat;
        let c = r * 4 + s as usize;
        assert(held@[c as int] == cs.contains(c as u8));
        if held[c] {
            assert(p(r as int));
            out.push(r as u8);
            assert(before + ranks_desc(p, r as int, m) =~= out@ + ranks_desc(p, r - 1, (m - 1) as nat));
        } else {
            assert(!p(r as int));
        }
        k -= 1;
    }
    assert(ranks_desc(p, k - 1, (n - out.len()) as nat) =~= Seq::<u8>::empty());
    assert(out@ =~= out@ + Seq::<u8>::empty());
    out
}


proof fn lemma_ranks_desc_ext(p1: spec_fn(int) -> bool, p2: spec_fn(int) -> bool, hi: int, n: nat)
    requires
        hi <= 12,
        forall|r: int| 0 <= r < 13 ==> #[trigger] p1(r) == p2(r),
    ensures
        ranks_desc(p1, hi, n) == ranks_desc(p2, hi, n),
    decreases hi + 1,
{
    if hi >= 0 && n > 0 {
        lemma_ranks_desc_ext(p1, p2, hi - 1, n);
        lemma_ranks_desc_ext(p1, p2, hi - 1, (n - 1) as nat);
    }
}

/// The mask of ranks that some card has.
fn rank_mask(rc: &[u8; 13], Ghost(cs): Ghost<Seq<u8>>) -> (m: u16)
    requires
        forall|r: int| 0 <= r < 13 ==> rc@[r] == #[trigger] rank_count(cs, r),
    ensures
        forall|r: int| 0 <= r < 13 ==> #[trigger] bit_set(m, r) == (rank_count(cs, r) >= 1),
{
    let mut m: u16 = 0;
    assert forall|q: int| 0 <= q < 13 implies !#[trigger] bit_set(m, q) by {
        lemma_bit_zero(q as u16);
    }
    let mut r: usize = 0;
    while r < 13
        invariant
            r <= 13,
            forall|q: int| 0 <= q < 13 ==> rc@[q] == #[trigger] rank_count(cs, q),
            forall|q: int| 0 <= q < 13 ==> #[trigger] bit_set(m, q) == (q < r && rank_count(cs, q) >= 1),
        decreases 13 - r,
    {
        if rc[r] >= 1 {
            let ghost old_m = m;
            m = m | (1u16 << (r as u16));
            assert forall|q: int| 0 <= q < 13 implies #[trigger] bit_set(m, q) == (q < r + 1 && rank_count(
                cs,
                q,
            ) >= 1) by {
                lemma_bit_or(old_m, r as u16, q as u16);
                assert(bit_set(old_m, q) == (q < r && rank_count(cs, q) >= 1));
            }
        }
        r += 1;
    }
    m
}

/// The mask of ranks held in suit `s`.
fn suit_mask(held: &[bool; 52], Ghost(cs): Ghost<Seq<u8>>, s: u8) -> (m: u16)
    requires
        s < 4,
        forall|c: int| 0 <= c < 52 ==> held@[c] == #[trigger] cs.contains(c as u8),
    ensures
        forall|r: int| 0 <= r < 13 ==> #[trigger] bit_set(m, r) == cs.contains((r * 4 + s) as u8),
{
    let mut m: u16 = 0;
    assert forall|q: int| 0 <= q < 13 implies !#[trigger] bit_set(m, q) by {
        lemma_bit_zero(q as u16);
    }
    let mut r: usize = 0;
    while r < 13
        invariant
            r <= 13,
            s < 4,
            forall|c: int| 0 <= c < 52 ==> held@[c] == #[trigger] cs.contains(c as u8),
            forall|q: int| 0 <= q < 13 ==> #[trigger] bit_set(m, q) == (q < r && cs.contains((q * 4 + s) as u8)),
        decreases 13 - r,
    {
        let c = r * 4 + s as usize;
        assert(held@[c as int] == cs.contains(c as u8));
        if held[c] {
            let ghost old_m = m;
            m = m | (1u16 << (r as u16));
            assert forall|q: int| 0 <= q < 13 implies #[trigger] bit_set(m, q) == (q < r + 1 && cs.contains(
                (q * 4 + s) as u8,
            )) by {
                lemma_bit_or(old_m, r as u16, q as u16);
                assert(bit_set(old_m, q) == (q < r && cs.contains((q * 4 + s) as u8)));
            }
        }
        r += 1;
    }
    m
}

fn kicker(q: &Vec<u8>, i: usize) -> (k: u8)
    ensures
        k as int == kick(q@, i as int),
{
    if i < q.len() {
        q[i]
    } else {
        0
    }
}

/// The value of the best five-card hand among five to seven cards; a better
/// hand has a larger value.
#[verifier::loop_isolation(false)]
pub fn evaluate(cards: &[u8]) -> (v: u64)
    requires
        5 <= cards@.len() <= 7,
        forall|i: int| 0 <= i < cards@.len() ==> cards@[i] < 52,
    ensures
        v as int == hand_value(cards@),
{
    let ghost cs = cards@;
    let mut rc: [u8; 13] = [0; 13];
    let mut sc: [u8; 4] = [0; 4];
    let mut held: [bool; 52] = [false; 52];
    proof {
        assert(cs.take(0) =~= Seq::<u8>::empty());
    }
    let mut i: usize = 0;
    while i < cards.len()
        invariant
            i <= cards@.len(),
            cs == cards@,
            cards@.len() <= 7,
            forall|j: int| 0 <= j < cards@.len() ==> cards@[j] < 52,
            forall|r: int| 0 <= r < 13 ==> rc@[r] == #[trigger] rank_count(cs.take(i as int), r),
            forall|t: int| 0 <= t < 4 ==> sc@[t] == #[trigger] suit_count(cs.take(i as int), t),
            forall|c: int| 0 <= c < 52 ==> held@[c] == #[trigger] cs.take(i as int).contains(c as u8),
            forall|r: int| 0 <= r < 13 ==> rc@[r] <= i,
            forall|t: int| 0 <= t < 4 ==> sc@[t] <= i,
        decreases cards@.len() - i,
    {
        let c = cards[i];
        let ghost pre = cs.take(i as int);
        proof {
            assert(cs.take(i + 1).drop_last() =~= pre);
            assert(cs.take(i + 1) =~= pre.push(c));
            crate::xiangqi::lemma_push_contains(pre, c);
        }
        let r = (c / 4) as usize;
        let t = (c % 4) as usize;
        rc[r] = rc[r] + 1;
        sc[t] = sc[t] + 1;
        held[c as usize] = true;
        i += 1;
        proof {
            assert(cs.take(i as int).drop_last() =~= pre);
            assert forall|q: int| 0 <= q < 13 implies rc@[q] == #[trigger] rank_count(cs.take(i as int), q) by {
                assert(rank_count(cs.take(i as int), q) == rank_count(pre, q) + if c / 4 == q {
                    1nat
                } else {
                    0nat
                });
            }
            assert forall|q: int| 0 <= q < 4 implies sc@[q] == #[trigger] suit_count(cs.take(i as int), q) by {
                assert(suit_count(cs.take(i as int), q) == suit_count(pre, q) + if c % 4 == q {
                    1nat
                } else {
                    0nat
                });
            }
            assert forall|q: int| 0 <= q < 52 implies held@[q] == #[trigger] cs.take(i as int).contains(
                q as u8,
            ) by {
                assert(cs.take(i as int).contains(q as u8) == (pre.contains(q as u8) || q as u8 == c));
            }
        }
    }
    proof {
        assert(cs.take(cs.len() as int) =~= cs);
    }
    // Straight flush.
    let mut s: u8 = 0;
    while s < 4
        invariant
            s <= 4,
            forall|t: int| 0 <= t < 4 ==> sc@[t] == #[trigger] suit_count(cs, t),
            forall|c: int| 0 <= c < 52 ==> held@[c] == #[trigger] cs.contains(c as u8),
            straight_flush(cs, 0) == straight_flush(cs, s as int),
        decreases 4 - s,
    {
        if sc[s as usize] >= 5 {
            let m = suit_mask(&held, Ghost(cs), s);
            let top = straight_high(m);
            proof {
                lemma_straight_ext(|r: int| bit_set(m, r), |r: int| cs.contains((r * 4 + s) as u8));
                lemma_straight_top_bound(|r: int| bit_set(m, r));
            }
            match top {
                Some(t) => {
                    return pack_rank(CAT_STRAIGHT_FLUSH, [t, 0, 0, 0, 0]);
                },
                None => {},
            }
        }
        s += 1;
    }
    // Four of a kind.
    let quads = scan_count(&rc, Ghost(cs), 4, 1);
    proof {
        lemma_ranks_desc_bound(|r: int| rank_count(cs, r) == 4, 12, 1);
    }
    if quads.len() > 0 {
        let q = quads[0];
        let k = scan_present(&rc, Ghost(cs), q, q, 1);
        proof {
            lemma_ranks_desc_ext(
                |r: int| r != q && r != q && rank_count(cs, r) >= 1,
                |r: int| r != q as int && rank_count(cs, r) >= 1,
                12,
                1,
            );
            lemma_ranks_desc_bound(|r: int| r != q as int && rank_count(cs, r) >= 1, 12, 1);
        }
        return pack_rank(CAT_QUADS, [q, kicker(&k, 0), 0, 0, 0]);
    }
    // Full house.
    let trips = scan_count(&rc, Ghost(cs), 3, 2);
    let pairs = scan_count(&rc, Ghost(cs), 2, 2);
    proof {
        lemma_ranks_desc_bound(|r: int| rank_count(cs, r) == 3, 12, 2);
        lemma_ranks_desc_bound(|r: int| rank_count(cs, r) == 2, 12, 2);
    }
    if trips.len() > 0 && (trips.len() > 1 || pairs.len() > 0) {
        let second = if trips.len() > 1 {
            trips[1]
        } else {
            pairs[0]
        };
        return pack_rank(CAT_FULL_HOUSE, [trips[0], second, 0, 0, 0]);
    }
    // Flush.
    let mut s: u8 = 0;
    while s < 4
        invariant
            s <= 4,
            forall|t: int| 0 <= t < 4 ==> sc@[t] == #[trigger] suit_count(cs, t),
            forall|c: int| 0 <= c < 52 ==> held@[c] == #[trigger] cs.contains(c as u8),
            flush_suit(cs, 0) == flush_suit(cs, s as int),
        decreases 4 - s,
    {
        if sc[s as usize] >= 5 {
            let top = scan_suit(&held, Ghost(cs), s, 5);
            proof {
                lemma_ranks_desc_bound(|r: int| cs.contains((r * 4 + s) as u8), 12, 5);
            }
            return pack_rank(
                CAT_FLUSH,
                [kicker(&top, 0), kicker(&top, 1), kicker(&top, 2), kicker(&top, 3), kicker(&top, 4)],
            );
        }
        s += 1;
    }
    // Straight.
    let rm = rank_mask(&rc, Ghost(cs));
    let st = straight_high(rm);
    proof {
        lemma_straight_ext(|r: int| bit_set(rm, r), |r: int| rank_count(cs, r) >= 1);
        lemma_straight_top_bound(|r: int| bit_set(rm, r));
    }
    match st {
        Some(t) => {
            return pack_rank(CAT_STRAIGHT, [t, 0, 0, 0, 0]);
        },
        None => {},
    }
    // Three of a kind.
    if trips.len() > 0 {
        let t = trips[0];
        let k = scan_present(&rc, Ghost(cs), t, t, 2);
        proof {
            lemma_ranks_desc_ext(
                |r: int| r != t && r != t && rank_count(cs, r) >= 1,
                |r: int| r != t as int && rank_count(cs, r) >= 1,
                12,
                2,
            );
            lemma_ranks_desc_bound(|r: int| r != t as int && rank_count(cs, r) >= 1, 12, 2);
        }
        return pack_rank(CAT_TRIPS, [t, kicker(&k, 0), kicker(&k, 1), 0, 0]);
    }
    // Two pair.
    if pairs.len() > 1 {
        let p0 = pairs[0];
        let p1 = pairs[1];
        let k = scan_present(&rc, Ghost(cs), p0, p1, 1);
        proof {
            lemma_ranks_desc_bound(|r: int| r != p0 && r != p1 && rank_count(cs, r) >= 1, 12, 1);
        }
        return pack_rank(CAT_TWO_PAIR, [p0, p1, kicker(&k, 0), 0, 0]);
    }
    // One pair.
    if pairs.len() > 0 {
        let p0 = pairs[0];
        let k = scan_present(&rc, Ghost(cs), p0, p0, 3);
        proof {
            lemma_ranks_desc_ext(
                |r: int| r != p0 && r != p0 && rank_count(cs, r) >= 1,
                |r: int| r != p0 as int && rank_count(cs, r) >= 1,
                12,
                3,
            );
            lemma_ranks_desc_bound(|r: int| r != p0 as int && rank_count(cs, r) >= 1, 12, 3);
        }
        return pack_rank(CAT_PAIR, [p0, kicker(&k, 0), kicker(&k, 1), kicker(&k, 2), 0]);
    }
    // High card.
    let top = scan_present(&rc, Ghost(cs), 13, 13, 5);
    proof {
        lemma_ranks_desc_ext(
            |r: int| r != 13u8 && r != 13u8 && rank_count(cs, r) >= 1,
            |r: int| rank_count(cs, r) >= 1,
            12,
            5,
        );
        lemma_ranks_desc_bound(|r: int| rank_count(cs, r) >= 1, 12, 5);
    }
    pack_rank(
        CAT_HIGH_CARD,
        [kicker(&top, 0), kicker(&top, 1), kicker(&top, 2), kicker(&top, 3), kicker(&top, 4)],
    )
}


// ---------------------------------------------------------------------------
// Dealing
// ---------------------------------------------------------------------------

/// One xorshift64 step.
pub open spec fn xorshift(s: u64) -> u64 {
    let a = s ^ (s << 13u64);
    let b = a ^ (a >> 7u64);
    b ^ (b << 17u64)
}

/// The deck after the Fisher-Yates passes for positions `i` down to 1,
/// drawing from the xorshift stream that continues from `s`.
pub open spec fn shuffled(deck: Seq<u8>, s: u64, i: int) -> Seq<u8>
    decreases i,
{
    if i < 1 {
        deck
    } else {
        let s2 = xorshift(s);
        let j = (s2 % ((i + 1) as u64)) as int;
        shuffled(deck.update(i, deck[j]).update(j, deck[i]), s2, i - 1)
    }
}

pub open spec fn fresh_deck() -> Seq<u8> {
    Seq::new(52, |i: int| i as u8)
}

/// The deck dealt from `seed` (a zero seed is replaced by a fixed one).
pub open spec fn dealt(seed: u64) -> Seq<u8> {
    shuffled(fresh_deck(), if seed == 0 { 0x9E3779B97F4A7C15u64 } else { seed }, 51)
}

/// Each of the 52 cards once.
pub open spec fn is_deck(d: Seq<u8>) -> bool {
    &&& d.len() == 52
    &&& forall|i: int| 0 <= i < 52 ==> #[trigger] d[i] < 52
    &&& forall|i: int, j: int| 0 <= i < j < 52 ==> d[i] != d[j]
}

/// A shuffled deck from a seed, by xorshift64 and Fisher-Yates.
pub fn deal_deck(seed: u64) -> (deck: [u8; 52])
    ensures
        deck@ == dealt(seed),
{
    let mut deck: [u8; 52] = [0u8; 52];
    let mut k: usize = 0;
    while k < 52
        invariant
            k <= 52,
            deck@.len() == 52,
            forall|j: int| 0 <= j < k ==> deck@[j] == j as u8,
        decreases 52 - k,
    {
        deck[k] = k as u8;
        k += 1;
    }
    proof {
        assert(deck@ =~= fresh_deck());
    }
    let mut s: u64 = if seed == 0 {
        0x9E3779B97F4A7C15
    } else {
        seed
    };
    let mut i: usize = 51;
    while i >= 1
        invariant
            i <= 51,
            deck@.len() == 52,
            shuffled(deck@, s, i as int) == dealt(seed),
        decreases i,
    {
        s = s ^ (s << 13u64);
        s = s ^ (s >> 7u64);
        s = s ^ (s << 17u64);
        let j = (s % (i as u64 + 1)) as usize;
        let a = deck[i];
        let b = deck[j];
        deck[i] = b;
        deck[j] = a;
        i -= 1;
    }
    deck
}

proof fn lemma_shuffled_is_deck(deck: Seq<u8>, s: u64, i: int)
    requires
        is_deck(deck),
        i <= 51,
    ensures
        is_deck(shuffled(deck, s, i)),
    decreases i,
{
    if i >= 1 {
        let s2 = xorshift(s);
        let j = (s2 % ((i + 1) as u64)) as int;
        let d2 = deck.update(i, deck[j]).update(j, deck[i]);
        assert forall|a: int, b: int| 0 <= a < b < 52 implies d2[a] != d2[b] by {
            let pa = if a == j { i } else if a == i { j } else { a };
            let pb = if b == j { i } else if b == i { j } else { b };
            assert(d2[a] == deck[pa]);
            assert(d2[b] == deck[pb]);
            if pa < pb {
                assert(deck[pa] != deck[pb]);
            } else {
                assert(deck[pb] != deck[pa]);
            }
        }
        lemma_shuffled_is_deck(d2, s2, i - 1);
    }
}

/// Whatever the seed, the dealt deck holds each of the 52 cards exactly once.
pub proof fn law_dealt_is_deck(seed: u64)
    ensures
        is_deck(dealt(seed)),
{
    assert forall|a: int, b: int| 0 <= a < b < 52 implies fresh_deck()[a] != fresh_deck()[b] by {
        assert(fresh_deck()[a] == a as u8);
        assert(fresh_deck()[b] == b as u8);
    }
    lemma_shuffled_is_deck(fresh_deck(), if seed == 0 { 0x9E3779B97F4A7C15u64 } else { seed }, 51);
}

/// `x` as `n` little-endian bytes.
pub open spec fn le_bytes(x: int, n: nat) -> Seq<u8>
    decreases n,
{
    if n == 0 {
        seq![]
    } else {
        seq![(x % 256) as u8] + le_bytes(x / 256, (n - 1) as nat)
    }
}

pub fn le_bytes_exec(x: u64, n: usize) -> (v: Vec<u8>)
    ensures
        v@ == le_bytes(x as int, n as nat),
{
    let mut v: Vec<u8> = Vec::new();
    let mut y = x;
    let mut k: usize = 0;
    while k < n
        invariant
            k <= n,
            v@ + le_bytes(y as int, (n - k) as nat) == le_bytes(x as int, n as nat),
        decreases n - k,
    {
        let ghost before = v@;
        v.push((y % 256) as u8);
        proof {
            assert(before + le_bytes(y as int, (n - k) as nat) =~= v@ + le_bytes(
                (y / 256) as int,
                (n - k - 1) as nat,
            ));
        }
        y = y / 256;
        k += 1;
    }
    proof {
        assert(v@ + le_bytes(y as int, 0) =~= v@);
    }
    v
}

/// The string writes for the members' names: each name's bytes, then `0xff`.
pub open spec fn name_writes(players: Seq<Seq<char>>) -> Seq<Seq<u8>>
    decreases players.len(),
{
    if players.len() == 0 {
        seq![]
    } else {
        name_writes(players.drop_last()) + seq![
            vstd::utf8::encode_utf8(players.last()),
            seq![0xffu8],
        ]
    }
}

/// What the hand seed hashes: `"poker"`, each member name, the hand number
/// and the salt, fed as `Hash` feeds strings and (little-endian) integers.
pub open spec fn seed_writes(players: Seq<Seq<char>>, hand_no: u32, salt: u64) -> Seq<Seq<u8>> {
    seq![vstd::utf8::encode_utf8("poker"@), seq![0xffu8]] + name_writes(players) + seq![
        le_bytes(hand_no as int, 4),
        le_bytes(salt as int, 8),
    ]
}

pub open spec fn hand_seed(players: Seq<Seq<char>>, hand_no: u32, salt: u64) -> u64 {
    DefaultHasher::spec_finish(seed_writes(players, hand_no, salt))
}

/// The seed of hand `hand_no`: `DefaultHasher` over the game's name, the
/// members, the hand number and the salt.
pub fn seed_for_hand(players: &Vec<String>, hand_no: u32, salt: u64) -> (r: u64)
    ensures
        r == hand_seed(players.deep_view(), hand_no, salt),
{
    let mut h = DefaultHasher::new();
    let ff: [u8; 1] = [0xffu8];
    proof {
        assert(ff@ =~= seq![0xffu8]);
    }
    h.write("poker".as_bytes());
    h.write(ff.as_slice());
    let ghost head = seq![vstd::utf8::encode_utf8("poker"@), seq![0xffu8]];
    assert(h@ =~= head);
    let mut k: usize = 0;
    while k < players.len()
        invariant
            k <= players.len(),
            ff@ == seq![0xffu8],
            h@ == head + name_writes(players.deep_view().take(k as int)),
        decreases players.len() - k,
    {
        let p = players[k].as_str();
        h.write(p.as_bytes());
        h.write(ff.as_slice());
        proof {
            let ps = players.deep_view().take(k + 1);
            assert(ps.drop_last() =~= players.deep_view().take(k as int));
            assert(ps.last() == players[k as int]@);
            assert(h@ =~= head + name_writes(ps));
        }
        k += 1;
    }
    proof {
        assert(players.deep_view().take(players.len() as int) =~= players.deep_view());
    }
    let hb = le_bytes_exec(hand_no as u64, 4);
    let sb = le_bytes_exec(salt, 8);
    h.write(hb.as_slice());
    h.write(sb.as_slice());
    proof {
        assert(h@ =~= seed_writes(players.deep_view(), hand_no, salt));
    }
    h.finish()
}

} // verus!
