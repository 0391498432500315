//! Five-card hand classification and best-of-seven evaluation.
//!
//! The mathematical model is built on `cnt_rank`, the number of cards of a
//! given rank value, collected into a 15-entry count table (`counts_of`),
//! plus the flush predicate.  Every classification fact (category, primary
//! and secondary values, kickers) is a function of that table, so the
//! evaluation of a hand depends only on which cards it holds, not on their
//! order.

use vstd::prelude::*;
use crate::cards::{Card, spec_rank_value, rank_value};

verus! {

/// Hand categories, weakest first; a later variant beats an earlier one.
#[derive(Debug, Clone, Copy, PartialEq, Eq, PartialOrd, Ord, Hash, Structural)]
pub enum HandRank {
    HighCard,
    OnePair,
    TwoPair,
    ThreeOfAKind,
    Straight,
    Flush,
    FullHouse,
    FourOfAKind,
    StraightFlush,
    RoyalFlush,
}

/// Numeric strength of a category, 1 for `HighCard` up to 10 for
/// `RoyalFlush`.
pub open spec fn category_value(r: HandRank) -> int {
    match r {
        HandRank::HighCard => 1,
        HandRank::OnePair => 2,
        HandRank::TwoPair => 3,
        HandRank::ThreeOfAKind => 4,
        HandRank::Straight => 5,
        HandRank::Flush => 6,
        HandRank::FullHouse => 7,
        HandRank::FourOfAKind => 8,
        HandRank::StraightFlush => 9,
        HandRank::RoyalFlush => 10,
    }
}

/// Numeric strength of a category; two categories compare as these values do.
pub fn hand_rank_strength(r: &HandRank) -> (v: u8)
    ensures
        v == category_value(*r),
{
    match r {
        HandRank::HighCard => 1,
        HandRank::OnePair => 2,
        HandRank::TwoPair => 3,
        HandRank::ThreeOfAKind => 4,
        HandRank::Straight => 5,
        HandRank::Flush => 6,
        HandRank::FullHouse => 7,
        HandRank::FourOfAKind => 8,
        HandRank::StraightFlush => 9,
        HandRank::RoyalFlush => 10,
    }
}

/// The full strength of one hand.  Hands compare by category, then primary
/// value, then secondary value, then the kickers lexicographically; the
/// derived orderings agree with that comparison.
#[derive(Debug, Clone, PartialEq, Eq, PartialOrd, Ord, Hash)]
pub struct HandEvaluation {
    pub rank: HandRank,
    pub primary_value: u8,
    pub secondary_value: u8,
    pub kickers: Vec<u8>,
}

/// Mathematical image of a `HandEvaluation`.
#[verifier::ext_equal]
pub struct EvalView {
    pub rank: HandRank,
    pub primary: u8,
    pub secondary: u8,
    pub kickers: Seq<u8>,
}

impl View for HandEvaluation {
    type V = EvalView;

    open spec fn view(&self) -> EvalView {
        EvalView {
            rank: self.rank,
            primary: self.primary_value,
            secondary: self.secondary_value,
            kickers: self.kickers@,
        }
    }
}

/// How many cards of rank value `v` the hand holds.
pub open spec fn cnt_rank(s: Seq<Card>, v: u8) -> nat
    decreases s.len(),
{
    if s.len() == 0 {
        0
    } else {
        cnt_rank(s.drop_last(), v) + if spec_rank_value(s.last().rank) == v {
            1nat
        } else {
            0nat
        }
    }
}

/// The 15-entry count table of a hand: entry `v` is the number of cards of
/// rank value `v` (entries 0 and 1 are always zero).
pub open spec fn counts_of(s: Seq<Card>) -> Seq<nat> {
    Seq::new(15, |v: int| cnt_rank(s, v as u8))
}

/// All cards share the first card's suit.
pub open spec fn is_flush(s: Seq<Card>) -> bool {
    forall|i: int| 0 <= i < s.len() ==> #[trigger] s[i].suit == s[0].suit
}

/// Five consecutive rank values ending at `h`, one card each.
pub open spec fn straight_at(c: Seq<nat>, h: int) -> bool {
    6 <= h <= 14 && forall|v: int| h - 4 <= v <= h ==> c[v] == 1
}

/// The wheel: Ace plus Two through Five, the only straight where the Ace
/// counts low.
pub open spec fn is_wheel(c: Seq<nat>) -> bool {
    c[14] == 1 && c[2] == 1 && c[3] == 1 && c[4] == 1 && c[5] == 1
}

/// The hand's ranks form a straight (including the wheel).
pub open spec fn is_straight_counts(c: Seq<nat>) -> bool {
    is_wheel(c) || exists|h: int| straight_at(c, h)
}

/// The highest rank value at or below `from` whose count is exactly `n`,
/// or 0 when there is none.
pub open spec fn top_with_cnt(c: Seq<nat>, n: nat, from: u8) -> u8
    decreases from,
{
    if from < 2 {
        0
    } else if c[from as int] == n {
        from
    } else {
        top_with_cnt(c, n, (from - 1) as u8)
    }
}

/// All rank values at or below `from` whose count is exactly `n`, in
/// descending order.
pub open spec fn desc_with_cnt(c: Seq<nat>, n: nat, from: u8) -> Seq<u8>
    decreases from,
{
    if from < 2 {
        Seq::empty()
    } else if c[from as int] == n {
        seq![from] + desc_with_cnt(c, n, (from - 1) as u8)
    } else {
        desc_with_cnt(c, n, (from - 1) as u8)
    }
}

/// Every rank value of the hand, with multiplicity, in descending order.
pub open spec fn desc_all(c: Seq<nat>, from: u8) -> Seq<u8>
    decreases from,
{
    if from < 2 {
        Seq::empty()
    } else {
        Seq::new(c[from as int], |i: int| from) + desc_all(c, (from - 1) as u8)
    }
}

/// The highest rank value present at or below `from`, or 0 for an empty hand.
pub open spec fn high_rank(c: Seq<nat>, from: u8) -> u8
    decreases from,
{
    if from < 2 {
        0
    } else if c[from as int] > 0 {
        from
    } else {
        high_rank(c, (from - 1) as u8)
    }
}

/// The category of a five-card hand with count table `c` and flush flag
/// `flush`.  The order of the cases mirrors the classification priority:
/// straight flushes, then the rank-frequency patterns, then plain flush,
/// straight and high card.
pub open spec fn category_from(c: Seq<nat>, flush: bool) -> HandRank {
    let straight = is_straight_counts(c);
    if flush && straight && high_rank(c, 14) == 14 {
        HandRank::RoyalFlush
    } else if flush && straight {
        HandRank::StraightFlush
    } else if top_with_cnt(c, 4, 14) != 0 {
        HandRank::FourOfAKind
    } else if top_with_cnt(c, 3, 14) != 0 && top_with_cnt(c, 2, 14) != 0 {
        HandRank::FullHouse
    } else if top_with_cnt(c, 3, 14) != 0 {
        HandRank::ThreeOfAKind
    } else if desc_with_cnt(c, 2, 14).len() >= 2 {
        HandRank::TwoPair
    } else if desc_with_cnt(c, 2, 14).len() == 1 {
        HandRank::OnePair
    } else if flush {
        HandRank::Flush
    } else if is_straight_counts(c) {
        HandRank::Straight
    } else {
        HandRank::HighCard
    }
}

/// The deciding rank value of the hand: the quad, trip or top pair rank for
/// frequency hands, otherwise the highest card.
pub open spec fn primary_from(c: Seq<nat>, flush: bool) -> u8 {
    match category_from(c, flush) {
        HandRank::RoyalFlush => 14,
        HandRank::StraightFlush => high_rank(c, 14),
        HandRank::FourOfAKind => top_with_cnt(c, 4, 14),
        HandRank::FullHouse => top_with_cnt(c, 3, 14),
        HandRank::Flush => high_rank(c, 14),
        HandRank::Straight => high_rank(c, 14),
        HandRank::ThreeOfAKind => top_with_cnt(c, 3, 14),
        HandRank::TwoPair => top_with_cnt(c, 2, 14),
        HandRank::OnePair => top_with_cnt(c, 2, 14),
        HandRank::HighCard => high_rank(c, 14),
    }
}

/// The second deciding rank value: the pair of a full house, or the lower
/// pair of two pair; 0 everywhere else.
pub open spec fn secondary_from(c: Seq<nat>, flush: bool) -> u8 {
    match category_from(c, flush) {
        HandRank::FullHouse => top_with_cnt(c, 2, 14),
        HandRank::TwoPair => {
            let hi = top_with_cnt(c, 2, 14);
            if hi < 2 {
                0
            } else {
                top_with_cnt(c, 2, (hi - 1) as u8)
            }
        },
        _ => 0,
    }
}

/// The tie-breaking kickers of the hand, in descending order.
pub open spec fn kickers_from(c: Seq<nat>, flush: bool) -> Seq<u8> {
    match category_from(c, flush) {
        HandRank::FourOfAKind => seq![top_with_cnt(c, 1, 14)],
        HandRank::ThreeOfAKind => desc_with_cnt(c, 1, 14),
        HandRank::TwoPair => desc_with_cnt(c, 1, 14),
        HandRank::OnePair => desc_with_cnt(c, 1, 14),
        HandRank::Flush => {
            let all = desc_all(c, 14);
            if all.len() > 0 {
                all.drop_first()
            } else {
                Seq::empty()
            }
        },
        HandRank::HighCard => {
            let all = desc_all(c, 14);
            if all.len() > 0 {
                all.drop_first()
            } else {
                Seq::empty()
            }
        },
        _ => Seq::empty(),
    }
}

/// The full evaluation of a five-card hand, as a function of its count
/// table and flush flag alone.
pub open spec fn spec_eval5(s: Seq<Card>) -> EvalView {
    let c = counts_of(s);
    let f = is_flush(s);
    EvalView {
        rank: category_from(c, f),
        primary: primary_from(c, f),
        secondary: secondary_from(c, f),
        kickers: kickers_from(c, f),
    }
}

/// What the five-card classifier reports when handed anything but five
/// cards: the weakest possible value.
pub open spec fn degenerate_eval() -> EvalView {
    EvalView {
        rank: HandRank::HighCard,
        primary: 0,
        secondary: 0,
        kickers: seq![0u8, 0u8, 0u8, 0u8, 0u8],
    }
}

/// The nat image of an exec count table.
pub open spec fn counts_view(cs: Seq<u8>) -> Seq<nat> {
    cs.map_values(|x: u8| x as nat)
}

fn top_with_from(counts: &Vec<u8>, n: u8, from: u8) -> (r: u8)
    requires
        counts@.len() == 15,
        from <= 14,
    ensures
        r == top_with_cnt(counts_view(counts@), n as nat, from),
        r == 0 || 2 <= r <= from,
    decreases from,
{
    if from < 2 {
        0
    } else if counts[from as usize] == n {
        from
    } else {
        top_with_from(counts, n, from - 1)
    }
}

fn desc_with_from(counts: &Vec<u8>, n: u8, from: u8) -> (r: Vec<u8>)
    requires
        counts@.len() == 15,
        from <= 14,
    ensures
        r@ == desc_with_cnt(counts_view(counts@), n as nat, from),
    decreases from,
{
    if from < 2 {
        Vec::new()
    } else {
        let mut rest = desc_with_from(counts, n, from - 1);
        if counts[from as usize] == n {
            rest.insert(0, from);
            proof {
                assert(rest@ =~= seq![from] + desc_with_cnt(
                    counts_view(counts@), n as nat, (from - 1) as u8));
            }
        }
        rest
    }
}

fn desc_all_from(counts: &Vec<u8>, from: u8) -> (r: Vec<u8>)
    requires
        counts@.len() == 15,
        from <= 14,
    ensures
        r@ == desc_all(counts_view(counts@), from),
    decreases from,
{
    if from < 2 {
        Vec::new()
    } else {
        let reps = counts[from as usize];
        let mut r: Vec<u8> = Vec::new();
        let mut k: u8 = 0;
        while k < reps
            invariant
                k <= reps,
                r@ =~= Seq::new(k as nat, |i: int| from),
            decreases reps - k,
        {
            r.push(from);
            proof {
                assert(r@ =~= Seq::new((k + 1) as nat, |i: int| from));
            }
            k = k + 1;
        }
        let mut rest = desc_all_from(counts, from - 1);
        proof {
            assert(r@ =~= Seq::new(counts_view(counts@)[from as int], |i: int| from));
        }
        r.append(&mut rest);
        r
    }
}

fn high_from(counts: &Vec<u8>, from: u8) -> (r: u8)
    requires
        counts@.len() == 15,
        from <= 14,
    ensures
        r == high_rank(counts_view(counts@), from),
    decreases from,
{
    if from < 2 {
        0
    } else if counts[from as usize] > 0 {
        from
    } else {
        high_from(counts, from - 1)
    }
}

fn straight_from(counts: &Vec<u8>, h: u8) -> (r: bool)
    requires
        counts@.len() == 15,
        h <= 14,
    ensures
        r == exists|j: int| 6 <= j <= h && straight_at(counts_view(counts@), j),
    decreases h,
{
    if h < 6 {
        false
    } else if counts[h as usize] == 1 && counts[(h - 1) as usize] == 1
        && counts[(h - 2) as usize] == 1 && counts[(h - 3) as usize] == 1
        && counts[(h - 4) as usize] == 1 {
        proof {
            let c = counts_view(counts@);
            assert forall|v: int| h - 4 <= v <= h implies c[v] == 1 by {
                assert(v == h - 4 || v == h - 3 || v == h - 2 || v == h - 1 || v == h);
            }
            assert(straight_at(c, h as int));
        }
        true
    } else {
        let r = straight_from(counts, h - 1);
        proof {
            let c = counts_view(counts@);
            if !r {
                assert forall|j: int| 6 <= j <= h implies !straight_at(c, j) by {
                    if j == h {
                        assert(!(c[h as int] == 1 && c[h - 1] == 1 && c[h - 2] == 1
                            && c[h - 3] == 1 && c[h - 4] == 1));
                        if straight_at(c, j) {
                            assert(c[h as int] == 1 && c[h - 1] == 1 && c[h - 2] == 1
                                && c[h - 3] == 1 && c[h - 4] == 1);
                        }
                    }
                }
            }
        }
        r
    }
}

/// Classifies exactly five cards.  Anything but five cards is a degenerate
/// input and yields the weakest possible evaluation; the real callers make
/// that case unreachable.
pub fn evaluate_five_card_hand(cards: &[Card]) -> (r: HandEvaluation)
    ensures
        cards@.len() == 5 ==> r@ == spec_eval5(cards@),
        cards@.len() != 5 ==> r@ == degenerate_eval(),
{
    if cards.len() != 5 {
        let mut kickers: Vec<u8> = Vec::new();
        let mut k: usize = 0;
        while k < 5
            invariant
                k <= 5,
                kickers@ =~= Seq::new(k as nat, |i: int| 0u8),
            decreases 5 - k,
        {
            kickers.push(0);
            proof {
                assert(kickers@ =~= Seq::new((k + 1) as nat, |i: int| 0u8));
            }
            k = k + 1;
        }
        let r = HandEvaluation {
            rank: HandRank::HighCard,
            primary_value: 0,
            secondary_value: 0,
            kickers,
        };
        proof {
            assert(r@.kickers =~= degenerate_eval().kickers);
            assert(r@ =~= degenerate_eval());
        }
        return r;
    }

    // Count how many cards of each rank value the hand holds.
    let mut counts: Vec<u8> = Vec::new();
    let mut k: usize = 0;
    while k < 15
        invariant
            k <= 15,
            counts@.len() == k,
            forall|v: int| 0 <= v < k ==> counts@[v] == 0,
        decreases 15 - k,
    {
        counts.push(0);
        k = k + 1;
    }
    let mut i: usize = 0;
    while i < 5
        invariant
            i <= 5,
            cards@.len() == 5,
            counts@.len() == 15,
            forall|v: int| 0 <= v < 15 ==>
                counts@[v] as nat == cnt_rank(cards@.take(i as int), v as u8),
            forall|v: int| 0 <= v < 15 ==> counts@[v] <= i,
        decreases 5 - i,
    {
        let rv = rank_value(cards[i].rank);
        let cur = counts[rv as usize];
        counts.set(rv as usize, cur + 1);
        proof {
            assert(cards@.take(i + 1 as int) =~= cards@.take(i as int).push(cards@[i as int]));
            assert forall|v: int| 0 <= v < 15 implies
                counts@[v] as nat == cnt_rank(cards@.take(i + 1 as int), v as u8) by {
                let prev = cards@.take(i as int);
                let cur_seq = prev.push(cards@[i as int]);
                assert(cur_seq.drop_last() =~= prev);
                assert(cnt_rank(cur_seq, v as u8) == cnt_rank(prev, v as u8)
                    + if spec_rank_value(cards@[i as int].rank) == v as u8 { 1nat } else { 0nat });
            }
        }
        i = i + 1;
    }
    proof {
        assert(cards@.take(5) =~= cards@);
        assert(counts_view(counts@) =~= counts_of(cards@));
    }
    let ghost c = counts_of(cards@);

    // Flush: all five cards of one suit.
    let mut flush = true;
    let mut j: usize = 1;
    while j < 5
        invariant
            1 <= j <= 5,
            cards@.len() == 5,
            flush == (forall|t: int| 0 <= t < j ==> #[trigger] cards@[t].suit == cards@[0].suit),
        decreases 5 - j,
    {
        if cards[j].suit != cards[0].suit {
            flush = false;
        }
        j = j + 1;
    }
    proof {
        assert(flush == is_flush(cards@));
    }

    let wheel = counts[14] == 1 && counts[2] == 1 && counts[3] == 1 && counts[4] == 1
        && counts[5] == 1;
    let straight = wheel || straight_from(&counts, 14);
    proof {
        assert(straight == is_straight_counts(c));
    }
    let high = high_from(&counts, 14);
    let quad = top_with_from(&counts, 4, 14);
    let trip = top_with_from(&counts, 3, 14);
    let top_pair = top_with_from(&counts, 2, 14);

    if flush && straight && high == 14 {
        HandEvaluation {
            rank: HandRank::RoyalFlush,
            primary_value: 14,
            secondary_value: 0,
            kickers: Vec::new(),
        }
    } else if flush && straight {
        HandEvaluation {
            rank: HandRank::StraightFlush,
            primary_value: high,
            secondary_value: 0,
            kickers: Vec::new(),
        }
    } else if quad != 0 {
        let mut kickers: Vec<u8> = Vec::new();
        kickers.push(top_with_from(&counts, 1, 14));
        proof {
            assert(kickers@ =~= seq![top_with_cnt(c, 1, 14)]);
        }
        HandEvaluation {
            rank: HandRank::FourOfAKind,
            primary_value: quad,
            secondary_value: 0,
            kickers,
        }
    } else if trip != 0 && top_pair != 0 {
        HandEvaluation {
            rank: HandRank::FullHouse,
            primary_value: trip,
            secondary_value: top_pair,
            kickers: Vec::new(),
        }
    } else if trip != 0 {
        let kickers = desc_with_from(&counts, 1, 14);
        HandEvaluation {
            rank: HandRank::ThreeOfAKind,
            primary_value: trip,
            secondary_value: 0,
            kickers,
        }
    } else {
        let pairs = desc_with_from(&counts, 2, 14);
        if pairs.len() >= 2 {
            let second = if top_pair < 2 { 0 } else { top_with_from(&counts, 2, top_pair - 1) };
            let kickers = desc_with_from(&counts, 1, 14);
            HandEvaluation {
                rank: HandRank::TwoPair,
                primary_value: top_pair,
                secondary_value: second,
                kickers,
            }
        } else if pairs.len() == 1 {
            let kickers = desc_with_from(&counts, 1, 14);
            HandEvaluation {
                rank: HandRank::OnePair,
                primary_value: top_pair,
                secondary_value: 0,
                kickers,
            }
        } else if flush {
            let all = desc_all_from(&counts, 14);
            let kickers = tail_of(&all);
            HandEvaluation {
                rank: HandRank::Flush,
                primary_value: high,
                secondary_value: 0,
                kickers,
            }
        } else if straight {
            HandEvaluation {
                rank: HandRank::Straight,
                primary_value: high,
                secondary_value: 0,
                kickers: Vec::new(),
            }
        } else {
            let all = desc_all_from(&counts, 14);
            let kickers = tail_of(&all);
            HandEvaluation {
                rank: HandRank::HighCard,
                primary_value: high,
                secondary_value: 0,
                kickers,
            }
        }
    }
}

/// Everything but the first entry; the empty list stays empty.
fn tail_of(v: &Vec<u8>) -> (r: Vec<u8>)
    ensures
        r@ == if v@.len() > 0 { v@.drop_first() } else { Seq::<u8>::empty() },
{
    let mut r: Vec<u8> = Vec::new();
    if v.len() == 0 {
        return r;
    }
    let mut i: usize = 1;
    while i < v.len()
        invariant
            1 <= i <= v@.len(),
            r@ =~= v@.subrange(1, i as int),
        decreases v@.len() - i,
    {
        r.push(v[i]);
        proof {
            assert(r@ =~= v@.subrange(1, i + 1 as int));
        }
        i = i + 1;
    }
    proof {
        assert(r@ =~= v@.drop_first());
    }
    r
}

/// Lexicographic less-or-equal on kicker lists; a list that runs out first
/// is the smaller one, as the standard library orders vectors.
pub open spec fn kick_le(a: Seq<u8>, b: Seq<u8>) -> bool
    decreases a.len(),
{
    if a.len() == 0 {
        true
    } else if b.len() == 0 {
        false
    } else if a[0] < b[0] {
        true
    } else if a[0] > b[0] {
        false
    } else {
        kick_le(a.drop_first(), b.drop_first())
    }
}

/// The total order on hand strengths: category first, then primary value,
/// then secondary value, then the kickers lexicographically.
pub open spec fn eval_le(a: EvalView, b: EvalView) -> bool {
    let ca = category_value(a.rank);
    let cb = category_value(b.rank);
    if ca != cb {
        ca < cb
    } else if a.primary != b.primary {
        a.primary < b.primary
    } else if a.secondary != b.secondary {
        a.secondary < b.secondary
    } else {
        kick_le(a.kickers, b.kickers)
    }
}

pub proof fn lemma_kick_le_total(a: Seq<u8>, b: Seq<u8>)
    ensures
        kick_le(a, b) || kick_le(b, a),
        kick_le(a, b) && kick_le(b, a) ==> a =~= b,
    decreases a.len(),
{
    if a.len() == 0 || b.len() == 0 {
    } else if a[0] == b[0] {
        lemma_kick_le_total(a.drop_first(), b.drop_first());
        if kick_le(a, b) && kick_le(b, a) {
            assert(a =~= seq![a[0]] + a.drop_first());
            assert(b =~= seq![b[0]] + b.drop_first());
        }
    }
}

pub proof fn lemma_kick_le_trans(a: Seq<u8>, b: Seq<u8>, c: Seq<u8>)
    requires
        kick_le(a, b),
        kick_le(b, c),
    ensures
        kick_le(a, c),
    decreases a.len(),
{
    if a.len() == 0 || b.len() == 0 || c.len() == 0 {
    } else if a[0] == b[0] && b[0] == c[0] {
        lemma_kick_le_trans(a.drop_first(), b.drop_first(), c.drop_first());
    }
}

/// Two categories of equal strength value are the same category.
pub proof fn lemma_category_value_injective(a: HandRank, b: HandRank)
    ensures
        category_value(a) == category_value(b) ==> a == b,
{
}

/// `eval_le` is a total order: any two hands compare, two hands that each
/// weakly beat the other are equal, and the order is transitive.
pub proof fn lemma_eval_le_order(a: EvalView, b: EvalView, c: EvalView)
    ensures
        eval_le(a, b) || eval_le(b, a),
        eval_le(a, b) && eval_le(b, a) ==> a =~= b,
        eval_le(a, b) && eval_le(b, c) ==> eval_le(a, c),
{
    lemma_kick_le_total(a.kickers, b.kickers);
    lemma_category_value_injective(a.rank, b.rank);
    if eval_le(a, b) && eval_le(b, c) {
        lemma_category_value_injective(b.rank, c.rank);
        if category_value(a.rank) == category_value(b.rank)
            && category_value(b.rank) == category_value(c.rank)
            && a.primary == b.primary && b.primary == c.primary
            && a.secondary == b.secondary && b.secondary == c.secondary {
            lemma_kick_le_trans(a.kickers, b.kickers, c.kickers);
        }
    }
}

fn kickers_le_from(a: &Vec<u8>, b: &Vec<u8>, i: usize) -> (r: bool)
    requires
        i <= a@.len(),
        i <= b@.len(),
    ensures
        r == kick_le(a@.skip(i as int), b@.skip(i as int)),
    decreases a@.len() - i,
{
    proof {
        if i < a@.len() && i < b@.len() {
            assert(a@.skip(i as int)[0] == a@[i as int]);
            assert(b@.skip(i as int)[0] == b@[i as int]);
            assert(a@.skip(i as int).drop_first() =~= a@.skip(i + 1 as int));
            assert(b@.skip(i as int).drop_first() =~= b@.skip(i + 1 as int));
        }
    }
    if i == a.len() {
        true
    } else if i == b.len() {
        false
    } else if a[i] < b[i] {
        true
    } else if a[i] > b[i] {
        false
    } else {
        kickers_le_from(a, b, i + 1)
    }
}

/// Whether `a` is at most as strong as `b` under the hand-strength total
/// order.
pub fn eval_le_exec(a: &HandEvaluation, b: &HandEvaluation) -> (r: bool)
    ensures
        r == eval_le(a@, b@),
{
    let ca = hand_rank_strength(&a.rank);
    let cb = hand_rank_strength(&b.rank);
    if ca != cb {
        ca < cb
    } else if a.primary_value != b.primary_value {
        a.primary_value < b.primary_value
    } else if a.secondary_value != b.secondary_value {
        a.secondary_value < b.secondary_value
    } else {
        proof {
            assert(a.kickers@.skip(0) =~= a.kickers@);
            assert(b.kickers@.skip(0) =~= b.kickers@);
        }
        kickers_le_from(&a.kickers, &b.kickers, 0)
    }
}

/// `sub` can be read off `s` left to right, skipping cards.
pub open spec fn is_subseq(sub: Seq<Card>, s: Seq<Card>) -> bool
    decreases s.len(),
{
    if sub.len() == 0 {
        true
    } else if s.len() == 0 {
        false
    } else {
        (sub[0] == s[0] && is_subseq(sub.drop_first(), s.drop_first()))
            || is_subseq(sub, s.drop_first())
    }
}

/// Any prefix of a sequence is a subsequence of it.
pub proof fn lemma_take_subseq(s: Seq<Card>, k: int)
    requires
        0 <= k <= s.len(),
    ensures
        is_subseq(s.take(k), s),
    decreases s.len(),
{
    if k == 0 {
    } else {
        assert(s.take(k)[0] == s[0]);
        assert(s.take(k).drop_first() =~= s.drop_first().take(k - 1));
        lemma_take_subseq(s.drop_first(), k - 1);
    }
}

/// The number of ways to pick `k` items out of `n`, by Pascal's recurrence.
pub open spec fn n_choose_k(n: nat, k: nat) -> nat
    decreases n,
{
    if k == 0 {
        1
    } else if n == 0 {
        0
    } else {
        n_choose_k((n - 1) as nat, (k - 1) as nat) + n_choose_k((n - 1) as nat, k)
    }
}

/// A nonempty subsequence's first card appears in the sequence.
proof fn lemma_subseq_first_contained(sub: Seq<Card>, s: Seq<Card>)
    requires
        is_subseq(sub, s),
        sub.len() > 0,
    ensures
        exists|t: int| 0 <= t < s.len() && s[t] == sub[0],
    decreases s.len(),
{
    if sub[0] == s[0] && is_subseq(sub.drop_first(), s.drop_first()) {
        assert(s[0] == sub[0]);
    } else {
        lemma_subseq_first_contained(sub, s.drop_first());
        let t = choose|t: int| 0 <= t < s.drop_first().len() && s.drop_first()[t] == sub[0];
        assert(s[t + 1] == sub[0]);
    }
}

fn combos_from(cards: &Vec<Card>, start: usize, k: usize) -> (r: Vec<Vec<Card>>)
    requires
        start <= cards@.len(),
    ensures
        forall|i: int| 0 <= i < r@.len() ==>
            (#[trigger] r@[i])@.len() == k && is_subseq(r@[i]@, cards@.skip(start as int)),
        forall|sub: Seq<Card>|
            sub.len() == k && is_subseq(sub, cards@.skip(start as int))
                ==> exists|i: int| 0 <= i < r@.len() && (#[trigger] r@[i])@ == sub,
        r@.len() == n_choose_k((cards@.len() - start) as nat, k as nat),
        cards@.skip(start as int).no_duplicates() ==>
            forall|i: int, j: int| 0 <= i < j < r@.len()
                ==> (#[trigger] r@[i])@ != (#[trigger] r@[j])@,
    decreases cards@.len() - start,
{
    let ghost tail = cards@.skip(start as int);
    if k == 0 {
        let mut r: Vec<Vec<Card>> = Vec::new();
        r.push(Vec::new());
        proof {
            assert forall|sub: Seq<Card>|
                sub.len() == 0 && is_subseq(sub, tail)
                    implies exists|i: int| 0 <= i < r@.len() && (#[trigger] r@[i])@ == sub by {
                assert(sub =~= r@[0]@);
            }
        }
        return r;
    }
    if start == cards.len() {
        let r: Vec<Vec<Card>> = Vec::new();
        proof {
            assert(tail.len() == 0);
            assert forall|sub: Seq<Card>|
                sub.len() == k && is_subseq(sub, tail)
                    implies exists|i: int| 0 <= i < r@.len() && (#[trigger] r@[i])@ == sub by {
            }
        }
        return r;
    }
    proof {
        assert(tail.len() > 0);
        assert(tail[0] == cards@[start as int]);
        assert(tail.drop_first() =~= cards@.skip(start + 1 as int));
    }
    let first = cards[start];
    let with_first = combos_from(cards, start + 1, k - 1);
    let mut r: Vec<Vec<Card>> = Vec::new();
    let mut i: usize = 0;
    while i < with_first.len()
        invariant
            i <= with_first@.len(),
            r@.len() == i,
            first == cards@[start as int],
            start < cards@.len(),
            forall|t: int| 0 <= t < with_first@.len() ==>
                (#[trigger] with_first@[t])@.len() == (k - 1) as nat
                && is_subseq(with_first@[t]@, cards@.skip(start + 1 as int)),
            forall|t: int| 0 <= t < i ==>
                (#[trigger] r@[t])@ =~= seq![first] + with_first@[t]@,
        decreases with_first@.len() - i,
    {
        let inner = &with_first[i];
        let mut combo: Vec<Card> = Vec::new();
        combo.push(first);
        let mut j: usize = 0;
        while j < inner.len()
            invariant
                j <= inner@.len(),
                combo@ =~= seq![first] + inner@.take(j as int),
            decreases inner@.len() - j,
        {
            combo.push(inner[j]);
            proof {
                assert(combo@ =~= seq![first] + inner@.take(j + 1 as int));
            }
            j = j + 1;
        }
        proof {
            assert(inner@.take(inner@.len() as int) =~= inner@);
        }
        r.push(combo);
        i = i + 1;
    }
    let mut without = combos_from(cards, start + 1, k);
    let ghost r_mid = r@;
    let ghost without_snap = without@;
    r.append(&mut without);
    proof {
        assert(r@ =~= r_mid + without_snap);
        // Soundness: every stored combo is a k-card subsequence of the tail.
        assert forall|t: int| 0 <= t < r@.len() implies
            (#[trigger] r@[t])@.len() == k && is_subseq(r@[t]@, tail) by {
            if t < r_mid.len() {
                let sub = r@[t]@;
                assert(sub =~= seq![first] + with_first@[t]@);
                assert(sub[0] == tail[0]);
                assert(sub.drop_first() =~= with_first@[t]@);
                assert(is_subseq(sub.drop_first(), tail.drop_first()));
            } else {
                let sub = r@[t]@;
                assert(sub == without_snap[t - r_mid.len()]@);
                assert(is_subseq(sub, tail.drop_first()));
                assert(sub.len() == k > 0);
            }
        }
        // Completeness: every k-card subsequence of the tail is stored.
        assert forall|sub: Seq<Card>|
            sub.len() == k && is_subseq(sub, tail)
                implies exists|i0: int| 0 <= i0 < r@.len() && (#[trigger] r@[i0])@ == sub by {
            if sub[0] == tail[0] && is_subseq(sub.drop_first(), tail.drop_first()) {
                let rest = sub.drop_first();
                assert(rest.len() == (k - 1) as nat);
                assert(is_subseq(rest, cards@.skip(start + 1 as int)));
                let t = choose|t: int|
                    0 <= t < with_first@.len() && (#[trigger] with_first@[t])@ == rest;
                assert(r@[t]@ =~= seq![first] + rest);
                assert(sub =~= seq![sub[0]] + sub.drop_first());
                assert(r@[t]@ == sub);
            } else {
                assert(is_subseq(sub, tail.drop_first()));
                let t = choose|t: int|
                    0 <= t < without_snap.len() && (#[trigger] without_snap[t])@ == sub;
                assert(r@[t + r_mid.len()]@ == sub);
            }
        }
        // Count: Pascal's recurrence over picking or skipping the first card.
        assert(r@.len() == n_choose_k((cards@.len() - start) as nat, k as nat));
        // Exactly once, when the cards are all distinct.
        if tail.no_duplicates() {
            assert(tail.drop_first().no_duplicates()) by {
                assert forall|x: int, y: int|
                    0 <= x < tail.drop_first().len() && 0 <= y < tail.drop_first().len()
                    && x != y implies tail.drop_first()[x] != tail.drop_first()[y] by {
                    assert(tail.drop_first()[x] == tail[x + 1]);
                    assert(tail.drop_first()[y] == tail[y + 1]);
                }
            }
            assert forall|i0: int, j0: int| 0 <= i0 < j0 < r@.len()
                implies (#[trigger] r@[i0])@ != (#[trigger] r@[j0])@ by {
                if j0 < r_mid.len() {
                    // Both carry the first card; their tails differ.
                    if r@[i0]@ == r@[j0]@ {
                        assert(r@[i0]@.drop_first() =~= with_first@[i0]@);
                        assert(r@[j0]@.drop_first() =~= with_first@[j0]@);
                        assert(with_first@[i0]@ == with_first@[j0]@);
                        assert(false);
                    }
                } else if i0 >= r_mid.len() {
                    // Both skip the first card; distinct by the recursive call.
                    if r@[i0]@ == r@[j0]@ {
                        assert(without_snap[i0 - r_mid.len()]@
                            == without_snap[j0 - r_mid.len()]@);
                        assert(false);
                    }
                } else {
                    // One starts with the first card; the other lives in the
                    // remainder, which cannot hold that card again.
                    if r@[i0]@ == r@[j0]@ {
                        let sub = r@[j0]@;
                        assert(is_subseq(sub, tail.drop_first()));
                        assert(sub.len() == k > 0);
                        assert(sub[0] == r@[i0]@[0]);
                        assert(r@[i0]@ =~= seq![first] + with_first@[i0]@);
                        assert(sub[0] == first);
                        lemma_subseq_first_contained(sub, tail.drop_first());
                        let t = choose|t: int|
                            0 <= t < tail.drop_first().len() && tail.drop_first()[t] == sub[0];
                        assert(tail[t + 1] == tail[0]);
                        assert(false);
                    }
                }
            }
        }
    }
    r
}

/// Every way to pick `k` cards from `cards`, keeping their order: there are
/// exactly choose(n, k) of them, and with duplicate-free cards each appears
/// exactly once.
pub fn combinations(cards: &Vec<Card>, k: usize) -> (r: Vec<Vec<Card>>)
    ensures
        forall|i: int| 0 <= i < r@.len() ==>
            (#[trigger] r@[i])@.len() == k && is_subseq(r@[i]@, cards@),
        forall|sub: Seq<Card>|
            sub.len() == k && is_subseq(sub, cards@)
                ==> exists|i: int| 0 <= i < r@.len() && (#[trigger] r@[i])@ == sub,
        r@.len() == n_choose_k(cards@.len(), k as nat),
        cards@.no_duplicates() ==> forall|i: int, j: int| 0 <= i < j < r@.len()
            ==> (#[trigger] r@[i])@ != (#[trigger] r@[j])@,
{
    proof {
        assert(cards@.skip(0) =~= cards@);
    }
    combos_from(cards, 0, k)
}

/// `e` is the strength of the best five-card hand inside `all`: with
/// exactly five cards their own evaluation, with more the maximum over
/// every five-card subset under the hand-strength total order.
pub open spec fn is_best_eval(all: Seq<Card>, e: EvalView) -> bool {
    if all.len() == 5 {
        e == spec_eval5(all)
    } else {
        &&& (exists|sub: Seq<Card>|
            sub.len() == 5 && is_subseq(sub, all) && e == spec_eval5(sub))
        &&& (forall|sub: Seq<Card>|
            sub.len() == 5 && is_subseq(sub, all) ==> eval_le(spec_eval5(sub), e))
    }
}

/// The best evaluation of a hand is unique: two values that are both the
/// best of the same cards are equal.
pub proof fn lemma_best_eval_unique(all: Seq<Card>, e1: EvalView, e2: EvalView)
    requires
        is_best_eval(all, e1),
        is_best_eval(all, e2),
    ensures
        e1 == e2,
{
    if all.len() != 5 {
        let sub1 = choose|sub: Seq<Card>|
            sub.len() == 5 && is_subseq(sub, all) && e1 == spec_eval5(sub);
        let sub2 = choose|sub: Seq<Card>|
            sub.len() == 5 && is_subseq(sub, all) && e2 == spec_eval5(sub);
        assert(eval_le(e1, e2));
        assert(eval_le(e2, e1));
        lemma_eval_le_order(e1, e2, e2);
        assert(e1 =~= e2);
    }
}

/// Evaluates the best five-card hand that can be made from the hole cards
/// and the community cards together.  With exactly five cards they are
/// classified directly; with more, the result is the maximum over every
/// five-card subset under the hand-strength total order.
pub fn evaluate_hand(hole_cards: &[Card], community_cards: &[Card]) -> (r: HandEvaluation)
    requires
        hole_cards@.len() + community_cards@.len() >= 5,
    ensures
        is_best_eval(hole_cards@ + community_cards@, r@),
{
    let ghost all_spec = hole_cards@ + community_cards@;
    let mut all: Vec<Card> = Vec::new();
    let mut i: usize = 0;
    while i < hole_cards.len()
        invariant
            i <= hole_cards@.len(),
            all@ =~= hole_cards@.take(i as int),
        decreases hole_cards@.len() - i,
    {
        all.push(hole_cards[i]);
        proof {
            assert(all@ =~= hole_cards@.take(i + 1 as int));
        }
        i = i + 1;
    }
    proof {
        assert(all@ =~= hole_cards@);
    }
    let mut i: usize = 0;
    while i < community_cards.len()
        invariant
            i <= community_cards@.len(),
            all@ =~= hole_cards@ + community_cards@.take(i as int),
        decreases community_cards@.len() - i,
    {
        all.push(community_cards[i]);
        proof {
            assert(all@ =~= hole_cards@ + community_cards@.take(i + 1 as int));
        }
        i = i + 1;
    }
    proof {
        assert(all@ =~= all_spec);
    }
    if all.len() == 5 {
        return evaluate_five_card_hand(all.as_slice());
    }
    let combos = combinations(&all, 5);
    proof {
        lemma_take_subseq(all@, 5);
        assert(all@.take(5).len() == 5);
        assert(combos@.len() > 0);
    }
    let first_combo = &combos[0];
    let mut best = evaluate_five_card_hand(first_combo.as_slice());
    proof {
        lemma_eval_le_order(best@, best@, best@);
    }
    let mut i: usize = 1;
    while i < combos.len()
        invariant
            1 <= i <= combos@.len(),
            forall|t: int| 0 <= t < combos@.len() ==>
                (#[trigger] combos@[t])@.len() == 5 && is_subseq(combos@[t]@, all@),
            exists|t: int| 0 <= t < i && best@ == spec_eval5((#[trigger] combos@[t])@),
            forall|t: int| 0 <= t < i ==> eval_le(spec_eval5((#[trigger] combos@[t])@), best@),
        decreases combos@.len() - i,
    {
        let inner = &combos[i];
        let cand = evaluate_five_card_hand(inner.as_slice());
        if eval_le_exec(&best, &cand) && !eval_le_exec(&cand, &best) {
            proof {
                let old_best = best@;
                assert forall|t: int| 0 <= t < i implies
                    eval_le(spec_eval5((#[trigger] combos@[t])@), cand@) by {
                    lemma_eval_le_order(spec_eval5(combos@[t]@), old_best, cand@);
                }
                lemma_eval_le_order(cand@, cand@, cand@);
            }
            best = cand;
        } else {
            proof {
                lemma_eval_le_order(cand@, best@, best@);
                assert(eval_le(cand@, best@));
            }
        }
        i = i + 1;
    }
    proof {
        assert forall|sub: Seq<Card>|
            sub.len() == 5 && is_subseq(sub, all_spec)
                implies eval_le(spec_eval5(sub), best@) by {
            let t = choose|t: int| 0 <= t < combos@.len() && (#[trigger] combos@[t])@ == sub;
            assert(eval_le(spec_eval5(combos@[t]@), best@));
        }
    }
    best
}

/// The display name of a category.
pub open spec fn spec_hand_rank_name(rank: HandRank) -> Seq<char> {
    match rank {
        HandRank::HighCard => "High Card"@,
        HandRank::OnePair => "One Pair"@,
        HandRank::TwoPair => "Two Pair"@,
        HandRank::ThreeOfAKind => "Three of a Kind"@,
        HandRank::Straight => "Straight"@,
        HandRank::Flush => "Flush"@,
        HandRank::FullHouse => "Full House"@,
        HandRank::FourOfAKind => "Four of a Kind"@,
        HandRank::StraightFlush => "Straight Flush"@,
        HandRank::RoyalFlush => "Royal Flush"@,
    }
}

/// The display name of a category.
pub fn hand_rank_name(rank: &HandRank) -> (r: &'static str)
    ensures
        r@ == spec_hand_rank_name(*rank),
{
    match rank {
        HandRank::HighCard => "High Card",
        HandRank::OnePair => "One Pair",
        HandRank::TwoPair => "Two Pair",
        HandRank::ThreeOfAKind => "Three of a Kind",
        HandRank::Straight => "Straight",
        HandRank::Flush => "Flush",
        HandRank::FullHouse => "Full House",
        HandRank::FourOfAKind => "Four of a Kind",
        HandRank::StraightFlush => "Straight Flush",
        HandRank::RoyalFlush => "Royal Flush",
    }
}

} // verus!
