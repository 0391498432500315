//! The personality-driven AI decision policy.
//!
//! Probabilities and equity estimates are integers in per-mille (a trait of
//! 300 stands for 30%), so every decision rule is exact integer arithmetic.
//! All randomness is drawn up front as three per-mille values and handed to
//! a deterministic adjustment step, so the policy itself is a pure function
//! of its inputs.

use vstd::prelude::*;
use crate::betting::{BettingRound, PlayerAction, SeatView, WagerView, seat_view, wager_view,
    spec_call_amount, action_ok};
use crate::cards::Card;
use crate::player::{AIDifficulty, Player};
use crate::poker_rules::{EvalView, HandRank, evaluate_hand, is_best_eval, lemma_eval_le_order,
    spec_eval5};
use rand::Rng;

verus! {

/// Personality traits that shape the AI's decisions; every trait is a
/// per-mille weight between 0 (never) and 1000 (always).
#[derive(Debug, Clone, Copy, PartialEq, Eq, Structural)]
pub struct AIPersonality {
    pub difficulty: AIDifficulty,
    /// How readily a call turns into a raise.
    pub aggression: u32,
    /// How reluctantly a fold turns into a call; high means tight play.
    pub tightness: u32,
    /// How often a weak hand bluffs into an unopened pot.
    pub bluff_frequency: u32,
    /// How much table position sways the decision.
    pub position_awareness: u32,
}

impl Default for AIPersonality {
    fn default() -> (p: AIPersonality)
        ensures
            p == (AIPersonality {
                difficulty: AIDifficulty::Beginner,
                aggression: 300u32,
                tightness: 500u32,
                bluff_frequency: 100u32,
                position_awareness: 200u32,
            }),
    {
        AIPersonality {
            difficulty: AIDifficulty::Beginner,
            aggression: 300,
            tightness: 500,
            bluff_frequency: 100,
            position_awareness: 200,
        }
    }
}

impl AIPersonality {
    /// A cautious profile for the beginner tier.
    pub fn beginner() -> (p: AIPersonality)
        ensures
            p == (AIPersonality {
                difficulty: AIDifficulty::Beginner,
                aggression: 200u32,
                tightness: 700u32,
                bluff_frequency: 50u32,
                position_awareness: 100u32,
            }),
    {
        AIPersonality {
            difficulty: AIDifficulty::Beginner,
            aggression: 200,
            tightness: 700,
            bluff_frequency: 50,
            position_awareness: 100,
        }
    }

    /// A balanced profile for the intermediate tier.
    pub fn intermediate() -> (p: AIPersonality)
        ensures
            p == (AIPersonality {
                difficulty: AIDifficulty::Intermediate,
                aggression: 400u32,
                tightness: 500u32,
                bluff_frequency: 150u32,
                position_awareness: 600u32,
            }),
    {
        AIPersonality {
            difficulty: AIDifficulty::Intermediate,
            aggression: 400,
            tightness: 500,
            bluff_frequency: 150,
            position_awareness: 600,
        }
    }
}

/// A personality attached to an AI seat.
#[derive(Debug, Clone, Copy, PartialEq, Eq, Structural)]
pub struct AIPlayerComponent {
    pub personality: AIPersonality,
}

impl Default for AIPlayerComponent {
    fn default() -> (c: AIPlayerComponent)
        ensures
            c.personality == (AIPersonality {
                difficulty: AIDifficulty::Beginner,
                aggression: 200u32,
                tightness: 700u32,
                bluff_frequency: 50u32,
                position_awareness: 100u32,
            }),
    {
        AIPlayerComponent { personality: AIPersonality::beginner() }
    }
}

/// Coarse hand-strength buckets the policy reasons in.
#[derive(Debug, Clone, Copy, PartialEq, Eq, PartialOrd, Ord, Structural)]
pub enum HandStrength {
    Weak,
    Medium,
    Strong,
    VeryStrong,
}

/// The pre-flop bucket of two hole cards: pocket pairs by rank, otherwise
/// two face cards for a medium hand; anything else is weak.
pub open spec fn spec_preflop_strength(hole: Seq<Card>) -> HandStrength {
    if hole.len() != 2 {
        HandStrength::Weak
    } else {
        let r1 = crate::cards::spec_rank_value(hole[0].rank);
        let r2 = crate::cards::spec_rank_value(hole[1].rank);
        if r1 == r2 {
            if r1 >= 10 {
                HandStrength::Strong
            } else if r1 >= 7 {
                HandStrength::Medium
            } else {
                HandStrength::Weak
            }
        } else {
            let hi = if r1 >= r2 { r1 } else { r2 };
            let lo = if r1 >= r2 { r2 } else { r1 };
            if hi >= 12 && lo >= 10 {
                HandStrength::Medium
            } else {
                HandStrength::Weak
            }
        }
    }
}

/// The post-flop bucket of a full evaluation: a high pair or two pair is
/// medium, trips through flush strong, full house or better very strong.
pub open spec fn strength_of_eval(e: EvalView) -> HandStrength {
    match e.rank {
        HandRank::HighCard => HandStrength::Weak,
        HandRank::OnePair => if e.primary >= 10 {
            HandStrength::Medium
        } else {
            HandStrength::Weak
        },
        HandRank::TwoPair => HandStrength::Medium,
        HandRank::ThreeOfAKind => HandStrength::Strong,
        HandRank::Straight => HandStrength::Strong,
        HandRank::Flush => HandStrength::Strong,
        HandRank::FullHouse => HandStrength::VeryStrong,
        HandRank::FourOfAKind => HandStrength::VeryStrong,
        HandRank::StraightFlush => HandStrength::VeryStrong,
        HandRank::RoyalFlush => HandStrength::VeryStrong,
    }
}

/// `st` is the bucket of these cards: the pre-flop heuristic with fewer
/// than three community cards, the best five-card hand's bucket otherwise.
pub open spec fn strength_matches(hole: Seq<Card>, community: Seq<Card>, st: HandStrength) -> bool {
    if community.len() < 3 {
        st == spec_preflop_strength(hole)
    } else {
        exists|e: EvalView| is_best_eval(hole + community, e) && st == strength_of_eval(e)
    }
}

/// The hand-strength bucket only depends on the cards: two buckets that
/// both match the same cards are the same bucket.
pub proof fn lemma_strength_unique(hole: Seq<Card>, community: Seq<Card>, s1: HandStrength, s2: HandStrength)
    requires
        strength_matches(hole, community, s1),
        strength_matches(hole, community, s2),
    ensures
        s1 == s2,
{
    if community.len() >= 3 {
        let all = hole + community;
        let e1 = choose|e: EvalView| is_best_eval(all, e) && s1 == strength_of_eval(e);
        let e2 = choose|e: EvalView| is_best_eval(all, e) && s2 == strength_of_eval(e);
        if all.len() == 5 {
        } else {
            let sub1 = choose|sub: Seq<Card>|
                sub.len() == 5 && crate::poker_rules::is_subseq(sub, all) && e1 == spec_eval5(sub);
            let sub2 = choose|sub: Seq<Card>|
                sub.len() == 5 && crate::poker_rules::is_subseq(sub, all) && e2 == spec_eval5(sub);
            assert(crate::poker_rules::eval_le(e1, e2));
            assert(crate::poker_rules::eval_le(e2, e1));
            lemma_eval_le_order(e1, e2, e2);
            assert(e1 =~= e2);
        }
    }
}

/// The hand-strength bucket of a seat's cards.
pub fn evaluate_hand_strength(hole_cards: &[Card], community_cards: &[Card]) -> (st: HandStrength)
    requires
        community_cards@.len() >= 3 ==> hole_cards@.len() == 2,
    ensures
        strength_matches(hole_cards@, community_cards@, st),
{
    if community_cards.len() < 3 {
        return evaluate_preflop_strength(hole_cards);
    }
    let evaluation = evaluate_hand(hole_cards, community_cards);
    let primary = evaluation.primary_value;
    let st = match evaluation.rank {
        HandRank::HighCard => HandStrength::Weak,
        HandRank::OnePair => if primary >= 10 {
            HandStrength::Medium
        } else {
            HandStrength::Weak
        },
        HandRank::TwoPair => HandStrength::Medium,
        HandRank::ThreeOfAKind => HandStrength::Strong,
        HandRank::Straight => HandStrength::Strong,
        HandRank::Flush => HandStrength::Strong,
        HandRank::FullHouse => HandStrength::VeryStrong,
        HandRank::FourOfAKind => HandStrength::VeryStrong,
        HandRank::StraightFlush => HandStrength::VeryStrong,
        HandRank::RoyalFlush => HandStrength::VeryStrong,
    };
    proof {
        assert(st == strength_of_eval(evaluation@));
        assert(is_best_eval(hole_cards@ + community_cards@, evaluation@));
    }
    st
}

/// The pre-flop bucket of two hole cards.
pub fn evaluate_preflop_strength(hole_cards: &[Card]) -> (st: HandStrength)
    ensures
        st == spec_preflop_strength(hole_cards@),
{
    if hole_cards.len() != 2 {
        return HandStrength::Weak;
    }
    let r1 = crate::cards::rank_value(hole_cards[0].rank);
    let r2 = crate::cards::rank_value(hole_cards[1].rank);
    if r1 == r2 {
        if r1 >= 10 {
            HandStrength::Strong
        } else if r1 >= 7 {
            HandStrength::Medium
        } else {
            HandStrength::Weak
        }
    } else {
        let hi = if r1 >= r2 { r1 } else { r2 };
        let lo = if r1 >= r2 { r2 } else { r1 };
        if hi >= 12 && lo >= 10 {
            HandStrength::Medium
        } else {
            HandStrength::Weak
        }
    }
}

/// Pot odds in per-mille: the call amount over the pot after the call, or 0
/// when continuing is free.
pub open spec fn spec_pot_odds(p: SeatView, r: WagerView) -> u32 {
    let call = spec_call_amount(p.bet, r.current_bet);
    if call == 0 {
        0
    } else {
        ((call * 1000) / (r.pot + call)) as u32
    }
}

/// Pot odds of the current situation, in per-mille.
pub fn calculate_pot_odds(betting_round: &BettingRound, player: &Player) -> (odds: u32)
    ensures
        odds == spec_pot_odds(seat_view(*player), wager_view(*betting_round)),
        odds <= 1000,
{
    let call_amount = if betting_round.current_bet > player.current_bet {
        betting_round.current_bet - player.current_bet
    } else {
        0
    };
    if call_amount == 0 {
        return 0;
    }
    let call = call_amount as u64;
    let pot_after = betting_round.pot as u64 + call;
    let odds = (call * 1000) / pot_after;
    proof {
        assert((call as int) * 1000 / (pot_after as int) <= 1000) by (nonlinear_arith)
            requires 0 < call as int <= pot_after as int;
    }
    odds as u32
}

/// Estimated win probability in per-mille, from the strength bucket scaled
/// down as more opponents stay in the hand.
pub open spec fn spec_hand_equity(st: HandStrength, players_in_hand: int) -> u32 {
    let base: u32 = match st {
        HandStrength::Weak => 150,
        HandStrength::Medium => 350,
        HandStrength::Strong => 650,
        HandStrength::VeryStrong => 850,
    };
    let factor: u32 = if players_in_hand == 2 {
        100
    } else if players_in_hand == 3 {
        90
    } else if players_in_hand == 4 {
        80
    } else {
        70
    };
    (base * factor / 100) as u32
}

/// Estimated win probability in per-mille.
pub fn estimate_hand_equity(hand_strength: &HandStrength, players_in_hand: usize) -> (eq: u32)
    ensures
        eq == spec_hand_equity(*hand_strength, players_in_hand as int),
        eq <= 1000,
{
    let base: u32 = match hand_strength {
        HandStrength::Weak => 150,
        HandStrength::Medium => 350,
        HandStrength::Strong => 650,
        HandStrength::VeryStrong => 850,
    };
    let factor: u32 = if players_in_hand == 2 {
        100
    } else if players_in_hand == 3 {
        90
    } else if players_in_hand == 4 {
        80
    } else {
        70
    };
    base * factor / 100
}

/// The beginner tier: fold what cannot be afforded, check what is free,
/// raise very strong hands a bounded amount, and call only cheap bets.
pub open spec fn spec_beginner_decision(p: SeatView, r: WagerView, st: HandStrength) -> PlayerAction {
    let call = spec_call_amount(p.bet, r.current_bet);
    if call > p.chips {
        PlayerAction::Fold
    } else if call == 0 {
        PlayerAction::Check
    } else {
        match st {
            HandStrength::VeryStrong => {
                let raise = if r.min_raise <= p.chips / 4 { r.min_raise } else { (p.chips / 4) as u32 };
                if raise > 0 {
                    PlayerAction::Raise(raise)
                } else {
                    PlayerAction::Call
                }
            },
            HandStrength::Strong => if call <= p.chips / 6 {
                PlayerAction::Call
            } else {
                PlayerAction::Fold
            },
            HandStrength::Medium => if call <= p.chips / 10 {
                PlayerAction::Call
            } else {
                PlayerAction::Fold
            },
            HandStrength::Weak => if call <= r.min_raise / 2 {
                PlayerAction::Call
            } else {
                PlayerAction::Fold
            },
        }
    }
}

/// The beginner tier's decision.
pub fn beginner_decision(player: &Player, betting_round: &BettingRound, hand_strength: &HandStrength)
    -> (a: PlayerAction)
    ensures
        a == spec_beginner_decision(seat_view(*player), wager_view(*betting_round), *hand_strength),
{
    let call_amount = if betting_round.current_bet > player.current_bet {
        betting_round.current_bet - player.current_bet
    } else {
        0
    };
    if call_amount > player.chips {
        return PlayerAction::Fold;
    }
    if call_amount == 0 {
        return PlayerAction::Check;
    }
    match hand_strength {
        HandStrength::VeryStrong => {
            let cap = player.chips / 4;
            let raise_amount = if betting_round.min_raise <= cap { betting_round.min_raise } else { cap };
            if raise_amount > 0 {
                PlayerAction::Raise(raise_amount)
            } else {
                PlayerAction::Call
            }
        },
        HandStrength::Strong => {
            if call_amount <= player.chips / 6 {
                PlayerAction::Call
            } else {
                PlayerAction::Fold
            }
        },
        HandStrength::Medium => {
            if call_amount <= player.chips / 10 {
                PlayerAction::Call
            } else {
                PlayerAction::Fold
            }
        },
        HandStrength::Weak => {
            if call_amount <= betting_round.min_raise / 2 {
                PlayerAction::Call
            } else {
                PlayerAction::Fold
            }
        },
    }
}

/// The equity estimate scaled by position and opponent count: later
/// position and a short-handed table raise it, early position lowers it.
/// The unit is per-mille times ten thousand.
pub open spec fn spec_scaled_equity(st: HandStrength, players_in_hand: int, position: int) -> int {
    let position_factor: int = if position > players_in_hand / 2 { 120 } else { 90 };
    let player_factor: int = if players_in_hand <= 3 { 110 } else { 95 };
    spec_hand_equity(st, players_in_hand) * position_factor * player_factor
}

/// The intermediate tier: bets strong hands for value when checking is
/// free, otherwise weighs scaled equity against pot odds with a
/// bucket-specific margin.
pub open spec fn spec_intermediate_decision(
    p: SeatView,
    r: WagerView,
    st: HandStrength,
    pot_odds: u32,
    pers: AIPersonality,
    players_in_hand: int,
    position: int,
) -> PlayerAction {
    let call = spec_call_amount(p.bet, r.current_bet);
    if call > p.chips {
        PlayerAction::Fold
    } else if call == 0 {
        match st {
            HandStrength::VeryStrong | HandStrength::Strong => {
                let cap = (p.chips / 4) as u32;
                let bet = if r.min_raise * 2 <= cap { (r.min_raise * 2) as u32 } else { cap };
                if bet > 0 {
                    PlayerAction::Raise(bet)
                } else {
                    PlayerAction::Check
                }
            },
            _ => PlayerAction::Check,
        }
    } else {
        let scaled = spec_scaled_equity(st, players_in_hand, position);
        let req = pot_odds * 10000int;
        match st {
            HandStrength::VeryStrong => {
                let cap = (p.chips / 3) as u32;
                let raise = if r.pot / 2 <= cap { (r.pot / 2) as u32 } else { cap };
                if raise >= r.min_raise {
                    PlayerAction::Raise(raise)
                } else {
                    PlayerAction::Call
                }
            },
            HandStrength::Strong => {
                if 10 * scaled > 8 * req {
                    if pers.aggression > 400 && position > players_in_hand / 2 {
                        if r.min_raise <= p.chips / 4 {
                            PlayerAction::Raise(r.min_raise)
                        } else {
                            PlayerAction::Call
                        }
                    } else {
                        PlayerAction::Call
                    }
                } else {
                    PlayerAction::Fold
                }
            },
            HandStrength::Medium => {
                if 10 * scaled > 12 * req {
                    PlayerAction::Call
                } else {
                    PlayerAction::Fold
                }
            },
            HandStrength::Weak => {
                if 2 * scaled > 3 * req && call <= r.min_raise {
                    PlayerAction::Call
                } else {
                    PlayerAction::Fold
                }
            },
        }
    }
}

/// The intermediate tier's decision.  `pot_odds` is in per-mille, as
/// `calculate_pot_odds` reports it.
pub fn intermediate_decision(
    player: &Player,
    betting_round: &BettingRound,
    hand_strength: &HandStrength,
    pot_odds: u32,
    personality: &AIPersonality,
    players_in_hand: usize,
    position: usize,
) -> (a: PlayerAction)
    requires
        pot_odds <= 1000,
        betting_round.min_raise * 2 <= u32::MAX,
    ensures
        a == spec_intermediate_decision(
            seat_view(*player),
            wager_view(*betting_round),
            *hand_strength,
            pot_odds,
            *personality,
            players_in_hand as int,
            position as int,
        ),
{
    let call_amount = if betting_round.current_bet > player.current_bet {
        betting_round.current_bet - player.current_bet
    } else {
        0
    };
    if call_amount > player.chips {
        return PlayerAction::Fold;
    }
    if call_amount == 0 {
        return match hand_strength {
            HandStrength::VeryStrong | HandStrength::Strong => {
                let cap = player.chips / 4;
                let doubled = betting_round.min_raise * 2;
                let bet_amount = if doubled <= cap { doubled } else { cap };
                if bet_amount > 0 {
                    PlayerAction::Raise(bet_amount)
                } else {
                    PlayerAction::Check
                }
            },
            _ => PlayerAction::Check,
        };
    }

    let equity = estimate_hand_equity(hand_strength, players_in_hand);
    let position_factor: u64 = if position > players_in_hand / 2 { 120 } else { 90 };
    let player_factor: u64 = if players_in_hand <= 3 { 110 } else { 95 };
    let scaled: u64 = equity as u64 * position_factor * player_factor;
    let req: u64 = pot_odds as u64 * 10000;
    proof {
        assert(scaled == spec_scaled_equity(*hand_strength, players_in_hand as int, position as int));
    }

    match hand_strength {
        HandStrength::VeryStrong => {
            let cap = player.chips / 3;
            let half_pot = betting_round.pot / 2;
            let raise_amount = if half_pot <= cap { half_pot } else { cap };
            if raise_amount >= betting_round.min_raise {
                PlayerAction::Raise(raise_amount)
            } else {
                PlayerAction::Call
            }
        },
        HandStrength::Strong => {
            if 10 * scaled > 8 * req {
                if personality.aggression > 400 && position > players_in_hand / 2 {
                    if betting_round.min_raise <= player.chips / 4 {
                        PlayerAction::Raise(betting_round.min_raise)
                    } else {
                        PlayerAction::Call
                    }
                } else {
                    PlayerAction::Call
                }
            } else {
                PlayerAction::Fold
            }
        },
        HandStrength::Medium => {
            if 10 * scaled > 12 * req {
                PlayerAction::Call
            } else {
                PlayerAction::Fold
            }
        },
        HandStrength::Weak => {
            if 2 * scaled > 3 * req && call_amount <= betting_round.min_raise {
                PlayerAction::Call
            } else {
                PlayerAction::Fold
            }
        },
    }
}

/// The bounded random swerve applied after the base decision: with the
/// first draw under 100 (one time in ten), an aggressive profile may raise
/// instead of calling and a loose profile may call instead of folding;
/// independently, a weak hand facing no bet bluffs when the third draw
/// falls under the bluff frequency.
pub open spec fn spec_personality_adjust(
    base: PlayerAction,
    pers: AIPersonality,
    st: HandStrength,
    r: WagerView,
    d1: u32,
    d2: u32,
    d3: u32,
) -> PlayerAction {
    if d1 < 100 && base == PlayerAction::Call && pers.aggression > 500 && d2 < pers.aggression {
        PlayerAction::Raise(r.min_raise)
    } else if d1 < 100 && base == PlayerAction::Fold && pers.tightness < 300
        && d2 < 1000 - pers.tightness {
        PlayerAction::Call
    } else if st == HandStrength::Weak && d3 < pers.bluff_frequency && r.current_bet == 0 {
        PlayerAction::Raise(r.min_raise)
    } else {
        base
    }
}

/// Applies the personality swerve to a base decision, from three per-mille
/// random draws.
pub fn apply_personality_adjustments(
    base_action: PlayerAction,
    personality: &AIPersonality,
    hand_strength: &HandStrength,
    betting_round: &BettingRound,
    d1: u32,
    d2: u32,
    d3: u32,
) -> (a: PlayerAction)
    ensures
        a == spec_personality_adjust(
            base_action,
            *personality,
            *hand_strength,
            wager_view(*betting_round),
            d1,
            d2,
            d3,
        ),
{
    if d1 < 100 {
        match base_action {
            PlayerAction::Call => {
                if personality.aggression > 500 && d2 < personality.aggression {
                    return PlayerAction::Raise(betting_round.min_raise);
                }
            },
            PlayerAction::Fold => {
                if personality.tightness < 300 && d2 < 1000 - personality.tightness {
                    return PlayerAction::Call;
                }
            },
            _ => {},
        }
    }
    let is_weak = match hand_strength {
        HandStrength::Weak => true,
        _ => false,
    };
    if is_weak && d3 < personality.bluff_frequency && betting_round.current_bet == 0 {
        return PlayerAction::Raise(betting_round.min_raise);
    }
    base_action
}

/// The base decision of the configured difficulty tier, before the random
/// personality swerve.
pub open spec fn spec_base_decision(
    p: SeatView,
    r: WagerView,
    st: HandStrength,
    pot_odds: u32,
    pers: AIPersonality,
    players_in_hand: int,
    position: int,
) -> PlayerAction {
    match pers.difficulty {
        AIDifficulty::Beginner => spec_beginner_decision(p, r, st),
        AIDifficulty::Intermediate => spec_intermediate_decision(
            p, r, st, pot_odds, pers, players_in_hand, position),
    }
}

/// The whole deterministic policy: the bucket of the cards, the base
/// decision of the tier on the true pot odds, then the personality swerve
/// on the given draws.
pub open spec fn decision_holds(
    p: Player,
    r: BettingRound,
    community: Seq<Card>,
    pers: AIPersonality,
    players_in_hand: int,
    position: int,
    d1: u32,
    d2: u32,
    d3: u32,
    a: PlayerAction,
) -> bool {
    exists|st: HandStrength|
        #[trigger] strength_matches(p.hole_cards@, community, st)
        && a == spec_personality_adjust(
            spec_base_decision(
                seat_view(p),
                wager_view(r),
                st,
                spec_pot_odds(seat_view(p), wager_view(r)),
                pers,
                players_in_hand,
                position,
            ),
            pers,
            st,
            wager_view(r),
            d1,
            d2,
            d3,
        )
}

/// With the draws fixed, the policy is deterministic: two actions that both
/// satisfy the decision relation on the same inputs are the same action.
pub proof fn lemma_decide_deterministic(
    p: Player,
    r: BettingRound,
    community: Seq<Card>,
    pers: AIPersonality,
    players_in_hand: int,
    position: int,
    d1: u32,
    d2: u32,
    d3: u32,
    a1: PlayerAction,
    a2: PlayerAction,
)
    requires
        decision_holds(p, r, community, pers, players_in_hand, position, d1, d2, d3, a1),
        decision_holds(p, r, community, pers, players_in_hand, position, d1, d2, d3, a2),
    ensures
        a1 == a2,
{
    let st1 = choose|st: HandStrength|
        #[trigger] strength_matches(p.hole_cards@, community, st)
        && a1 == spec_personality_adjust(
            spec_base_decision(seat_view(p), wager_view(r), st,
                spec_pot_odds(seat_view(p), wager_view(r)), pers, players_in_hand, position),
            pers, st, wager_view(r), d1, d2, d3);
    let st2 = choose|st: HandStrength|
        #[trigger] strength_matches(p.hole_cards@, community, st)
        && a2 == spec_personality_adjust(
            spec_base_decision(seat_view(p), wager_view(r), st,
                spec_pot_odds(seat_view(p), wager_view(r)), pers, players_in_hand, position),
            pers, st, wager_view(r), d1, d2, d3);
    lemma_strength_unique(p.hole_cards@, community, st1, st2);
}

/// Under the table bounds, whatever the policy decides moves chips without
/// overflow: the seat's wealth and the grown pot fit, any raise is at least
/// one chip and at most the raise cap, and a raise the seat can cover never
/// falls below the seat's own street bet.
pub proof fn lemma_policy_action_ok(
    p: SeatView,
    r: WagerView,
    st: HandStrength,
    pot_odds: u32,
    pers: AIPersonality,
    n: int,
    pos: int,
    d1: u32,
    d2: u32,
    d3: u32,
)
    requires
        p.chips + p.bet <= u32::MAX,
        r.pot + p.chips <= u32::MAX,
        1 <= r.min_raise <= 0x1000_0000,
        r.current_bet <= 0x2000_0000,
        p.chips <= 0x1000_0000,
        r.pot <= 0x1000_0000,
        p.bet <= r.current_bet || p.chips == 0,
    ensures
        ({
            let a = spec_personality_adjust(
                spec_base_decision(p, r, st, pot_odds, pers, n, pos), pers, st, r, d1, d2, d3);
            &&& action_ok(p, a, r)
            &&& (a matches PlayerAction::Raise(x) ==> 1 <= x <= 0x1000_0000)
        }),
{
    let base = spec_base_decision(p, r, st, pot_odds, pers, n, pos);
    let a = spec_personality_adjust(base, pers, st, r, d1, d2, d3);
    assert(base matches PlayerAction::Raise(x) ==> 1 <= x <= 0x1000_0000) by {
        match pers.difficulty {
            AIDifficulty::Beginner => {},
            AIDifficulty::Intermediate => {},
        }
    }
    match a {
        PlayerAction::Raise(x) => {
            assert(1 <= x <= 0x1000_0000);
            assert(r.current_bet + x <= u32::MAX);
            if p.chips >= r.current_bet + x {
                if p.bet > r.current_bet + x {
                    assert(p.chips == 0);
                    assert(false);
                }
            }
        },
        _ => {},
    }
}

/// Relies on `rand::Rng::gen_range` on `rand::thread_rng`: the drawn value
/// lies in the half-open range 0 to 1000.
#[verifier::external_body]
fn random_permille() -> (r: u32)
    ensures
        r < 1000,
{
    rand::thread_rng().gen_range(0..1000u32)
}

/// One decision of the AI policy with the randomness injected as three
/// per-mille draws: deterministic and repeatable for fixed draws.
pub fn decide_with_draws(
    player: &Player,
    betting_round: &BettingRound,
    community_cards: &[Card],
    personality: &AIPersonality,
    players_in_hand: usize,
    position: usize,
    d1: u32,
    d2: u32,
    d3: u32,
) -> (a: PlayerAction)
    requires
        community_cards@.len() >= 3 ==> player.hole_cards@.len() == 2,
        betting_round.min_raise * 2 <= u32::MAX,
    ensures
        decision_holds(
            *player,
            *betting_round,
            community_cards@,
            *personality,
            players_in_hand as int,
            position as int,
            d1,
            d2,
            d3,
            a,
        ),
{
    let hand_strength = evaluate_hand_strength(player.hole_cards.as_slice(), community_cards);
    let pot_odds = calculate_pot_odds(betting_round, player);
    let base_action = match personality.difficulty {
        AIDifficulty::Beginner => beginner_decision(player, betting_round, &hand_strength),
        AIDifficulty::Intermediate => intermediate_decision(
            player,
            betting_round,
            &hand_strength,
            pot_odds,
            personality,
            players_in_hand,
            position,
        ),
    };
    apply_personality_adjustments(
        base_action,
        personality,
        &hand_strength,
        betting_round,
        d1,
        d2,
        d3,
    )
}

/// One decision of the AI policy with fresh random draws.
pub fn make_advanced_ai_decision(
    player: &Player,
    betting_round: &BettingRound,
    community_cards: &[Card],
    personality: &AIPersonality,
    players_in_hand: usize,
    position: usize,
) -> (a: PlayerAction)
    requires
        community_cards@.len() >= 3 ==> player.hole_cards@.len() == 2,
        betting_round.min_raise * 2 <= u32::MAX,
    ensures
        exists|d1: u32, d2: u32, d3: u32|
            d1 < 1000 && d2 < 1000 && d3 < 1000 && #[trigger] decision_holds(
                *player,
                *betting_round,
                community_cards@,
                *personality,
                players_in_hand as int,
                position as int,
                d1,
                d2,
                d3,
                a,
            ),
{
    let d1 = random_permille();
    let d2 = random_permille();
    let d3 = random_permille();
    decide_with_draws(
        player,
        betting_round,
        community_cards,
        personality,
        players_in_hand,
        position,
        d1,
        d2,
        d3,
    )
}

} // verus!
