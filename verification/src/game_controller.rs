//! The hand-phase controller: blinds, dealing, street advancement, showdown
//! and payout.
//!
//! Each call of `game_state_controller` advances the phase machine one step
//! when it is ready (a betting street advances only once its round reports
//! complete).  The controller owns the well-formedness of the whole table:
//! the deck, the dealt hole cards and the community cards always partition
//! the 52 distinct cards, and chips only ever move between the seats and
//! the pot.

use vstd::prelude::*;
use vstd::multiset::Multiset;
use crate::betting::{BettingRound, count_active, table_ok, total_chips,
    lemma_total_chips_element, lemma_total_chips_nonneg, lemma_total_chips_update};
use crate::cards::{Card, Deck, full_deck};
use crate::game_state::{GameData, GamePosition, GameState};
use crate::player::Player;
use crate::poker_rules::{HandEvaluation, EvalView, evaluate_hand, eval_le, eval_le_exec,
    is_best_eval, lemma_best_eval_unique, lemma_eval_le_order};


verus! {

/// The hole cards of every seat, as one multiset.
pub open spec fn holes_ms(players: Seq<Player>) -> Multiset<Card>
    decreases players.len(),
{
    if players.len() == 0 {
        Multiset::empty()
    } else {
        holes_ms(players.drop_last()).add(players.last().hole_cards@.to_multiset())
    }
}

/// With no hole cards dealt, the combined hole multiset is empty.
pub proof fn lemma_holes_ms_empty(players: Seq<Player>)
    requires
        forall|i: int| 0 <= i < players.len() ==>
            (#[trigger] players[i]).hole_cards@.len() == 0,
    ensures
        holes_ms(players) =~= Multiset::<Card>::empty(),
    decreases players.len(),
{
    broadcast use vstd::seq_lib::group_to_multiset_ensures;
    broadcast use vstd::multiset::group_multiset_axioms;

    if players.len() > 0 {
        lemma_holes_ms_empty(players.drop_last());
        assert(players.last().hole_cards@.to_multiset().len() == 0);
        vstd::multiset::lemma_multiset_empty_len(players.last().hole_cards@.to_multiset());
    }
}

/// Replacing one seat exchanges exactly that seat's hole cards in the
/// combined multiset.
pub proof fn lemma_holes_ms_update(players: Seq<Player>, i: int, p2: Player)
    requires
        0 <= i < players.len(),
    ensures
        holes_ms(players.update(i, p2)).add(players[i].hole_cards@.to_multiset())
            =~= holes_ms(players).add(p2.hole_cards@.to_multiset()),
    decreases players.len(),
{
    broadcast use vstd::multiset::group_multiset_axioms;

    let updated = players.update(i, p2);
    if i == players.len() - 1 {
        assert(updated.drop_last() =~= players.drop_last());
        assert(updated.last() == p2);
        assert(holes_ms(updated)
            == holes_ms(players.drop_last()).add(p2.hole_cards@.to_multiset()));
        assert(holes_ms(players)
            == holes_ms(players.drop_last()).add(players[i].hole_cards@.to_multiset()));
        let lhs = holes_ms(updated).add(players[i].hole_cards@.to_multiset());
        let rhs = holes_ms(players).add(p2.hole_cards@.to_multiset());
        assert forall|c: Card| lhs.count(c) == rhs.count(c) by {}
        assert(lhs =~= rhs);
    } else {
        assert(updated.drop_last() =~= players.drop_last().update(i, p2));
        assert(updated.last() == players.last());
        lemma_holes_ms_update(players.drop_last(), i, p2);
        assert(holes_ms(updated)
            == holes_ms(players.drop_last().update(i, p2)).add(
                players.last().hole_cards@.to_multiset()));
        assert(holes_ms(players)
            == holes_ms(players.drop_last()).add(players.last().hole_cards@.to_multiset()));
        assert(players.drop_last()[i] == players[i]);
        let lhs = holes_ms(updated).add(players[i].hole_cards@.to_multiset());
        let rhs = holes_ms(players).add(p2.hole_cards@.to_multiset());
        assert forall|c: Card| lhs.count(c) == rhs.count(c) by {
            assert(holes_ms(players.drop_last().update(i, p2)).add(
                players.drop_last()[i].hole_cards@.to_multiset()).count(c)
                == holes_ms(players.drop_last()).add(p2.hole_cards@.to_multiset()).count(c));
        }
        assert(lhs =~= rhs);
    }
}

/// The deck, the dealt hole cards and the community cards together are
/// exactly the 52 distinct cards of one deck.
pub open spec fn cards_partition(deck: Seq<Card>, players: Seq<Player>, community: Seq<Card>) -> bool {
    deck.to_multiset().add(holes_ms(players)).add(community.to_multiset())
        == full_deck().to_multiset()
}

/// Every seat holds exactly `k` hole cards.
pub open spec fn all_holes_len(players: Seq<Player>, k: int) -> bool {
    forall|i: int| 0 <= i < players.len() ==>
        (#[trigger] players[i]).hole_cards@.len() == k
}

/// A seat after paying `amount` into the pot as a blind, clamped to its
/// stack: the clamped amount leaves the stack and counts as the street bet.
pub open spec fn blinded(p: Player, amount: u32) -> Player {
    let paid: u32 = if amount <= p.chips { amount } else { p.chips };
    Player { chips: (p.chips - paid) as u32, current_bet: paid, ..p }
}

/// A seat after winning `amount` from the pot.
pub open spec fn paid_out(p: Player, amount: u32) -> Player {
    Player { chips: (p.chips + amount) as u32, ..p }
}

/// Posts the small and big blinds into the round's pot, clamped to the two
/// seats' stacks, and records them as those seats' street bets.
#[verifier::rlimit(60)]
pub fn post_blinds(players: &mut Vec<Player>, game_position: &GamePosition, betting_round: &mut BettingRound)
    requires
        game_position.wf(),
        game_position.total_players >= 2,
        old(players)@.len() == game_position.total_players,
        forall|i: int| 0 <= i < old(players)@.len() ==>
            (#[trigger] old(players)@[i]).current_bet == 0,
        total_chips(old(players)@) + old(betting_round).pot <= 0x1000_0000,
    ensures
        ({
            let sbp = (game_position.dealer_button + 1) % (game_position.total_players as int);
            let bbp = (game_position.dealer_button + 2) % (game_position.total_players as int);
            let after_sb = old(players)@.update(sbp, blinded(old(players)@[sbp],
                game_position.small_blind_amount));
            &&& final(players)@ == after_sb.update(bbp, blinded(after_sb[bbp],
                game_position.big_blind_amount))
            &&& final(betting_round).pot == old(betting_round).pot
                + blinded(old(players)@[sbp], game_position.small_blind_amount).current_bet
                + blinded(after_sb[bbp], game_position.big_blind_amount).current_bet
        }),
        final(betting_round).current_bet == old(betting_round).current_bet,
        final(betting_round).min_raise == old(betting_round).min_raise,
        final(betting_round).players_to_act@ == old(betting_round).players_to_act@,
        final(betting_round).betting_complete == old(betting_round).betting_complete,
        total_chips(final(players)@) + final(betting_round).pot
            == total_chips(old(players)@) + old(betting_round).pot,
{
    let n = game_position.total_players;
    let sbp = ((game_position.dealer_button + 1) % n) as usize;
    let bbp = ((game_position.dealer_button + 2) % n) as usize;

    let ghost before = players@;
    proof {
        lemma_total_chips_element(players@, sbp as int);
        lemma_total_chips_nonneg(players@);
    }
    let mut sb_seat = players.remove(sbp);
    let sb_amount = if game_position.small_blind_amount <= sb_seat.chips {
        game_position.small_blind_amount
    } else {
        sb_seat.chips
    };
    sb_seat.chips = sb_seat.chips - sb_amount;
    sb_seat.current_bet = sb_amount;
    betting_round.pot = betting_round.pot + sb_amount;
    players.insert(sbp, sb_seat);
    proof {
        assert(players@ =~= before.update(sbp as int, sb_seat));
        assert(sb_seat == blinded(before[sbp as int], game_position.small_blind_amount));
        lemma_total_chips_update(before, sbp as int, sb_seat);
    }

    let ghost mid = players@;
    proof {
        lemma_total_chips_element(players@, bbp as int);
        lemma_total_chips_nonneg(players@);
    }
    let mut bb_seat = players.remove(bbp);
    let bb_amount = if game_position.big_blind_amount <= bb_seat.chips {
        game_position.big_blind_amount
    } else {
        bb_seat.chips
    };
    bb_seat.chips = bb_seat.chips - bb_amount;
    bb_seat.current_bet = bb_amount;
    betting_round.pot = betting_round.pot + bb_amount;
    players.insert(bbp, bb_seat);
    proof {
        assert(players@ =~= mid.update(bbp as int, bb_seat));
        assert(bb_seat == blinded(mid[bbp as int], game_position.big_blind_amount));
        lemma_total_chips_update(mid, bbp as int, bb_seat);
    }
}

/// Ranks every live seat's best hand, pays the whole pot to the single
/// strongest one (the earliest seat on a tie), and moves the dealer button
/// on.  With nobody live the pot is not awarded; with one live seat that
/// seat wins without a showdown.
#[verifier::rlimit(60)]
pub fn determine_winner(players: &mut Vec<Player>, game_data: &mut GameData, game_position: &mut GamePosition)
    requires
        old(game_position).wf(),
        total_chips(old(players)@) + old(game_data).pot <= 0x1000_0000,
        count_active(old(players)@) >= 2 ==> {
            &&& old(game_data).community_cards@.len() == 5
            &&& all_holes_len(old(players)@, 2)
        },
    ensures
        final(game_position).dealer_button
            == (old(game_position).dealer_button + 1) % (old(game_position).total_players as int),
        final(game_position).total_players == old(game_position).total_players,
        final(game_position).small_blind_amount == old(game_position).small_blind_amount,
        final(game_position).big_blind_amount == old(game_position).big_blind_amount,
        final(game_data).community_cards@ == old(game_data).community_cards@,
        final(game_data).round_number == old(game_data).round_number,
        count_active(old(players)@) == 0 ==> {
            &&& final(players)@ == old(players)@
            &&& final(game_data).pot == old(game_data).pot
        },
        count_active(old(players)@) >= 1 ==> {
            &&& final(game_data).pot == 0
            &&& exists|w: int| {
                &&& 0 <= w < old(players)@.len()
                &&& !(#[trigger] old(players)@[w]).has_folded
                &&& final(players)@ == old(players)@.update(w, paid_out(old(players)@[w],
                    old(game_data).pot))
                &&& (count_active(old(players)@) >= 2 ==> forall|j: int, ej: EvalView, ew: EvalView| {
                    &&& 0 <= j < old(players)@.len()
                    &&& !old(players)@[j].has_folded
                    &&& #[trigger] is_best_eval(
                        old(players)@[j].hole_cards@ + old(game_data).community_cards@, ej)
                    &&& #[trigger] is_best_eval(
                        old(players)@[w].hole_cards@ + old(game_data).community_cards@, ew)
                } ==> eval_le(ej, ew))
            }
        },
        total_chips(final(players)@) + final(game_data).pot
            == total_chips(old(players)@) + old(game_data).pot,
{
    let ghost before = players@;
    let ghost community = game_data.community_cards@;

    // Count the live seats.
    let mut active: usize = 0;
    let mut i: usize = 0;
    while i < players.len()
        invariant
            i <= players@.len(),
            players@ == before,
            active == count_active(players@.take(i as int)),
            active <= i,
        decreases players@.len() - i,
    {
        proof {
            assert(players@.take(i + 1 as int).drop_last() =~= players@.take(i as int));
            assert(players@.take(i + 1 as int).last() == players@[i as int]);
        }
        if !players[i].has_folded {
            active = active + 1;
        }
        i = i + 1;
    }
    proof {
        assert(players@.take(players@.len() as int) =~= players@);
    }

    if active == 0 {
        game_position.advance_dealer_button();
        return;
    }

    // Find the winning seat: the single live one, or the first live seat
    // whose best hand no other live seat's best hand beats.
    let mut winner: usize = 0;
    let mut have_winner = false;
    let mut best_eval: Option<HandEvaluation> = None;
    let mut i: usize = 0;
    while i < players.len()
        invariant
            i <= players@.len(),
            players@ == before,
            game_data.community_cards@ == community,
            count_active(players@) == active,
            active >= 1,
            active >= 2 ==> community.len() == 5 && all_holes_len(players@, 2),
            have_winner ==> 0 <= winner < i && !players@[winner as int].has_folded,
            have_winner == exists|t: int| 0 <= t < i && !(#[trigger] players@[t]).has_folded,
            active >= 2 ==> (have_winner <==> best_eval is Some),
            active >= 2 && have_winner ==> (best_eval matches Some(b)
                && is_best_eval(players@[winner as int].hole_cards@ + community, b@)),
            active >= 2 ==> forall|j: int, ej: EvalView| {
                &&& 0 <= j < i
                &&& !players@[j].has_folded
                &&& #[trigger] is_best_eval(players@[j].hole_cards@ + community, ej)
            } ==> (best_eval matches Some(b) && eval_le(ej, b@)),
        decreases players@.len() - i,
    {
        if !players[i].has_folded {
            if active >= 2 {
                let ev = evaluate_hand(
                    players[i].hole_cards.as_slice(),
                    game_data.community_cards.as_slice(),
                );
                let replace = match &best_eval {
                    None => true,
                    Some(b) => eval_le_exec(b, &ev) && !eval_le_exec(&ev, b),
                };
                proof {
                    lemma_eval_le_order(ev@, ev@, ev@);
                }
                if replace {
                    proof {
                        if best_eval is Some {
                            let b = best_eval->Some_0;
                            assert forall|j: int, ej: EvalView|
                                0 <= j < i + 1 && !players@[j].has_folded
                                && #[trigger] is_best_eval(players@[j].hole_cards@ + community, ej)
                                implies eval_le(ej, ev@) by {
                                if j < i {
                                    lemma_eval_le_order(ej, b@, ev@);
                                } else {
                                    lemma_best_eval_unique(players@[j].hole_cards@ + community,
                                        ej, ev@);
                                }
                            }
                        } else {
                            assert forall|j: int, ej: EvalView|
                                0 <= j < i + 1 && !players@[j].has_folded
                                && #[trigger] is_best_eval(players@[j].hole_cards@ + community, ej)
                                implies eval_le(ej, ev@) by {
                                lemma_best_eval_unique(players@[j].hole_cards@ + community,
                                    ej, ev@);
                            }
                        }
                    }
                    winner = i;
                    have_winner = true;
                    best_eval = Some(ev);
                } else {
                    proof {
                        let b = best_eval->Some_0;
                        lemma_eval_le_order(ev@, b@, b@);
                        assert(eval_le(ev@, b@));
                        assert forall|j: int, ej: EvalView|
                            0 <= j < i + 1 && !players@[j].has_folded
                            && #[trigger] is_best_eval(players@[j].hole_cards@ + community, ej)
                            implies eval_le(ej, b@) by {
                            if j == i {
                                lemma_best_eval_unique(players@[j].hole_cards@ + community,
                                    ej, ev@);
                            }
                        }
                    }
                }
            } else {
                if !have_winner {
                    winner = i;
                    have_winner = true;
                }
            }
        }
        i = i + 1;
    }
    proof {
        if !have_winner {
            lemma_count_active_none(players@);
        }
        assert(have_winner);
    }

    // Transfer the pot to the winner.
    let pot = game_data.pot;
    proof {
        lemma_total_chips_element(players@, winner as int);
        lemma_total_chips_nonneg(players@);
    }
    let mut w_seat = players.remove(winner);
    w_seat.chips = w_seat.chips + pot;
    players.insert(winner, w_seat);
    game_data.pot = 0;
    proof {
        assert(players@ =~= before.update(winner as int, w_seat));
        assert(w_seat == paid_out(before[winner as int], pot));
        lemma_total_chips_update(before, winner as int, w_seat);
        let w = winner as int;
        assert(!before[w].has_folded);
        assert(players@ == before.update(w, paid_out(before[w], pot)));
        if active >= 2 {
            let b = best_eval->Some_0;
            assert forall|j: int, ej: EvalView, ew: EvalView| {
                &&& 0 <= j < before.len()
                &&& !before[j].has_folded
                &&& #[trigger] is_best_eval(before[j].hole_cards@ + community, ej)
                &&& #[trigger] is_best_eval(before[w].hole_cards@ + community, ew)
            } implies eval_le(ej, ew) by {
                lemma_best_eval_unique(before[w].hole_cards@ + community, ew, b@);
            }
        }
    }

    game_position.advance_dealer_button();
}

/// Two tables whose seats hold the same hole cards have the same combined
/// hole multiset.
pub proof fn lemma_holes_ms_congruence(p1: Seq<Player>, p2: Seq<Player>)
    requires
        p1.len() == p2.len(),
        forall|i: int| 0 <= i < p1.len() ==>
            (#[trigger] p1[i]).hole_cards@ == (#[trigger] p2[i]).hole_cards@,
    ensures
        holes_ms(p1) == holes_ms(p2),
    decreases p1.len(),
{
    if p1.len() > 0 {
        assert(p1.drop_last().len() == p2.drop_last().len());
        lemma_holes_ms_congruence(p1.drop_last(), p2.drop_last());
        assert(p1.last().hole_cards@ == p2.last().hole_cards@);
    }
}

/// The per-street part of a well-formed table: `k` community cards dealt,
/// two hole cards at every seat, the 52-card partition, and the betting
/// bounds.
pub open spec fn in_street_wf(
    deck: Deck,
    game_data: GameData,
    players: Seq<Player>,
    round: BettingRound,
    k: int,
) -> bool {
    &&& deck.cards@.len() == 52 - 2 * players.len() - k
    &&& game_data.community_cards@.len() == k
    &&& all_holes_len(players, 2)
    &&& cards_partition(deck.cards@, players, game_data.community_cards@)
    &&& table_ok(players, round)
}

/// A well-formed table in the given phase: a consistent seat and blind
/// configuration, the partition of the 52 cards through every in-hand
/// phase, and the chip bounds that keep all wagering inside `u32`.
pub open spec fn engine_wf(
    state: GameState,
    deck: Deck,
    game_data: GameData,
    game_position: GamePosition,
    players: Seq<Player>,
    round: BettingRound,
) -> bool {
    &&& game_position.wf()
    &&& 2 <= game_position.total_players <= 22
    &&& players.len() == game_position.total_players
    &&& (forall|i: int| 0 <= i < players.len() ==> (#[trigger] players[i]).id == i as u32)
    &&& 1 <= game_position.small_blind_amount <= 0x10_0000
    &&& game_position.big_blind_amount == game_position.small_blind_amount * 2
    &&& total_chips(players) + round.pot <= 0x1000_0000
    &&& 1 <= round.min_raise <= 0x1000_0000
    &&& match state {
        GameState::Setup => true,
        GameState::Dealing => {
            &&& deck.cards@.to_multiset() == full_deck().to_multiset()
            &&& game_data.community_cards@.len() == 0
            &&& all_holes_len(players, 0)
            &&& (forall|i: int| 0 <= i < players.len() ==>
                (#[trigger] players[i]).current_bet == 0 && !players[i].has_folded)
            &&& round.current_bet == game_position.small_blind_amount * 2
            &&& round.min_raise == game_position.small_blind_amount * 2
            &&& round.pot == 0
        },
        GameState::PreFlop => in_street_wf(deck, game_data, players, round, 0),
        GameState::Flop => in_street_wf(deck, game_data, players, round, 3),
        GameState::Turn => in_street_wf(deck, game_data, players, round, 4),
        GameState::River => in_street_wf(deck, game_data, players, round, 5),
        GameState::Showdown => {
            &&& game_data.pot == round.pot
            &&& all_holes_len(players, 2)
            &&& (count_active(players) >= 2 ==> game_data.community_cards@.len() == 5)
        },
        GameState::GameOver => true,
    }
}

/// The post-flop acting order as a sequence: every seat once, starting from
/// the small blind.
pub open spec fn postflop_order(pos: GamePosition) -> Seq<u32> {
    Seq::new(pos.total_players as nat,
        |i: int| ((pos.first_to_act(false) + i) % (pos.total_players as int)) as u32)
}

/// The seats of `order` that have not folded, in order.
pub open spec fn live_seats_in(order: Seq<u32>, players: Seq<Player>) -> Seq<u32>
    decreases order.len(),
{
    if order.len() == 0 {
        Seq::empty()
    } else {
        let rest = live_seats_in(order.drop_last(), players);
        if !players[order.last() as int].has_folded {
            rest.push(order.last())
        } else {
            rest
        }
    }
}

/// How many seats still hold chips.
pub open spec fn count_funded(players: Seq<Player>) -> nat
    decreases players.len(),
{
    if players.len() == 0 {
        0
    } else {
        count_funded(players.drop_last()) + if players.last().chips > 0 {
            1nat
        } else {
            0nat
        }
    }
}

/// Deals `cards_to_deal` community cards, clears every seat's street bet,
/// and starts a fresh betting round over the live seats in post-flop order
/// (small blind first).
#[verifier::rlimit(60)]
fn start_next_street(
    deck: &mut Deck,
    game_data: &mut GameData,
    game_position: &GamePosition,
    players: &mut Vec<Player>,
    betting_round: &mut BettingRound,
    cards_to_deal: usize,
)
    requires
        game_position.wf(),
        old(players)@.len() == game_position.total_players,
        old(deck).cards@.len() >= cards_to_deal,
        cards_partition(old(deck).cards@, old(players)@, old(game_data).community_cards@),
        1 <= old(betting_round).min_raise <= 0x1000_0000,
        total_chips(old(players)@) + old(betting_round).pot <= 0x1000_0000,
    ensures
        final(deck).cards@.len() == old(deck).cards@.len() - cards_to_deal,
        final(game_data).community_cards@.len()
            == old(game_data).community_cards@.len() + cards_to_deal,
        final(game_data).pot == old(game_data).pot,
        final(game_data).round_number == old(game_data).round_number,
        cards_partition(final(deck).cards@, final(players)@, final(game_data).community_cards@),
        final(players)@.len() == old(players)@.len(),
        forall|i: int| 0 <= i < final(players)@.len() ==> {
            &&& (#[trigger] final(players)@[i]).id == old(players)@[i].id
            &&& final(players)@[i].player_type == old(players)@[i].player_type
            &&& final(players)@[i].hole_cards@ == old(players)@[i].hole_cards@
            &&& final(players)@[i].chips == old(players)@[i].chips
            &&& final(players)@[i].has_folded == old(players)@[i].has_folded
            &&& final(players)@[i].current_bet == 0
        },
        final(betting_round).current_bet == 0,
        final(betting_round).min_raise == old(betting_round).min_raise,
        final(betting_round).pot == old(betting_round).pot,
        !final(betting_round).betting_complete,
        final(betting_round).players_to_act@
            == live_seats_in(postflop_order(*game_position), final(players)@),
        total_chips(final(players)@) + final(betting_round).pot
            == total_chips(old(players)@) + old(betting_round).pot,
        table_ok(final(players)@, *final(betting_round)),
{
    // Reveal the new community cards.
    let mut j: usize = 0;
    while j < cards_to_deal
        invariant
            j <= cards_to_deal,
            deck.cards@.len() == old(deck).cards@.len() - j,
            old(deck).cards@.len() >= cards_to_deal,
            game_data.community_cards@.len()
                == old(game_data).community_cards@.len() + j,
            game_data.pot == old(game_data).pot,
            game_data.round_number == old(game_data).round_number,
            players@ == old(players)@,
            cards_partition(deck.cards@, players@, game_data.community_cards@),
        decreases cards_to_deal - j,
    {
        broadcast use vstd::seq_lib::group_to_multiset_ensures;
        broadcast use vstd::multiset::group_multiset_axioms;

        let ghost deck0 = deck.cards@;
        let ghost comm0 = game_data.community_cards@;
        let card = match deck.deal() {
            Some(c) => c,
            None => vstd::pervasive::unreached(),
        };
        game_data.community_cards.push(card);
        proof {
            assert(deck0 =~= deck.cards@.push(card));
            assert(deck0.to_multiset() =~= deck.cards@.to_multiset().insert(card));
            assert(game_data.community_cards@.to_multiset()
                =~= comm0.to_multiset().insert(card));
            let h = holes_ms(players@);
            assert forall|c: Card|
                deck.cards@.to_multiset().add(h).add(
                    game_data.community_cards@.to_multiset()).count(c)
                == deck0.to_multiset().add(h).add(comm0.to_multiset()).count(c) by {}
            assert(deck.cards@.to_multiset().add(h).add(
                game_data.community_cards@.to_multiset())
                =~= deck0.to_multiset().add(h).add(comm0.to_multiset()));
        }
        j = j + 1;
    }

    // Street bets start from zero on the new street.
    let ghost mid = players@;
    let mut i: usize = 0;
    while i < players.len()
        invariant
            i <= players@.len(),
            players@.len() == mid.len(),
            forall|t: int| 0 <= t < players@.len() ==> {
                &&& (#[trigger] players@[t]).id == mid[t].id
                &&& players@[t].player_type == mid[t].player_type
                &&& players@[t].hole_cards@ == mid[t].hole_cards@
                &&& players@[t].chips == mid[t].chips
                &&& players@[t].has_folded == mid[t].has_folded
            },
            forall|t: int| 0 <= t < i ==> (#[trigger] players@[t]).current_bet == 0,
            forall|t: int| i <= t < players@.len() ==>
                (#[trigger] players@[t]).current_bet == mid[t].current_bet,
            total_chips(players@) == total_chips(mid),
            holes_ms(players@) == holes_ms(mid),
        decreases players@.len() - i,
    {
        let ghost snap = players@;
        let mut p = players.remove(i);
        p.current_bet = 0;
        players.insert(i, p);
        proof {
            assert(players@ =~= snap.update(i as int, p));
            lemma_total_chips_update(snap, i as int, p);
            lemma_holes_ms_congruence(players@, snap);
        }
        i = i + 1;
    }
    proof {
        lemma_holes_ms_congruence(players@, mid);
        assert(cards_partition(deck.cards@, players@, game_data.community_cards@));
    }

    // Queue the live seats in post-flop acting order.
    let order = game_position.get_betting_order(false);
    proof {
        assert(order@ =~= postflop_order(*game_position));
    }
    let mut queue: Vec<u32> = Vec::new();
    let mut i: usize = 0;
    while i < order.len()
        invariant
            i <= order@.len(),
            players@.len() == game_position.total_players,
            game_position.wf(),
            forall|t: int| 0 <= t < order@.len() ==> order@[t] < game_position.total_players,
            queue@ == live_seats_in(order@.take(i as int), players@),
        decreases order@.len() - i,
    {
        proof {
            assert(order@.take(i + 1 as int).drop_last() =~= order@.take(i as int));
            assert(order@.take(i + 1 as int).last() == order@[i as int]);
        }
        let seat = order[i];
        if !players[seat as usize].has_folded {
            queue.push(seat);
        }
        i = i + 1;
    }
    proof {
        assert(order@.take(order@.len() as int) =~= order@);
    }
    betting_round.reset_for_new_round(queue);
}

/// A table where every seat holds the same stack has that stack times the
/// seat count as its total.
proof fn lemma_total_chips_uniform(players: Seq<Player>, v: u32)
    requires
        forall|i: int| 0 <= i < players.len() ==> (#[trigger] players[i]).chips == v,
    ensures
        total_chips(players) == players.len() * v,
    decreases players.len(),
{
    if players.len() > 0 {
        lemma_total_chips_uniform(players.drop_last(), v);
        assert(players.len() * v == (players.len() - 1) * v + v) by (nonlinear_arith);
    }
}

/// How many seats have not folded.
fn count_actives(players: &Vec<Player>) -> (n: usize)
    ensures
        n == count_active(players@),
{
    let mut active: usize = 0;
    let mut i: usize = 0;
    while i < players.len()
        invariant
            i <= players@.len(),
            active == count_active(players@.take(i as int)),
            active <= i,
        decreases players@.len() - i,
    {
        proof {
            assert(players@.take(i + 1 as int).drop_last() =~= players@.take(i as int));
            assert(players@.take(i + 1 as int).last() == players@[i as int]);
        }
        if !players[i].has_folded {
            active = active + 1;
        }
        i = i + 1;
    }
    proof {
        assert(players@.take(players@.len() as int) =~= players@);
    }
    active
}

/// One step of the hand lifecycle, taken whenever the current phase is
/// ready: a betting street advances only once its betting round reports
/// complete, every other phase advances at once.  Real-time pacing is a
/// presentation concern: the embedding application decides when to call
/// this.
#[verifier::rlimit(100)]
pub fn game_state_controller(
    current_state: &mut GameState,
    deck: &mut Deck,
    game_data: &mut GameData,
    game_position: &mut GamePosition,
    players: &mut Vec<Player>,
    betting_round: &mut BettingRound,
)
    requires
        engine_wf(*old(current_state), *old(deck), *old(game_data), *old(game_position),
            old(players)@, *old(betting_round)),
    ensures
        engine_wf(*final(current_state), *final(deck), *final(game_data),
            *final(game_position), final(players)@, *final(betting_round)),
        final(players)@.len() == old(players)@.len(),
        forall|i: int| 0 <= i < final(players)@.len() ==> {
            &&& (#[trigger] final(players)@[i]).id == old(players)@[i].id
            &&& final(players)@[i].player_type == old(players)@[i].player_type
        },
        final(game_position).total_players == old(game_position).total_players,
        final(game_position).small_blind_amount == old(game_position).small_blind_amount,
        final(game_position).big_blind_amount == old(game_position).big_blind_amount,
        *old(current_state) != GameState::Showdown
            ==> final(game_position).dealer_button == old(game_position).dealer_button,
        (*old(current_state) != GameState::Setup && *old(current_state) != GameState::GameOver)
            ==> total_chips(final(players)@) + final(betting_round).pot
                == total_chips(old(players)@) + old(betting_round).pot,
        // Setup starts the next hand: every stack persists seat by seat,
        // every seat is cleared, the hand data is reset and counted, and
        // the pre-flop round is seeded with the big blind over all seats in
        // pre-flop acting order.
        *old(current_state) == GameState::Setup ==> {
            &&& forall|i: int| 0 <= i < final(players)@.len() ==> {
                &&& (#[trigger] final(players)@[i]).chips == old(players)@[i].chips
                &&& final(players)@[i].hole_cards@.len() == 0
                &&& final(players)@[i].current_bet == 0
                &&& !final(players)@[i].has_folded
            }
            &&& final(game_data).pot == 0
            &&& final(game_data).current_bet == 0
            &&& final(game_data).community_cards@.len() == 0
            &&& final(game_data).round_number == (if old(game_data).round_number < u32::MAX {
                old(game_data).round_number + 1
            } else {
                u32::MAX as int
            })
            &&& final(betting_round).current_bet
                == old(game_position).small_blind_amount * 2
            &&& final(betting_round).min_raise == old(game_position).small_blind_amount * 2
            &&& final(betting_round).pot == 0
            &&& !final(betting_round).betting_complete
            &&& final(betting_round).players_to_act@.len()
                == old(game_position).total_players
            &&& forall|i: int| 0 <= i < final(betting_round).players_to_act@.len() ==>
                (#[trigger] final(betting_round).players_to_act@[i])
                    == (old(game_position).first_to_act(true) + i)
                        % (old(game_position).total_players as int)
        },
        // The game ends only when at most one seat still holds chips; then
        // every seat restarts at the 1000-chip stake.  With two or more
        // funded seats nothing changes on the way back to Setup.
        *old(current_state) == GameState::GameOver ==> {
            &&& (count_funded(old(players)@) >= 2 ==> final(players)@ == old(players)@
                && *final(betting_round) == *old(betting_round))
            &&& (count_funded(old(players)@) <= 1 ==> forall|i: int|
                0 <= i < final(players)@.len() ==> {
                    &&& (#[trigger] final(players)@[i]).chips == 1000
                    &&& final(players)@[i].hole_cards@.len() == 0
                    &&& final(players)@[i].current_bet == 0
                    &&& !final(players)@[i].has_folded
                })
        },
        *old(current_state) == GameState::Setup ==> *final(current_state) == GameState::Dealing,
        *old(current_state) == GameState::Dealing
            ==> *final(current_state) == GameState::PreFlop,
        (*old(current_state) == GameState::PreFlop || *old(current_state) == GameState::Flop
            || *old(current_state) == GameState::Turn
            || *old(current_state) == GameState::River) ==> {
            if old(betting_round).betting_complete
                || old(betting_round).players_to_act@.len() == 0 {
                *final(current_state) == (if count_active(old(players)@) <= 1
                    || *old(current_state) == GameState::River {
                    GameState::Showdown
                } else {
                    match *old(current_state) {
                        GameState::PreFlop => GameState::Flop,
                        GameState::Flop => GameState::Turn,
                        GameState::Turn => GameState::River,
                        _ => GameState::Showdown,
                    }
                })
            } else {
                *final(current_state) == *old(current_state)
            }
        },
        *old(current_state) == GameState::Showdown
            ==> *final(current_state) == GameState::GameOver,
        *old(current_state) == GameState::GameOver
            ==> *final(current_state) == GameState::Setup,
        // Advancing to the flop, turn or river starts a fresh betting
        // round: no bet to match, the street open, and the live seats
        // queued in post-flop order (small blind first); the pot carries
        // forward and is mirrored into the hand data.
        ((*old(current_state) == GameState::PreFlop
            || *old(current_state) == GameState::Flop
            || *old(current_state) == GameState::Turn)
            && (old(betting_round).betting_complete
                || old(betting_round).players_to_act@.len() == 0)
            && count_active(old(players)@) >= 2) ==> {
            &&& final(betting_round).current_bet == 0
            &&& !final(betting_round).betting_complete
            &&& final(betting_round).min_raise == old(betting_round).min_raise
            &&& final(betting_round).pot == old(betting_round).pot
            &&& final(betting_round).players_to_act@
                == live_seats_in(postflop_order(*old(game_position)), final(players)@)
            &&& final(game_data).pot == old(betting_round).pot
        },
        // The showdown settles the pots: when anyone is still live the pot
        // is paid and both pot records are cleared; with nobody live
        // nothing is awarded.  The street queue is untouched and the button
        // moves on either way.
        *old(current_state) == GameState::Showdown ==> {
            &&& (count_active(old(players)@) >= 1 ==> final(game_data).pot == 0
                && final(betting_round).pot == 0)
            &&& (count_active(old(players)@) == 0 ==> final(players)@ == old(players)@
                && final(game_data).pot == old(game_data).pot
                && final(betting_round).pot == old(betting_round).pot)
            &&& final(betting_round).players_to_act@ == old(betting_round).players_to_act@
            &&& final(betting_round).current_bet == old(betting_round).current_bet
            &&& final(betting_round).min_raise == old(betting_round).min_raise
            &&& final(betting_round).betting_complete == old(betting_round).betting_complete
            &&& final(game_position).dealer_button == (old(game_position).dealer_button + 1)
                % (old(game_position).total_players as int)
        },
        // Dealing posts the two clamped blinds into the pot and hands every
        // seat exactly two cards.
        *old(current_state) == GameState::Dealing ==> ({
            let n = old(game_position).total_players as int;
            let sbp = (old(game_position).dealer_button + 1) % n;
            let bbp = (old(game_position).dealer_button + 2) % n;
            let after_sb = old(players)@.update(sbp, blinded(old(players)@[sbp],
                old(game_position).small_blind_amount));
            let after_bb = after_sb.update(bbp, blinded(after_sb[bbp],
                old(game_position).big_blind_amount));
            &&& final(betting_round).pot
                == blinded(old(players)@[sbp], old(game_position).small_blind_amount).current_bet
                + blinded(after_sb[bbp], old(game_position).big_blind_amount).current_bet
            &&& all_holes_len(final(players)@, 2)
            &&& forall|i: int| 0 <= i < final(players)@.len() ==> {
                &&& (#[trigger] final(players)@[i]).chips == after_bb[i].chips
                &&& final(players)@[i].current_bet == after_bb[i].current_bet
                &&& final(players)@[i].has_folded == after_bb[i].has_folded
            }
            &&& final(betting_round).players_to_act@ == old(betting_round).players_to_act@
            &&& final(betting_round).current_bet == old(betting_round).current_bet
            &&& final(betting_round).min_raise == old(betting_round).min_raise
            &&& final(game_data).current_bet == old(betting_round).current_bet
        }),
        // The showdown pays the whole pot to one live seat whose best hand
        // no other live seat's best hand beats.
        (*old(current_state) == GameState::Showdown && count_active(old(players)@) >= 1)
            ==> exists|w: int| {
            &&& 0 <= w < old(players)@.len()
            &&& !(#[trigger] old(players)@[w]).has_folded
            &&& final(players)@ == old(players)@.update(w, paid_out(old(players)@[w],
                old(game_data).pot))
            &&& (count_active(old(players)@) >= 2 ==> forall|j: int, ej: EvalView, ew: EvalView| {
                &&& 0 <= j < old(players)@.len()
                &&& !old(players)@[j].has_folded
                &&& #[trigger] is_best_eval(
                    old(players)@[j].hole_cards@ + old(game_data).community_cards@, ej)
                &&& #[trigger] is_best_eval(
                    old(players)@[w].hole_cards@ + old(game_data).community_cards@, ew)
            } ==> eval_le(ej, ew))
        },
{
    broadcast use vstd::seq_lib::group_to_multiset_ensures;
    broadcast use vstd::multiset::group_multiset_axioms;

    let state = *current_state;
    match state {
        GameState::Setup => {
            // Fresh deck, fresh hand data, every seat cleared, and the
            // pre-flop betting round seeded with the big blind.
            deck.reset();
            game_data.new_round();
            let ghost before = players@;
            let mut i: usize = 0;
            while i < players.len()
                invariant
                    i <= players@.len(),
                    players@.len() == before.len(),
                    forall|t: int| 0 <= t < players@.len() ==> {
                        &&& (#[trigger] players@[t]).id == before[t].id
                        &&& players@[t].player_type == before[t].player_type
                        &&& players@[t].chips == before[t].chips
                    },
                    forall|t: int| 0 <= t < i ==> {
                        &&& (#[trigger] players@[t]).hole_cards@.len() == 0
                        &&& players@[t].current_bet == 0
                        &&& !players@[t].has_folded
                    },
                    total_chips(players@) == total_chips(before),
                decreases players@.len() - i,
            {
                let ghost snap = players@;
                let mut p = players.remove(i);
                p.reset_for_new_hand();
                players.insert(i, p);
                proof {
                    assert(players@ =~= snap.update(i as int, p));
                    lemma_total_chips_update(snap, i as int, p);
                }
                i = i + 1;
            }
            let order = game_position.get_betting_order(true);
            *betting_round = BettingRound::new(order, game_position.small_blind_amount);
            *current_state = GameState::Dealing;
        },
        GameState::Dealing => {
            // Blinds first, then two hole cards to every seat.
            post_blinds(players, game_position, betting_round);
            let ghost after_blinds = players@;
            proof {
                assert forall|t: int| 0 <= t < players@.len() implies
                    (#[trigger] players@[t]).hole_cards@.len() == 0 by {
                    assert(players@[t].hole_cards@ == old(players)@[t].hole_cards@);
                }
                lemma_holes_ms_empty(players@);
                vstd::multiset::lemma_multiset_empty_len(
                    game_data.community_cards@.to_multiset());
                let d = deck.cards@.to_multiset();
                let h = holes_ms(players@);
                let cm = game_data.community_cards@.to_multiset();
                assert forall|c: Card| d.add(h).add(cm).count(c) == d.count(c) by {}
                assert(d.add(h).add(cm) =~= d);
                assert(cards_partition(deck.cards@, players@, game_data.community_cards@));
                assert(deck.cards@.to_multiset().len() == full_deck().to_multiset().len());
                assert(full_deck().to_multiset().len() == 52);
                assert(deck.cards@.len() == 52);
            }
            let n = players.len();
            let mut i: usize = 0;
            while i < n
                invariant
                    i <= n,
                    n == players@.len(),
                    n == after_blinds.len(),
                    2 <= n <= 22,
                    deck.cards@.len() == 52 - 2 * i,
                    game_data.community_cards@.len() == 0,
                    cards_partition(deck.cards@, players@, game_data.community_cards@),
                    forall|t: int| 0 <= t < i ==>
                        (#[trigger] players@[t]).hole_cards@.len() == 2,
                    forall|t: int| i <= t < n ==>
                        (#[trigger] players@[t]).hole_cards@.len() == 0,
                    forall|t: int| 0 <= t < n ==> {
                        &&& (#[trigger] players@[t]).id == after_blinds[t].id
                        &&& players@[t].player_type == after_blinds[t].player_type
                        &&& players@[t].chips == after_blinds[t].chips
                        &&& players@[t].current_bet == after_blinds[t].current_bet
                        &&& players@[t].has_folded == after_blinds[t].has_folded
                    },
                    total_chips(players@) == total_chips(after_blinds),
                decreases n - i,
            {
                let ghost snap = players@;
                let ghost deck0 = deck.cards@;
                let c1 = match deck.deal() {
                    Some(c) => c,
                    None => vstd::pervasive::unreached(),
                };
                let ghost deck1 = deck.cards@;
                let c2 = match deck.deal() {
                    Some(c) => c,
                    None => vstd::pervasive::unreached(),
                };
                let mut p = players.remove(i);
                p.add_card(c1);
                p.add_card(c2);
                players.insert(i, p);
                proof {
                    broadcast use vstd::seq_lib::group_to_multiset_ensures;
                    broadcast use vstd::multiset::group_multiset_axioms;

                    assert(players@ =~= snap.update(i as int, p));
                    lemma_total_chips_update(snap, i as int, p);
                    lemma_holes_ms_update(snap, i as int, p);
                    assert(deck0 =~= deck1.push(c1));
                    assert(deck1 =~= deck.cards@.push(c2));
                    assert(deck.cards@.push(c2).to_multiset()
                        =~= deck.cards@.to_multiset().insert(c2));
                    assert(deck1.to_multiset() =~= deck.cards@.to_multiset().insert(c2));
                    assert(deck1.push(c1).to_multiset() =~= deck1.to_multiset().insert(c1));
                    assert(deck0.to_multiset()
                        =~= deck.cards@.to_multiset().insert(c2).insert(c1));
                    let hole0 = snap[i as int].hole_cards@;
                    assert(p.hole_cards@ =~= hole0.push(c1).push(c2));
                    assert(hole0.push(c1).to_multiset() =~= hole0.to_multiset().insert(c1));
                    assert(hole0.push(c1).push(c2).to_multiset()
                        =~= hole0.push(c1).to_multiset().insert(c2));
                    assert(p.hole_cards@.to_multiset()
                        =~= hole0.to_multiset().insert(c1).insert(c2));
                    let h0 = holes_ms(snap);
                    let h1 = holes_ms(players@);
                    let comm = game_data.community_cards@.to_multiset();
                    assert forall|c: Card|
                        deck.cards@.to_multiset().add(h1).add(comm).count(c)
                            == deck0.to_multiset().add(h0).add(comm).count(c) by {
                        assert(h1.add(snap[i as int].hole_cards@.to_multiset()).count(c)
                            == h0.add(p.hole_cards@.to_multiset()).count(c));
                    }
                    assert(deck.cards@.to_multiset().add(h1).add(comm)
                        =~= deck0.to_multiset().add(h0).add(comm));
                }
                i = i + 1;
            }
            // The big blind is the bet to match going into the pre-flop
            // street; mirror it for display.
            game_data.current_bet = betting_round.current_bet;
            *current_state = GameState::PreFlop;
        },
        GameState::PreFlop => {
            if betting_round.is_complete() {
                game_data.pot = betting_round.pot;
                let active = count_actives(players);
                if active <= 1 {
                    *current_state = GameState::Showdown;
                } else {
                    start_next_street(deck, game_data, game_position, players,
                        betting_round, 3);
                    *current_state = GameState::Flop;
                }
            }
        },
        GameState::Flop => {
            if betting_round.is_complete() {
                game_data.pot = betting_round.pot;
                let active = count_actives(players);
                if active <= 1 {
                    *current_state = GameState::Showdown;
                } else {
                    start_next_street(deck, game_data, game_position, players,
                        betting_round, 1);
                    *current_state = GameState::Turn;
                }
            }
        },
        GameState::Turn => {
            if betting_round.is_complete() {
                game_data.pot = betting_round.pot;
                let active = count_actives(players);
                if active <= 1 {
                    *current_state = GameState::Showdown;
                } else {
                    start_next_street(deck, game_data, game_position, players,
                        betting_round, 1);
                    *current_state = GameState::River;
                }
            }
        },
        GameState::River => {
            if betting_round.is_complete() {
                game_data.pot = betting_round.pot;
                *current_state = GameState::Showdown;
            }
        },
        GameState::Showdown => {
            let active = count_actives(players);
            determine_winner(players, game_data, game_position);
            if active >= 1 {
                betting_round.pot = 0;
            }
            *current_state = GameState::GameOver;
        },
        GameState::GameOver => {
            let mut with_chips: usize = 0;
            let mut i: usize = 0;
            while i < players.len()
                invariant
                    i <= players@.len(),
                    with_chips == count_funded(players@.take(i as int)),
                    with_chips <= i,
                decreases players@.len() - i,
            {
                proof {
                    assert(players@.take(i + 1 as int).drop_last() =~= players@.take(i as int));
                    assert(players@.take(i + 1 as int).last() == players@[i as int]);
                }
                if players[i].chips > 0 {
                    with_chips = with_chips + 1;
                }
                i = i + 1;
            }
            proof {
                assert(players@.take(players@.len() as int) =~= players@);
            }
            if with_chips <= 1 {
                // The game is over: restart every seat at the starting
                // stake for a new game.
                let ghost before = players@;
                let mut i: usize = 0;
                while i < players.len()
                    invariant
                        i <= players@.len(),
                        players@.len() == before.len(),
                        forall|t: int| 0 <= t < players@.len() ==> {
                            &&& (#[trigger] players@[t]).id == before[t].id
                            &&& players@[t].player_type == before[t].player_type
                        },
                        forall|t: int| 0 <= t < i ==> {
                            &&& (#[trigger] players@[t]).chips == 1000
                            &&& players@[t].hole_cards@.len() == 0
                            &&& players@[t].current_bet == 0
                            &&& !players@[t].has_folded
                        },
                    decreases players@.len() - i,
                {
                    let mut p = players.remove(i);
                    p.reset_for_new_hand();
                    p.chips = 1000;
                    players.insert(i, p);
                    proof {
                        assert(players@[i as int] == p);
                    }
                    i = i + 1;
                }
                *betting_round = BettingRound::default();
                proof {
                    lemma_total_chips_uniform(players@, 1000);
                    assert(total_chips(players@) == players@.len() * 1000);
                    assert(players@.len() * 1000 <= 22000) by (nonlinear_arith)
                        requires players@.len() <= 22;
                }
            }
            *current_state = GameState::Setup;
        },
    }
}

/// A table with no live prefix seat anywhere has no live seat at all.
proof fn lemma_count_active_none(players: Seq<Player>)
    requires
        forall|t: int| 0 <= t < players.len() ==> (#[trigger] players[t]).has_folded,
    ensures
        count_active(players) == 0,
    decreases players.len(),
{
    if players.len() > 0 {
        lemma_count_active_none(players.drop_last());
    }
}

} // verus!
