//! One betting street: acting queue, current bet, minimum raise and pot.

use vstd::prelude::*;
use crate::cards::Card;
use crate::game_state::GameState;
use crate::player::{Player, PlayerType};

pub use crate::player::PlayerAction;

verus! {

/// The state of one betting street.  The acting queue is consumed
/// front-first; the pot accumulates every wager of the hand.
#[derive(Debug)]
pub struct BettingRound {
    pub current_bet: u32,
    pub min_raise: u32,
    pub players_to_act: Vec<u32>,
    pub betting_complete: bool,
    pub pot: u32,
}

impl Default for BettingRound {
    /// An idle round: no bet to match, a 10-chip minimum raise, nobody to
    /// act and an empty pot.
    fn default() -> (r: BettingRound)
        ensures
            r.current_bet == 0,
            r.min_raise == 10,
            r.players_to_act@ == Seq::<u32>::empty(),
            !r.betting_complete,
            r.pot == 0,
    {
        BettingRound {
            current_bet: 0,
            min_raise: 10,
            players_to_act: Vec::new(),
            betting_complete: false,
            pot: 0,
        }
    }
}

impl BettingRound {
    /// A fresh pre-flop round: the big blind (twice the small blind) is
    /// already the bet to match and the minimum raise.
    pub fn new(player_ids: Vec<u32>, small_blind: u32) -> (r: BettingRound)
        requires
            small_blind * 2 <= u32::MAX,
        ensures
            r.current_bet == small_blind * 2,
            r.min_raise == small_blind * 2,
            r.players_to_act@ == player_ids@,
            !r.betting_complete,
            r.pot == 0,
    {
        BettingRound {
            current_bet: small_blind * 2,
            min_raise: small_blind * 2,
            players_to_act: player_ids,
            betting_complete: false,
            pot: 0,
        }
    }

    /// Starts a later street: no bet to match yet, a fresh acting queue;
    /// the pot carries on accumulating.
    pub fn reset_for_new_round(&mut self, player_ids: Vec<u32>)
        ensures
            final(self).current_bet == 0,
            final(self).players_to_act@ == player_ids@,
            !final(self).betting_complete,
            final(self).min_raise == old(self).min_raise,
            final(self).pot == old(self).pot,
    {
        self.current_bet = 0;
        self.players_to_act = player_ids;
        self.betting_complete = false;
    }

    /// Whether the street is over: marked complete, or nobody left to act.
    pub fn is_complete(&self) -> (r: bool)
        ensures
            r == (self.betting_complete || self.players_to_act@.len() == 0),
    {
        self.betting_complete || self.players_to_act.len() == 0
    }

    /// The seat due to act next, without removing it from the queue.
    pub fn peek_next_player(&self) -> (r: Option<u32>)
        ensures
            self.players_to_act@.len() > 0 ==> r == Some(self.players_to_act@[0]),
            self.players_to_act@.len() == 0 ==> r is None,
    {
        if self.players_to_act.len() > 0 {
            Some(self.players_to_act[0])
        } else {
            None
        }
    }

    /// Removes and returns the seat due to act next; with an empty queue it
    /// instead marks the street complete.
    pub fn next_player(&mut self) -> (r: Option<u32>)
        ensures
            old(self).players_to_act@.len() > 0 ==> {
                &&& r == Some(old(self).players_to_act@[0])
                &&& final(self).players_to_act@ == old(self).players_to_act@.drop_first()
                &&& final(self).betting_complete == old(self).betting_complete
            },
            old(self).players_to_act@.len() == 0 ==> {
                &&& r is None
                &&& final(self).players_to_act@ == old(self).players_to_act@
                &&& final(self).betting_complete
            },
            final(self).current_bet == old(self).current_bet,
            final(self).min_raise == old(self).min_raise,
            final(self).pot == old(self).pot,
    {
        if self.players_to_act.len() > 0 {
            let id = self.players_to_act.remove(0);
            Some(id)
        } else {
            self.betting_complete = true;
            None
        }
    }
}

/// The chip-relevant state of one seat.
pub struct SeatView {
    pub chips: u32,
    pub bet: u32,
    pub folded: bool,
}

/// The chip-relevant state of a betting round.
pub struct WagerView {
    pub current_bet: u32,
    pub min_raise: u32,
    pub pot: u32,
}

/// The chip-relevant image of a player.
pub open spec fn seat_view(p: Player) -> SeatView {
    SeatView { chips: p.chips, bet: p.current_bet, folded: p.has_folded }
}

/// The chip-relevant image of a betting round.
pub open spec fn wager_view(r: BettingRound) -> WagerView {
    WagerView { current_bet: r.current_bet, min_raise: r.min_raise, pot: r.pot }
}

/// How much the seat still owes to match the table's current bet.
pub open spec fn spec_call_amount(bet: u32, current_bet: u32) -> u32 {
    if current_bet >= bet {
        (current_bet - bet) as u32
    } else {
        0
    }
}

/// The bounds under which an action moves chips without overflow or
/// underflow: the seat's wealth and the grown pot fit in a `u32`, and a
/// raise the seat can cover raises to at least the seat's own street bet.
pub open spec fn action_ok(p: SeatView, a: PlayerAction, r: WagerView) -> bool {
    &&& p.chips + p.bet <= u32::MAX
    &&& r.pot + p.chips <= u32::MAX
    &&& (a matches PlayerAction::Raise(x) ==> {
        &&& r.current_bet + x <= u32::MAX
        &&& (p.chips >= r.current_bet + x ==> p.bet <= r.current_bet + x)
    })
}

/// What an action does to the acting seat.  A call or raise the seat cannot
/// cover moves the whole stack instead (an all-in); a fold moves nothing.
pub open spec fn apply_action_seat(p: SeatView, a: PlayerAction, r: WagerView) -> SeatView {
    match a {
        PlayerAction::Fold => SeatView { folded: true, ..p },
        PlayerAction::Check => p,
        PlayerAction::Call => {
            let call = spec_call_amount(p.bet, r.current_bet);
            if p.chips >= call {
                SeatView { chips: (p.chips - call) as u32, bet: (p.bet + call) as u32, ..p }
            } else {
                SeatView { chips: 0, bet: (p.bet + p.chips) as u32, ..p }
            }
        },
        PlayerAction::Raise(amount) => {
            let total = (r.current_bet + amount) as u32;
            if p.chips >= total {
                SeatView { chips: (p.chips - (total - p.bet)) as u32, bet: total, ..p }
            } else {
                SeatView { chips: 0, bet: (p.bet + p.chips) as u32, ..p }
            }
        },
    }
}

/// What an action does to the round: the chips the seat moved land in the
/// pot, and a covered raise lifts the current bet and the minimum raise.
pub open spec fn apply_action_wager(p: SeatView, a: PlayerAction, r: WagerView) -> WagerView {
    match a {
        PlayerAction::Fold => r,
        PlayerAction::Check => r,
        PlayerAction::Call => {
            let call = spec_call_amount(p.bet, r.current_bet);
            let moved = if p.chips >= call { call } else { p.chips };
            WagerView { pot: (r.pot + moved) as u32, ..r }
        },
        PlayerAction::Raise(amount) => {
            let total = (r.current_bet + amount) as u32;
            if p.chips >= total {
                WagerView {
                    pot: (r.pot + (total - p.bet)) as u32,
                    current_bet: total,
                    min_raise: amount,
                }
            } else {
                WagerView { pot: (r.pot + p.chips) as u32, ..r }
            }
        },
    }
}

/// No action creates or destroys chips: what leaves the stack enters the
/// street bet, and the pot grows by exactly the seat's bet increase.
pub proof fn lemma_apply_action_conserves(p: SeatView, a: PlayerAction, r: WagerView)
    requires
        action_ok(p, a, r),
    ensures
        ({
            let p2 = apply_action_seat(p, a, r);
            let r2 = apply_action_wager(p, a, r);
            &&& p2.chips + p2.bet == p.chips + p.bet
            &&& r2.pot - r.pot == p2.bet - p.bet
            &&& p2.chips + r2.pot == p.chips + r.pot
        }),
{
}

/// Applies one action for one seat: folds the seat, or moves chips from its
/// stack through its street bet into the pot, downgrading an unaffordable
/// call or raise to an all-in.
pub fn process_player_action(player: &mut Player, action: PlayerAction, betting_round: &mut BettingRound)
    requires
        action_ok(seat_view(*old(player)), action, wager_view(*old(betting_round))),
    ensures
        seat_view(*final(player))
            == apply_action_seat(seat_view(*old(player)), action, wager_view(*old(betting_round))),
        wager_view(*final(betting_round))
            == apply_action_wager(seat_view(*old(player)), action, wager_view(*old(betting_round))),
        final(player).chips + final(betting_round).pot
            == old(player).chips + old(betting_round).pot,
        final(player).id == old(player).id,
        final(player).player_type == old(player).player_type,
        final(player).hole_cards@ == old(player).hole_cards@,
        final(betting_round).players_to_act@ == old(betting_round).players_to_act@,
        final(betting_round).betting_complete == old(betting_round).betting_complete,
{
    match action {
        PlayerAction::Fold => {
            player.has_folded = true;
        },
        PlayerAction::Check => {},
        PlayerAction::Call => {
            let call_amount = if betting_round.current_bet > player.current_bet {
                betting_round.current_bet - player.current_bet
            } else {
                0
            };
            if player.chips >= call_amount {
                player.chips = player.chips - call_amount;
                player.current_bet = player.current_bet + call_amount;
                betting_round.pot = betting_round.pot + call_amount;
            } else {
                let all_in_amount = player.chips;
                player.current_bet = player.current_bet + all_in_amount;
                betting_round.pot = betting_round.pot + all_in_amount;
                player.chips = 0;
            }
        },
        PlayerAction::Raise(amount) => {
            let total_bet = betting_round.current_bet + amount;
            if player.chips >= total_bet {
                let bet_amount = total_bet - player.current_bet;
                player.chips = player.chips - bet_amount;
                player.current_bet = total_bet;
                betting_round.pot = betting_round.pot + bet_amount;
                betting_round.current_bet = total_bet;
                betting_round.min_raise = amount;
            } else {
                let all_in_amount = player.chips;
                player.current_bet = player.current_bet + all_in_amount;
                betting_round.pot = betting_round.pot + all_in_amount;
                player.chips = 0;
            }
        },
    }
}

/// How many seats have not folded.
pub open spec fn count_active(players: Seq<Player>) -> nat
    decreases players.len(),
{
    if players.len() == 0 {
        0
    } else {
        count_active(players.drop_last()) + if players.last().has_folded {
            0nat
        } else {
            1nat
        }
    }
}

/// Every live seat has matched the current bet or is all-in.
pub open spec fn all_matched(players: Seq<Player>, current_bet: u32) -> bool {
    forall|i: int| 0 <= i < players.len() ==> {
        ||| (#[trigger] players[i]).has_folded
        ||| players[i].current_bet >= current_bet
        ||| players[i].chips == 0
    }
}

/// The completion rule of a street: at most one live seat remains, or the
/// acting queue is empty and every live seat has matched the bet or is
/// all-in.
pub open spec fn round_complete_now(players: Seq<Player>, r: BettingRound) -> bool {
    ||| count_active(players) <= 1
    ||| (r.players_to_act@.len() == 0 && all_matched(players, r.current_bet))
}

/// Marks the round complete exactly when the completion rule holds; a round
/// already marked complete stays so.
pub fn check_betting_round_complete(players: &Vec<Player>, betting_round: &mut BettingRound)
    ensures
        final(betting_round).betting_complete == (old(betting_round).betting_complete
            || round_complete_now(players@, *old(betting_round))),
        final(betting_round).current_bet == old(betting_round).current_bet,
        final(betting_round).min_raise == old(betting_round).min_raise,
        final(betting_round).pot == old(betting_round).pot,
        final(betting_round).players_to_act@ == old(betting_round).players_to_act@,
{
    if betting_round.betting_complete {
        return;
    }
    let mut active: usize = 0;
    let mut i: usize = 0;
    while i < players.len()
        invariant
            i <= players@.len(),
            active == count_active(players@.take(i as int)),
            active <= i,
        decreases players@.len() - i,
    {
        proof {
            assert(players@.take(i + 1 as int).drop_last() =~= players@.take(i as int));
            assert(players@.take(i + 1 as int).last() == players@[i as int]);
        }
        if !players[i].has_folded {
            active = active + 1;
        }
        i = i + 1;
    }
    proof {
        assert(players@.take(players@.len() as int) =~= players@);
    }
    if active <= 1 {
        betting_round.betting_complete = true;
        return;
    }

    let mut all_ok = true;
    let mut i: usize = 0;
    while i < players.len()
        invariant
            i <= players@.len(),
            all_ok == (forall|t: int| 0 <= t < i ==> {
                ||| (#[trigger] players@[t]).has_folded
                ||| players@[t].current_bet >= betting_round.current_bet
                ||| players@[t].chips == 0
            }),
            betting_round == old(betting_round),
        decreases players@.len() - i,
    {
        let p = &players[i];
        if !(p.has_folded || p.current_bet >= betting_round.current_bet || p.chips == 0) {
            all_ok = false;
        }
        i = i + 1;
    }
    if betting_round.players_to_act.len() == 0 && all_ok {
        betting_round.betting_complete = true;
    } else {
        proof {
            assert(count_active(players@) > 1);
            assert(!round_complete_now(players@, *old(betting_round)));
        }
    }
}

/// The chips still sitting in front of the seats (wagered chips live in the
/// pot, not here).
pub open spec fn total_chips(players: Seq<Player>) -> int
    decreases players.len(),
{
    if players.len() == 0 {
        0
    } else {
        total_chips(players.drop_last()) + players.last().chips
    }
}

/// Each seat's chips are part of the total.
pub proof fn lemma_total_chips_element(players: Seq<Player>, i: int)
    requires
        0 <= i < players.len(),
    ensures
        players[i].chips <= total_chips(players),
        total_chips(players) >= 0,
    decreases players.len(),
{
    if i == players.len() - 1 {
        lemma_total_chips_nonneg(players.drop_last());
    } else {
        lemma_total_chips_element(players.drop_last(), i);
    }
}

/// The chip total is never negative.
pub proof fn lemma_total_chips_nonneg(players: Seq<Player>)
    ensures
        total_chips(players) >= 0,
    decreases players.len(),
{
    if players.len() > 0 {
        lemma_total_chips_nonneg(players.drop_last());
    }
}

/// Replacing one seat shifts the total by that seat's chip change.
pub proof fn lemma_total_chips_update(players: Seq<Player>, i: int, p2: Player)
    requires
        0 <= i < players.len(),
    ensures
        total_chips(players.update(i, p2))
            == total_chips(players) - players[i].chips + p2.chips,
    decreases players.len(),
{
    let updated = players.update(i, p2);
    if i == players.len() - 1 {
        assert(updated.drop_last() =~= players.drop_last());
    } else {
        assert(updated.drop_last() =~= players.drop_last().update(i, p2));
        assert(updated.last() == players.last());
        lemma_total_chips_update(players.drop_last(), i, p2);
    }
}

/// Every seat's street bet is at most the table's current bet, unless the
/// seat is already all-in.  Streets start this way (all bets zero) and every
/// action preserves it.
pub open spec fn seat_bets_ok(players: Seq<Player>, current_bet: u32) -> bool {
    forall|i: int| 0 <= i < players.len() ==>
        (#[trigger] players[i]).current_bet <= current_bet || players[i].chips == 0
}

/// Street bets stay within the table's arithmetic headroom: a seat that can
/// still act has bet at most the stake cap, and no bet ever passes twice
/// the cap.
pub open spec fn seats_bounded(players: Seq<Player>) -> bool {
    forall|i: int| 0 <= i < players.len() ==> {
        &&& ((#[trigger] players[i]).current_bet <= 0x1000_0000 || players[i].chips == 0)
        &&& players[i].current_bet <= 0x2000_0000
    }
}

/// A pending action submitted by the human seat, with the raise size the
/// interface currently shows.
#[derive(Debug)]
pub struct HumanPlayerInput {
    pub pending_action: Option<PlayerAction>,
    pub raise_amount: u32,
}

impl Default for HumanPlayerInput {
    /// No action pending; the raise control starts at 20 chips.
    fn default() -> (h: HumanPlayerInput)
        ensures
            h.pending_action is None,
            h.raise_amount == 20,
    {
        HumanPlayerInput { pending_action: None, raise_amount: 20 }
    }
}

/// The fallback AI used when a seat has no personality attached: fold what
/// cannot be afforded, check what is free, call anything up to a quarter of
/// the stack, fold the rest.
pub open spec fn simple_ai_decision(p: SeatView, r: WagerView) -> PlayerAction {
    let call = spec_call_amount(p.bet, r.current_bet);
    if call > p.chips {
        PlayerAction::Fold
    } else if call == 0 {
        PlayerAction::Check
    } else if call <= p.chips / 4 {
        PlayerAction::Call
    } else {
        PlayerAction::Fold
    }
}

/// The fallback AI decision for a seat without a personality.
pub fn make_ai_decision(player: &Player, betting_round: &BettingRound) -> (a: PlayerAction)
    ensures
        a == simple_ai_decision(seat_view(*player), wager_view(*betting_round)),
{
    let call_amount = if betting_round.current_bet > player.current_bet {
        betting_round.current_bet - player.current_bet
    } else {
        0
    };
    if call_amount > player.chips {
        PlayerAction::Fold
    } else if call_amount == 0 {
        PlayerAction::Check
    } else if call_amount <= player.chips / 4 {
        PlayerAction::Call
    } else {
        PlayerAction::Fold
    }
}

/// The bounds `ai_player_system` keeps across calls: chips in play within
/// the stake cap, the current bet and minimum raise in range, and every
/// seat's street bet consistent with the table.
pub open spec fn table_ok(players: Seq<Player>, r: BettingRound) -> bool {
    &&& total_chips(players) + r.pot <= 0x1000_0000
    &&& r.current_bet <= 0x1000_0000
    &&& 1 <= r.min_raise <= 0x1000_0000
    &&& seat_bets_ok(players, r.current_bet)
    &&& seats_bounded(players)
}

/// The four phases in which seats act.
pub open spec fn is_betting_phase(state: GameState) -> bool {
    ||| state == GameState::PreFlop
    ||| state == GameState::Flop
    ||| state == GameState::Turn
    ||| state == GameState::River
}

/// Seat `i` is a live seat with id `id`.
pub open spec fn seat_matches(players: Seq<Player>, i: int, id: u32) -> bool {
    0 <= i < players.len() && players[i].id == id && !players[i].has_folded
}

/// Seat `i` is the first live seat with id `id`.
pub open spec fn first_seat_match(players: Seq<Player>, i: int, id: u32) -> bool {
    seat_matches(players, i, id)
        && forall|t: int| 0 <= t < i ==> !seat_matches(players, t, id)
}

/// What the policy lets the acting seat do: an AI seat with a personality
/// decides through the full policy on some three per-mille draws, an AI
/// seat without one through the simple fallback, and a human seat through
/// the pending submitted action.
pub open spec fn action_follows_policy(
    p: Player,
    r: BettingRound,
    community: Seq<Card>,
    personality: Option<crate::ai_player::AIPersonality>,
    live_count: int,
    pending: Option<PlayerAction>,
    a: PlayerAction,
) -> bool {
    match p.player_type {
        PlayerType::AI => match personality {
            Some(pers) => exists|d1: u32, d2: u32, d3: u32|
                d1 < 1000 && d2 < 1000 && d3 < 1000
                && #[trigger] crate::ai_player::decision_holds(
                    p, r, community, pers, live_count, p.id as int, d1, d2, d3, a),
            None => a == simple_ai_decision(seat_view(p), wager_view(r)),
        },
        PlayerType::Human => pending == Some(a),
    }
}

/// A decision is due: a betting phase, an open street, a live seat first in
/// the queue and — for a human seat — a submitted action waiting.
pub open spec fn system_acts(
    players: Seq<Player>,
    r: BettingRound,
    state: GameState,
    pending: Option<PlayerAction>,
) -> bool {
    &&& is_betting_phase(state)
    &&& !r.betting_complete
    &&& r.players_to_act@.len() > 0
    &&& exists|i: int| #[trigger] seat_matches(players, i, r.players_to_act@[0])
    &&& forall|i: int| #[trigger] first_seat_match(players, i, r.players_to_act@[0])
        ==> players[i].player_type == PlayerType::AI || pending is Some
}

/// Lets the seat due to act decide and applies its action: an AI seat
/// decides through its policy (or the simple fallback without a
/// personality), a human seat through the pending submitted action, and
/// until one is submitted nothing moves.  Acting removes the seat from the
/// queue; a queue head that names no live seat is passed over.  Outside the
/// betting phases, or with the street already complete, nothing happens.
#[verifier::rlimit(100)]
pub fn ai_player_system(
    players: &mut Vec<Player>,
    personalities: &Vec<Option<crate::ai_player::AIPersonality>>,
    betting_round: &mut BettingRound,
    game_state: GameState,
    community_cards: &Vec<Card>,
    human_input: &mut HumanPlayerInput,
)
    requires
        old(players)@.len() == personalities@.len(),
        table_ok(old(players)@, *old(betting_round)),
        forall|i: int| 0 <= i < old(players)@.len() ==>
            (#[trigger] old(players)@[i]).hole_cards@.len() == 2
            || community_cards@.len() < 3,
        old(human_input).pending_action matches Some(PlayerAction::Raise(x))
            ==> 1 <= x <= 0x1000_0000,
    ensures
        final(players)@.len() == old(players)@.len(),
        forall|i: int| 0 <= i < final(players)@.len() ==> {
            &&& (#[trigger] final(players)@[i]).id == old(players)@[i].id
            &&& final(players)@[i].player_type == old(players)@[i].player_type
            &&& final(players)@[i].hole_cards@ == old(players)@[i].hole_cards@
        },
        total_chips(final(players)@) + final(betting_round).pot
            == total_chips(old(players)@) + old(betting_round).pot,
        table_ok(final(players)@, *final(betting_round)),
        final(betting_round).players_to_act@.len()
            <= old(betting_round).players_to_act@.len(),
        // Outside the betting phases, with the street complete or with
        // nobody queued, nothing happens at all.
        (!is_betting_phase(game_state) || old(betting_round).betting_complete
            || old(betting_round).players_to_act@.len() == 0) ==> {
            &&& final(players)@ == old(players)@
            &&& *final(betting_round) == *old(betting_round)
            &&& *final(human_input) == *old(human_input)
        },
        // A queue head that names no live seat is passed over: the head
        // leaves the queue and nothing else changes.
        (is_betting_phase(game_state) && !old(betting_round).betting_complete
            && old(betting_round).players_to_act@.len() > 0
            && !(exists|i: int| #[trigger] seat_matches(old(players)@, i,
                old(betting_round).players_to_act@[0]))) ==> {
            &&& final(players)@ == old(players)@
            &&& *final(human_input) == *old(human_input)
            &&& final(betting_round).players_to_act@
                == old(betting_round).players_to_act@.drop_first()
            &&& final(betting_round).current_bet == old(betting_round).current_bet
            &&& final(betting_round).min_raise == old(betting_round).min_raise
            &&& final(betting_round).pot == old(betting_round).pot
            &&& final(betting_round).betting_complete == old(betting_round).betting_complete
        },
        // A human head seat with nothing submitted keeps everything waiting.
        (!system_acts(old(players)@, *old(betting_round), game_state,
            old(human_input).pending_action)
            && is_betting_phase(game_state) && !old(betting_round).betting_complete
            && old(betting_round).players_to_act@.len() > 0
            && (exists|i: int| #[trigger] seat_matches(old(players)@, i,
                old(betting_round).players_to_act@[0]))) ==> {
            &&& final(players)@ == old(players)@
            &&& *final(betting_round) == *old(betting_round)
            &&& *final(human_input) == *old(human_input)
        },
        // When a decision is due, the first live seat named by the queue
        // head performs exactly one policy-allowed action and leaves the
        // queue; a consumed human action leaves the pending slot empty.
        system_acts(old(players)@, *old(betting_round), game_state,
            old(human_input).pending_action) ==> exists|idx: int, a: PlayerAction| {
            &&& first_seat_match(old(players)@, idx, old(betting_round).players_to_act@[0])
            &&& action_follows_policy(
                old(players)@[idx],
                *old(betting_round),
                community_cards@,
                personalities@[idx],
                count_active(old(players)@) as int,
                old(human_input).pending_action,
                a,
            )
            &&& seat_view(final(players)@[idx]) == #[trigger] apply_action_seat(
                seat_view(old(players)@[idx]), a, wager_view(*old(betting_round)))
            &&& final(players)@ == old(players)@.update(idx, final(players)@[idx])
            &&& wager_view(*final(betting_round)) == apply_action_wager(
                seat_view(old(players)@[idx]), a, wager_view(*old(betting_round)))
            &&& final(betting_round).players_to_act@
                == old(betting_round).players_to_act@.drop_first()
            &&& final(betting_round).betting_complete
                == old(betting_round).betting_complete
            &&& final(human_input).pending_action
                == if old(players)@[idx].player_type == PlayerType::Human {
                    None::<PlayerAction>
                } else {
                    old(human_input).pending_action
                }
            &&& final(human_input).raise_amount == old(human_input).raise_amount
        },
{
    match game_state {
        GameState::PreFlop => {},
        GameState::Flop => {},
        GameState::Turn => {},
        GameState::River => {},
        _ => {
            return;
        },
    }
    if betting_round.betting_complete {
        return;
    }
    let current_id = match betting_round.peek_next_player() {
        Some(id) => id,
        None => {
            return;
        },
    };

    // Count the live seats.
    let mut active: usize = 0;
    let mut i: usize = 0;
    while i < players.len()
        invariant
            i <= players@.len(),
            active == count_active(players@.take(i as int)),
            active <= i,
        decreases players@.len() - i,
    {
        proof {
            assert(players@.take(i + 1 as int).drop_last() =~= players@.take(i as int));
            assert(players@.take(i + 1 as int).last() == players@[i as int]);
        }
        if !players[i].has_folded {
            active = active + 1;
        }
        i = i + 1;
    }
    proof {
        assert(players@.take(players@.len() as int) =~= players@);
    }

    // Find the first live seat the queue head names.
    let mut found: Option<usize> = None;
    let mut i: usize = 0;
    while i < players.len()
        invariant
            i <= players@.len(),
            found is None ==> forall|t: int| 0 <= t < i
                ==> !seat_matches(players@, t, current_id),
            found matches Some(j) ==> first_seat_match(players@, j as int, current_id)
                && j < i,
        decreases players@.len() - i,
    {
        if found.is_none() && players[i].id == current_id && !players[i].has_folded {
            found = Some(i);
        }
        i = i + 1;
    }
    let idx = match found {
        Some(j) => j,
        None => {
            // The head names no live seat: pass it over.
            proof {
                assert forall|t: int| !seat_matches(players@, t, current_id) by {}
            }
            betting_round.next_player();
            return;
        },
    };
    proof {
        assert(first_seat_match(players@, idx as int, current_id));
    }

    proof {
        lemma_total_chips_element(players@, idx as int);
        lemma_total_chips_nonneg(players@);
    }
    let ghost head = current_id;
    let action = match players[idx].player_type {
        PlayerType::AI => {
            let position = players[idx].id as usize;
            match &personalities[idx] {
                Some(pers) => {
                    let a = crate::ai_player::make_advanced_ai_decision(
                        &players[idx],
                        betting_round,
                        community_cards.as_slice(),
                        pers,
                        active,
                        position,
                    );
                    proof {
                        let p = players@[idx as int];
                        let r = *betting_round;
                        let (d1, d2, d3) = choose|d1: u32, d2: u32, d3: u32|
                            d1 < 1000 && d2 < 1000 && d3 < 1000
                            && #[trigger] crate::ai_player::decision_holds(
                                p, r, community_cards@, *pers, active as int, position as int,
                                d1, d2, d3, a);
                        let st = choose|st: crate::ai_player::HandStrength|
                            #[trigger] crate::ai_player::strength_matches(
                                p.hole_cards@, community_cards@, st)
                            && a == crate::ai_player::spec_personality_adjust(
                                crate::ai_player::spec_base_decision(
                                    seat_view(p), wager_view(r), st,
                                    crate::ai_player::spec_pot_odds(seat_view(p), wager_view(r)),
                                    *pers, active as int, position as int),
                                *pers, st, wager_view(r), d1, d2, d3);
                        crate::ai_player::lemma_policy_action_ok(
                            seat_view(p), wager_view(r), st,
                            crate::ai_player::spec_pot_odds(seat_view(p), wager_view(r)),
                            *pers, active as int, position as int, d1, d2, d3);
                        assert(action_ok(seat_view(p), a, wager_view(r)));
                        assert(action_follows_policy(p, r, community_cards@,
                            personalities@[idx as int], count_active(players@) as int,
                            old(human_input).pending_action, a));
                    }
                    a
                },
                None => {
                    let a = make_ai_decision(&players[idx], betting_round);
                    proof {
                        assert(action_follows_policy(players@[idx as int], *betting_round,
                            community_cards@, personalities@[idx as int],
                            count_active(players@) as int,
                            old(human_input).pending_action, a));
                    }
                    a
                },
            }
        },
        PlayerType::Human => {
            let pending = human_input.pending_action;
            match pending {
                Some(a) => {
                    human_input.pending_action = None;
                    proof {
                        assert(action_follows_policy(players@[idx as int], *betting_round,
                            community_cards@, personalities@[idx as int],
                            count_active(players@) as int,
                            old(human_input).pending_action, a));
                    }
                    a
                },
                None => {
                    // The human seat has not decided yet: keep waiting.
                    proof {
                        assert(!system_acts(players@, *betting_round, game_state,
                            old(human_input).pending_action));
                    }
                    return;
                },
            }
        },
    };
    proof {
        let p = players@[idx as int];
        let r = *betting_round;
        assert(action_ok(seat_view(p), action, wager_view(r))) by {
            match action {
                PlayerAction::Raise(x) => {
                    if seat_view(p).chips >= r.current_bet + x {
                        if p.current_bet > r.current_bet + x {
                            assert(p.chips == 0);
                        }
                    }
                },
                _ => {},
            }
        }
        assert(action matches PlayerAction::Raise(x) ==> 1 <= x <= 0x1000_0000) by {
            match action {
                PlayerAction::Raise(x) => {
                    if !(1 <= x <= 0x1000_0000) {
                        assert(false);
                    }
                },
                _ => {},
            }
        }
    }

    let ghost players_before = players@;
    let ghost round_before = *betting_round;
    betting_round.next_player();
    let mut acting = players.remove(idx);
    process_player_action(&mut acting, action, betting_round);
    players.insert(idx, acting);
    proof {
        assert(players@ =~= players_before.update(idx as int, acting));
        assert(players@ =~= players_before.update(idx as int, players@[idx as int]));
        lemma_total_chips_update(players_before, idx as int, acting);
        let p0 = seat_view(players_before[idx as int]);
        let r0 = wager_view(round_before);
        let p2 = apply_action_seat(p0, action, r0);
        let r2 = apply_action_wager(p0, action, r0);
        // The current bet never drops, so the other seats stay consistent,
        // and the acting seat ends matched, raised to the new bet, or all-in.
        assert(r2.current_bet >= r0.current_bet);
        assert(p2.bet <= r2.current_bet || p2.chips == 0);
        assert(p2.bet <= 0x1000_0000 || p2.chips == 0);
        assert(p2.bet <= 0x2000_0000);
        assert(r2.current_bet <= 0x1000_0000);
        assert(1 <= r2.min_raise <= 0x1000_0000);
        assert(seat_bets_ok(players@, betting_round.current_bet));
        assert(seats_bounded(players@));
        // The acting clause, witnessed by the seat that acted and its action.
        assert(first_seat_match(players_before, idx as int, head));
        assert(action_follows_policy(players_before[idx as int], round_before,
            community_cards@, personalities@[idx as int],
            count_active(players_before) as int, old(human_input).pending_action, action));
        assert(seat_view(players@[idx as int])
            == apply_action_seat(p0, action, r0));
        assert(wager_view(*betting_round) == apply_action_wager(p0, action, r0));
    }
}

} // verus!
