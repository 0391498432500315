//! Hand phases, shared hand data, and dealer/blind positions.

use vstd::prelude::*;
use crate::cards::Card;

verus! {

/// The state the embedding application is in; only `Playing` advances the
/// game.
#[derive(Debug, Clone, Copy, PartialEq, Eq, Hash, Structural)]
pub enum AppState {
    Playing,
    Paused,
    Suspended,
}

impl Default for AppState {
    fn default() -> (s: AppState)
        ensures
            s == AppState::Playing,
    {
        AppState::Playing
    }
}

/// The phase of one hand, from setup through showdown.
#[derive(Debug, Clone, Copy, PartialEq, Eq, Hash, Structural)]
pub enum GameState {
    Setup,
    Dealing,
    PreFlop,
    Flop,
    Turn,
    River,
    Showdown,
    GameOver,
}

impl Default for GameState {
    fn default() -> (s: GameState)
        ensures
            s == GameState::Setup,
    {
        GameState::Setup
    }
}

/// Shared per-hand data: the pot carried across streets, the community
/// cards, and bookkeeping for whose turn and which hand it is.
#[derive(Debug)]
pub struct GameData {
    pub current_player: u32,
    pub pot: u32,
    pub current_bet: u32,
    pub community_cards: Vec<Card>,
    pub round_number: u32,
}

impl Default for GameData {
    fn default() -> (d: GameData)
        ensures
            d.current_player == 0,
            d.pot == 0,
            d.current_bet == 0,
            d.community_cards@ == Seq::<Card>::empty(),
            d.round_number == 1,
    {
        GameData {
            current_player: 0,
            pot: 0,
            current_bet: 0,
            community_cards: Vec::new(),
            round_number: 1,
        }
    }
}

impl GameData {
    /// Clears the per-hand state for the next hand and counts it; the hand
    /// counter saturates at the largest `u32` rather than wrapping.
    pub fn new_round(&mut self)
        ensures
            final(self).round_number
                == if old(self).round_number < u32::MAX {
                    old(self).round_number + 1
                } else {
                    u32::MAX as int
                },
            final(self).pot == 0,
            final(self).current_bet == 0,
            final(self).community_cards@ == Seq::<Card>::empty(),
            final(self).current_player == 0,
    {
        if self.round_number < u32::MAX {
            self.round_number = self.round_number + 1;
        }
        self.pot = 0;
        self.current_bet = 0;
        self.community_cards.clear();
        self.current_player = 0;
    }

    /// Adds chips to the carried pot.
    pub fn add_to_pot(&mut self, amount: u32)
        requires
            old(self).pot + amount <= u32::MAX,
        ensures
            final(self).pot == old(self).pot + amount,
            final(self).current_player == old(self).current_player,
            final(self).current_bet == old(self).current_bet,
            final(self).community_cards@ == old(self).community_cards@,
            final(self).round_number == old(self).round_number,
    {
        self.pot = self.pot + amount;
    }

    /// Moves the turn marker to the next seat, wrapping around the table.
    pub fn next_player(&mut self, total_players: u32)
        requires
            total_players > 0,
            old(self).current_player < total_players,
        ensures
            final(self).current_player == (old(self).current_player + 1) % (total_players as int),
            final(self).pot == old(self).pot,
            final(self).current_bet == old(self).current_bet,
            final(self).community_cards@ == old(self).community_cards@,
            final(self).round_number == old(self).round_number,
    {
        self.current_player = (self.current_player + 1) % total_players;
    }
}

/// Dealer-button position and the static blind configuration.
#[derive(Debug, Clone, Copy)]
pub struct GamePosition {
    pub dealer_button: u32,
    pub small_blind_amount: u32,
    pub big_blind_amount: u32,
    pub total_players: u32,
}

impl Default for GamePosition {
    fn default() -> (p: GamePosition)
        ensures
            p.dealer_button == 0,
            p.small_blind_amount == 10,
            p.big_blind_amount == 20,
            p.total_players == 3,
    {
        GamePosition {
            dealer_button: 0,
            small_blind_amount: 10,
            big_blind_amount: 20,
            total_players: 3,
        }
    }
}

impl GamePosition {
    /// A consistent position: the button points at a real seat and the
    /// table is small enough for all seat arithmetic.
    pub open spec fn wf(self) -> bool {
        &&& 0 < self.total_players <= 1000
        &&& self.dealer_button < self.total_players
    }

    /// The seat that posts the small blind: one seat past the dealer.
    pub fn get_small_blind_player(&self) -> (seat: u32)
        requires
            self.wf(),
        ensures
            seat == (self.dealer_button + 1) % (self.total_players as int),
            seat < self.total_players,
    {
        (self.dealer_button + 1) % self.total_players
    }

    /// The seat that posts the big blind: two seats past the dealer.
    pub fn get_big_blind_player(&self) -> (seat: u32)
        requires
            self.wf(),
        ensures
            seat == (self.dealer_button + 2) % (self.total_players as int),
            seat < self.total_players,
    {
        (self.dealer_button + 2) % self.total_players
    }

    /// Moves the dealer button one seat onward for the next hand.
    pub fn advance_dealer_button(&mut self)
        requires
            old(self).wf(),
        ensures
            final(self).dealer_button
                == (old(self).dealer_button + 1) % (old(self).total_players as int),
            final(self).wf(),
            final(self).small_blind_amount == old(self).small_blind_amount,
            final(self).big_blind_amount == old(self).big_blind_amount,
            final(self).total_players == old(self).total_players,
    {
        self.dealer_button = (self.dealer_button + 1) % self.total_players;
    }

    /// The seat due to act first on a street: three past the dealer before
    /// the flop (past the big blind), the small blind afterwards.
    pub open spec fn first_to_act(self, preflop: bool) -> int {
        if preflop {
            (self.dealer_button + 3) % (self.total_players as int)
        } else {
            (self.dealer_button + 1) % (self.total_players as int)
        }
    }

    /// Every seat in acting order for a street, starting from the seat due
    /// to act first and going around the table once.  The queue is consumed
    /// front-first.
    pub fn get_betting_order(&self, preflop: bool) -> (order: Vec<u32>)
        requires
            self.wf(),
        ensures
            order@.len() == self.total_players,
            forall|i: int| 0 <= i < order@.len() ==>
                order@[i] == (self.first_to_act(preflop) + i) % (self.total_players as int),
    {
        let n = self.total_players;
        let offset: u32 = if preflop { 3 } else { 1 };
        let start = (self.dealer_button + offset) % n;
        let mut order: Vec<u32> = Vec::new();
        let mut i: u32 = 0;
        while i < n
            invariant
                i <= n,
                n == self.total_players,
                0 < n <= 1000,
                start == self.first_to_act(preflop),
                start < n,
                order@.len() == i,
                forall|t: int| 0 <= t < i ==>
                    order@[t] == (self.first_to_act(preflop) + t) % (n as int),
            decreases n - i,
        {
            let seat = (start + i) % n;
            proof {
                assert((start + i) as int % (n as int)
                    == (self.first_to_act(preflop) + i) % (n as int)) by (nonlinear_arith)
                    requires
                        n > 0,
                        start == self.first_to_act(preflop) % (n as int)
                            || start == self.first_to_act(preflop),
                        start == self.first_to_act(preflop),
                ;
            }
            order.push(seat);
            i = i + 1;
        }
        order
    }
}

} // verus!
