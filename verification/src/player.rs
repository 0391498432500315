//! Per-seat player state: chips, hole cards, street bet and folded flag.

use vstd::prelude::*;
use crate::cards::Card;

verus! {

/// Whether a seat is driven by a person or by the AI policy.
#[derive(Debug, Clone, Copy, PartialEq, Eq, Structural)]
pub enum PlayerType {
    Human,
    AI,
}

/// How far the AI policy reasons about a decision.
#[derive(Debug, Clone, Copy, PartialEq, Eq, Structural)]
pub enum AIDifficulty {
    Beginner,
    Intermediate,
}

/// Marks a seat a person plays.
#[derive(Debug, Clone, Copy, PartialEq, Eq, Structural)]
pub struct HumanPlayer;

/// Marks a seat the AI plays, with its difficulty tier.
#[derive(Debug, Clone, Copy, PartialEq, Eq, Structural)]
pub struct AIPlayer {
    pub difficulty: AIDifficulty,
}

/// One betting action a seat can take.  `Raise(amount)` raises the table's
/// current bet by `amount`.
#[derive(Debug, Clone, Copy, PartialEq, Eq, Structural)]
pub enum PlayerAction {
    Fold,
    Check,
    Call,
    Raise(u32),
}

/// One seat at the table.  `chips == 0 && !has_folded` means the player is
/// all-in; a folded player takes no further part in the hand.
#[derive(Debug, Clone)]
pub struct Player {
    pub id: u32,
    pub player_type: PlayerType,
    pub chips: u32,
    pub hole_cards: Vec<Card>,
    pub current_bet: u32,
    pub has_folded: bool,
}

impl Player {
    /// A fresh seat with the given stake, no cards and no bet.
    pub fn new(id: u32, player_type: PlayerType, chips: u32) -> (p: Player)
        ensures
            p.id == id,
            p.player_type == player_type,
            p.chips == chips,
            p.hole_cards@ == Seq::<Card>::empty(),
            p.current_bet == 0,
            !p.has_folded,
    {
        Player {
            id,
            player_type,
            chips,
            hole_cards: Vec::new(),
            current_bet: 0,
            has_folded: false,
        }
    }

    /// Adds one hole card.
    pub fn add_card(&mut self, card: Card)
        ensures
            final(self).hole_cards@ == old(self).hole_cards@.push(card),
            final(self).id == old(self).id,
            final(self).player_type == old(self).player_type,
            final(self).chips == old(self).chips,
            final(self).current_bet == old(self).current_bet,
            final(self).has_folded == old(self).has_folded,
    {
        self.hole_cards.push(card);
    }

    /// Removes all hole cards.
    pub fn clear_cards(&mut self)
        ensures
            final(self).hole_cards@ == Seq::<Card>::empty(),
            final(self).id == old(self).id,
            final(self).player_type == old(self).player_type,
            final(self).chips == old(self).chips,
            final(self).current_bet == old(self).current_bet,
            final(self).has_folded == old(self).has_folded,
    {
        self.hole_cards.clear();
    }

    /// Moves `amount` from the stack into the current street bet; refused
    /// (and nothing changes) when the stack cannot cover it.
    pub fn place_bet(&mut self, amount: u32) -> (ok: bool)
        requires
            old(self).current_bet + amount <= u32::MAX,
        ensures
            ok == (amount <= old(self).chips),
            ok ==> final(self).chips == old(self).chips - amount
                && final(self).current_bet == old(self).current_bet + amount,
            !ok ==> final(self).chips == old(self).chips
                && final(self).current_bet == old(self).current_bet,
            final(self).chips + final(self).current_bet == old(self).chips + old(self).current_bet,
            final(self).id == old(self).id,
            final(self).player_type == old(self).player_type,
            final(self).hole_cards@ == old(self).hole_cards@,
            final(self).has_folded == old(self).has_folded,
    {
        if amount > self.chips {
            false
        } else {
            self.chips = self.chips - amount;
            self.current_bet = self.current_bet + amount;
            true
        }
    }

    /// Marks the seat as folded for the rest of the hand.
    pub fn fold(&mut self)
        ensures
            final(self).has_folded,
            final(self).id == old(self).id,
            final(self).player_type == old(self).player_type,
            final(self).chips == old(self).chips,
            final(self).current_bet == old(self).current_bet,
            final(self).hole_cards@ == old(self).hole_cards@,
    {
        self.has_folded = true;
    }

    /// Clears cards, street bet and the folded flag; the stack persists
    /// across hands.
    pub fn reset_for_new_hand(&mut self)
        ensures
            final(self).hole_cards@ == Seq::<Card>::empty(),
            final(self).current_bet == 0,
            !final(self).has_folded,
            final(self).id == old(self).id,
            final(self).player_type == old(self).player_type,
            final(self).chips == old(self).chips,
    {
        self.has_folded = false;
        self.current_bet = 0;
        self.hole_cards.clear();
    }

    /// All-in: every chip is committed but the seat is still live.
    pub fn is_all_in(&self) -> (r: bool)
        ensures
            r == (self.chips == 0 && !self.has_folded),
    {
        self.chips == 0 && !self.has_folded
    }

    /// Whether the seat is live and can cover `amount`.
    pub fn can_bet(&self, amount: u32) -> (r: bool)
        ensures
            r == (!self.has_folded && self.chips >= amount),
    {
        !self.has_folded && self.chips >= amount
    }

    /// Chips committed to the current street.
    pub fn total_invested(&self) -> (r: u32)
        ensures
            r == self.current_bet,
    {
        self.current_bet
    }

    /// Out of the game: folded with no chips left.
    pub fn is_eliminated(&self) -> (r: bool)
        ensures
            r == (self.chips == 0 && self.has_folded),
    {
        self.chips == 0 && self.has_folded
    }

    /// Whether the seat still has decisions to make this street.
    pub fn can_act(&self) -> (r: bool)
        ensures
            r == (!self.has_folded && !(self.chips == 0 && !self.has_folded)),
    {
        !self.has_folded && !self.is_all_in()
    }

    /// Moves as much of `amount` as the stack covers into the street bet,
    /// and reports the amount actually moved (an all-in when short).
    pub fn bet(&mut self, amount: u32) -> (actual: u32)
        requires
            old(self).current_bet + amount <= u32::MAX,
        ensures
            actual == if amount <= old(self).chips { amount } else { old(self).chips },
            final(self).chips == old(self).chips - actual,
            final(self).current_bet == old(self).current_bet + actual,
            final(self).chips + final(self).current_bet == old(self).chips + old(self).current_bet,
            final(self).id == old(self).id,
            final(self).player_type == old(self).player_type,
            final(self).hole_cards@ == old(self).hole_cards@,
            final(self).has_folded == old(self).has_folded,
    {
        let actual_bet = if amount < self.chips { amount } else { self.chips };
        self.chips = self.chips - actual_bet;
        self.current_bet = self.current_bet + actual_bet;
        actual_bet
    }
}

} // verus!
