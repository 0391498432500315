//! Card identity and the 52-card deck.

use vstd::prelude::*;

verus! {

/// One of the four French suits.
#[derive(Debug, Clone, Copy, PartialEq, Eq, Hash, Structural)]
pub enum Suit {
    Hearts,
    Diamonds,
    Clubs,
    Spades,
}

/// Card rank, Two up to Ace.  `rank_value` maps each rank to its numeric
/// strength (2 to 14, with the Ace counted high as 14).
#[derive(Debug, Clone, Copy, PartialEq, Eq, Hash, PartialOrd, Ord, Structural)]
pub enum Rank {
    Two,
    Three,
    Four,
    Five,
    Six,
    Seven,
    Eight,
    Nine,
    Ten,
    Jack,
    Queen,
    King,
    Ace,
}

/// The numeric strength of a rank: 2 for Two up to 14 for Ace.
pub open spec fn spec_rank_value(r: Rank) -> u8 {
    match r {
        Rank::Two => 2,
        Rank::Three => 3,
        Rank::Four => 4,
        Rank::Five => 5,
        Rank::Six => 6,
        Rank::Seven => 7,
        Rank::Eight => 8,
        Rank::Nine => 9,
        Rank::Ten => 10,
        Rank::Jack => 11,
        Rank::Queen => 12,
        Rank::King => 13,
        Rank::Ace => 14,
    }
}

/// Numeric strength of a rank, 2 to 14 with Ace high.
pub fn rank_value(r: Rank) -> (v: u8)
    ensures
        v == spec_rank_value(r),
        2 <= v <= 14,
{
    match r {
        Rank::Two => 2,
        Rank::Three => 3,
        Rank::Four => 4,
        Rank::Five => 5,
        Rank::Six => 6,
        Rank::Seven => 7,
        Rank::Eight => 8,
        Rank::Nine => 9,
        Rank::Ten => 10,
        Rank::Jack => 11,
        Rank::Queen => 12,
        Rank::King => 13,
        Rank::Ace => 14,
    }
}

/// An immutable playing card: a (suit, rank) pair.
#[derive(Debug, Clone, Copy, PartialEq, Eq, Hash, Structural)]
pub struct Card {
    pub suit: Suit,
    pub rank: Rank,
}

impl Card {
    pub fn new(suit: Suit, rank: Rank) -> (c: Card)
        ensures
            c.suit == suit,
            c.rank == rank,
    {
        Card { suit, rank }
    }
}

/// The rank that sits at position `i` of a fresh deck's 13-rank run,
/// in ascending strength order.
pub open spec fn rank_at(i: int) -> Rank {
    if i == 0 {
        Rank::Two
    } else if i == 1 {
        Rank::Three
    } else if i == 2 {
        Rank::Four
    } else if i == 3 {
        Rank::Five
    } else if i == 4 {
        Rank::Six
    } else if i == 5 {
        Rank::Seven
    } else if i == 6 {
        Rank::Eight
    } else if i == 7 {
        Rank::Nine
    } else if i == 8 {
        Rank::Ten
    } else if i == 9 {
        Rank::Jack
    } else if i == 10 {
        Rank::Queen
    } else if i == 11 {
        Rank::King
    } else {
        Rank::Ace
    }
}

/// The suit that owns the `i`-th run of 13 cards in a fresh deck.
pub open spec fn suit_at(i: int) -> Suit {
    if i == 0 {
        Suit::Hearts
    } else if i == 1 {
        Suit::Diamonds
    } else if i == 2 {
        Suit::Clubs
    } else {
        Suit::Spades
    }
}

/// The 52 distinct cards of a fresh, unshuffled deck: four suit runs of
/// thirteen ranks each.
pub open spec fn full_deck() -> Seq<Card> {
    Seq::new(52, |i: int| Card { suit: suit_at(i / 13), rank: rank_at(i % 13) })
}

/// A fresh deck holds no card twice.
pub proof fn lemma_full_deck_distinct()
    ensures
        full_deck().len() == 52,
        forall|i: int, j: int|
            0 <= i < j < 52 ==> full_deck()[i] != full_deck()[j],
{
    assert forall|i: int, j: int| 0 <= i < j < 52 implies full_deck()[i] != full_deck()[j] by {
        if i / 13 == j / 13 {
            assert(i % 13 != j % 13) by (nonlinear_arith)
                requires 0 <= i < j < 52 && i / 13 == j / 13;
            assert(rank_at(i % 13) != rank_at(j % 13));
        } else {
            assert(suit_at(i / 13) != suit_at(j / 13)) by {
                assert(0 <= i / 13 <= 3 && 0 <= j / 13 <= 3) by (nonlinear_arith)
                    requires 0 <= i < 52 && 0 <= j < 52;
            }
        }
    }
}

/// An ordered stack of cards; dealing pops from the top (the vector's end).
pub struct Deck {
    pub cards: Vec<Card>,
}

/// Relies on `rand::seq::SliceRandom::shuffle` with `rand::thread_rng`:
/// it permutes the slice in place, so the multiset of cards is unchanged
/// whatever order comes back.
#[verifier::external_body]
fn shuffle_cards(cards: &mut Vec<Card>)
    ensures
        final(cards)@.to_multiset() == old(cards)@.to_multiset(),
{
    let mut rng = rand::thread_rng();
    rand::seq::SliceRandom::shuffle(cards.as_mut_slice(), &mut rng);
}

impl Deck {
    /// A fresh, unshuffled deck of all 52 cards in suit-then-rank order.
    pub fn unshuffled() -> (d: Deck)
        ensures
            d.cards@ == full_deck(),
    {
        let mut cards: Vec<Card> = Vec::new();
        let suits = [Suit::Hearts, Suit::Diamonds, Suit::Clubs, Suit::Spades];
        let mut s: usize = 0;
        while s < 4
            invariant
                s <= 4,
                suits@ =~= seq![Suit::Hearts, Suit::Diamonds, Suit::Clubs, Suit::Spades],
                cards@.len() == 13 * s,
                forall|k: int| 0 <= k < cards@.len() ==> cards@[k] == full_deck()[k],
            decreases 4 - s,
        {
            let mut r: usize = 0;
            while r < 13
                invariant
                    s < 4,
                    r <= 13,
                    suits@ =~= seq![Suit::Hearts, Suit::Diamonds, Suit::Clubs, Suit::Spades],
                    cards@.len() == 13 * s + r,
                    forall|k: int| 0 <= k < cards@.len() ==> cards@[k] == full_deck()[k],
                decreases 13 - r,
            {
                let ranks = [
                    Rank::Two, Rank::Three, Rank::Four, Rank::Five, Rank::Six,
                    Rank::Seven, Rank::Eight, Rank::Nine, Rank::Ten,
                    Rank::Jack, Rank::Queen, Rank::King, Rank::Ace,
                ];
                let card = Card { suit: suits[s], rank: ranks[r] };
                proof {
                    let k = 13 * s + r;
                    assert(k / 13 == s && k % 13 == r) by (nonlinear_arith)
                        requires s < 4 && r < 13 && k == 13 * s + r;
                    assert(card == full_deck()[k as int]);
                }
                cards.push(card);
                r = r + 1;
            }
            s = s + 1;
        }
        assert(cards@ =~= full_deck());
        Deck { cards }
    }

    /// A fresh deck, already shuffled: it holds exactly the 52 distinct
    /// cards, in an arbitrary order.
    pub fn new() -> (d: Deck)
        ensures
            d.cards@.to_multiset() == full_deck().to_multiset(),
    {
        let mut deck = Deck::unshuffled();
        deck.shuffle();
        deck
    }

    /// Reorders the remaining cards; which cards the deck holds is unchanged.
    pub fn shuffle(&mut self)
        ensures
            final(self).cards@.to_multiset() == old(self).cards@.to_multiset(),
    {
        shuffle_cards(&mut self.cards);
    }

    /// Deals the top card, or `None` when the deck is empty.
    pub fn deal(&mut self) -> (c: Option<Card>)
        ensures
            old(self).cards@.len() == 0 ==> c is None && final(self).cards@ == old(self).cards@,
            old(self).cards@.len() > 0 ==> {
                &&& c == Some(old(self).cards@.last())
                &&& final(self).cards@ == old(self).cards@.drop_last()
            },
    {
        self.cards.pop()
    }

    /// How many cards are still in the deck.
    pub fn cards_remaining(&self) -> (n: usize)
        ensures
            n == self.cards@.len(),
    {
        self.cards.len()
    }

    /// Restores all 52 cards and shuffles them.
    pub fn reset(&mut self)
        ensures
            final(self).cards@.to_multiset() == full_deck().to_multiset(),
    {
        *self = Deck::new();
    }
}

impl Default for Deck {
    /// A fresh, unshuffled deck of all 52 cards.
    fn default() -> (d: Deck)
        ensures
            d.cards@ == full_deck(),
    {
        Deck::unshuffled()
    }
}

} // verus!
