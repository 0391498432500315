//! Table-wide laws of the engine, stated and proved once: the 52-card
//! partition of every deal, chip conservation across whole action
//! sequences, the betting-round completion rule, and the insensitivity of
//! hand evaluation to card order.

use vstd::prelude::*;
use vstd::multiset::Multiset;
use crate::betting::{BettingRound, PlayerAction, SeatView, WagerView, action_ok,
    all_matched, apply_action_seat, apply_action_wager, count_active,
    lemma_apply_action_conserves, round_complete_now};
use crate::cards::{Card, full_deck, lemma_full_deck_distinct};
use crate::game_controller::{cards_partition, holes_ms};
use crate::player::Player;

verus! {

/// Betting-round completion rule: with at most one live seat the round is
/// complete whatever the queue holds, and with the acting queue empty and
/// every live seat matched or all-in it is complete as well.
pub proof fn lemma_completion_rule(players: Seq<Player>, r: BettingRound)
    ensures
        count_active(players) <= 1 ==> round_complete_now(players, r),
        (r.players_to_act@.len() == 0 && all_matched(players, r.current_bet))
            ==> round_complete_now(players, r),
{
}

/// A split of the full deck: one dealt-out part as a sequence, the rest as
/// a multiset.  The sequence part holds no duplicates, nothing in it is
/// also in the rest, and the two parts count 52 cards together.
pub proof fn lemma_full_partition_distinct(a: Seq<Card>, rest: Multiset<Card>)
    requires
        a.to_multiset().add(rest) == full_deck().to_multiset(),
    ensures
        a.no_duplicates(),
        a.len() + rest.len() == 52,
        forall|c: Card| a.contains(c) ==> rest.count(c) == 0,
{
    broadcast use vstd::seq_lib::group_to_multiset_ensures;
    broadcast use vstd::multiset::group_multiset_axioms;

    lemma_full_deck_distinct();
    assert(full_deck().no_duplicates());
    full_deck().lemma_multiset_has_no_duplicates();
    assert forall|c: Card| a.to_multiset().contains(c) implies a.to_multiset().count(c) == 1 by {
        assert(full_deck().to_multiset().count(c)
            == a.to_multiset().count(c) + rest.count(c));
        assert(full_deck().to_multiset().count(c) >= 1);
        assert(full_deck().to_multiset().contains(c));
    }
    a.lemma_multiset_has_no_duplicates_conv();
    assert forall|c: Card| a.contains(c) implies rest.count(c) == 0 by {
        assert(a.to_multiset().count(c) == 1);
        assert(full_deck().to_multiset().count(c)
            == a.to_multiset().count(c) + rest.count(c));
        assert(full_deck().to_multiset().contains(c));
        assert(full_deck().to_multiset().count(c) == 1);
    }
    assert(a.to_multiset().len() + rest.len() == full_deck().to_multiset().len());
    assert(full_deck().to_multiset().len() == 52);
}

/// One seat's hole cards are contained in the combined hole multiset.
pub proof fn lemma_holes_ms_seat(players: Seq<Player>, i: int)
    requires
        0 <= i < players.len(),
    ensures
        forall|c: Card| #[trigger] players[i].hole_cards@.to_multiset().count(c)
            <= holes_ms(players).count(c),
    decreases players.len(),
{
    broadcast use vstd::multiset::group_multiset_axioms;

    if i < players.len() - 1 {
        lemma_holes_ms_seat(players.drop_last(), i);
        assert(players.drop_last()[i] == players[i]);
    }
}

/// The partition law of every deal: while a hand is in play, the deck, the
/// dealt hole cards and the community cards hold exactly the 52 distinct
/// cards between them — no card is missing, duplicated, or in two places.
pub proof fn lemma_deal_partition(deck: Seq<Card>, players: Seq<Player>, community: Seq<Card>)
    requires
        cards_partition(deck, players, community),
    ensures
        deck.no_duplicates(),
        community.no_duplicates(),
        forall|i: int| 0 <= i < players.len()
            ==> (#[trigger] players[i]).hole_cards@.no_duplicates(),
        deck.len() + holes_ms(players).len() + community.len() == 52,
        forall|c: Card| deck.contains(c)
            ==> !community.contains(c) && holes_ms(players).count(c) == 0,
        forall|c: Card| community.contains(c) ==> holes_ms(players).count(c) == 0,
{
    broadcast use vstd::seq_lib::group_to_multiset_ensures;
    broadcast use vstd::multiset::group_multiset_axioms;

    let d = deck.to_multiset();
    let h = holes_ms(players);
    let cm = community.to_multiset();
    assert(d.add(h).add(cm) == full_deck().to_multiset());

    assert(d.add(h.add(cm)) =~= d.add(h).add(cm));
    lemma_full_partition_distinct(deck, h.add(cm));

    assert(cm.add(d.add(h)) =~= d.add(h).add(cm));
    lemma_full_partition_distinct(community, d.add(h));

    assert forall|i: int| 0 <= i < players.len() implies
        (#[trigger] players[i]).hole_cards@.no_duplicates() by {
        lemma_holes_ms_seat(players, i);
        let hi = players[i].hole_cards@.to_multiset();
        let rest = full_deck().to_multiset().sub(hi);
        assert forall|c: Card| hi.count(c) <= full_deck().to_multiset().count(c) by {
            assert(hi.count(c) <= h.count(c));
            assert(full_deck().to_multiset().count(c)
                == d.count(c) + h.count(c) + cm.count(c));
        }
        assert(hi.add(rest) =~= full_deck().to_multiset());
        lemma_full_partition_distinct(players[i].hole_cards@, rest);
    }

    assert(deck.len() + h.len() + community.len() == 52) by {
        assert(deck.len() == d.len());
        assert(community.len() == cm.len());
        assert(d.len() + h.add(cm).len() == 52) by {
            assert(d.add(h.add(cm)) =~= d.add(h).add(cm));
            lemma_full_partition_distinct(deck, h.add(cm));
        }
    }

    assert forall|c: Card| deck.contains(c) implies
        !community.contains(c) && holes_ms(players).count(c) == 0 by {
        assert(h.add(cm).count(c) == 0);
        assert(community.contains(c) ==> cm.count(c) > 0);
    }
    assert forall|c: Card| community.contains(c) implies holes_ms(players).count(c) == 0 by {
        assert(d.add(h).count(c) == 0);
    }
}

/// Total chips sitting in front of a sequence of seats.
pub open spec fn seats_total(seats: Seq<SeatView>) -> int
    decreases seats.len(),
{
    if seats.len() == 0 {
        0
    } else {
        seats_total(seats.drop_last()) + seats.last().chips
    }
}

/// One betting street's whole state: the seats and the wagering totals.
pub struct TableView {
    pub seats: Seq<SeatView>,
    pub wager: WagerView,
}

/// The table after seat `i` performs action `a`.
pub open spec fn step_table(t: TableView, i: int, a: PlayerAction) -> TableView {
    TableView {
        seats: t.seats.update(i, apply_action_seat(t.seats[i], a, t.wager)),
        wager: apply_action_wager(t.seats[i], a, t.wager),
    }
}

/// Every listed action names a real seat and stays within the chip bounds
/// at its point in the sequence.
pub open spec fn actions_ok(t: TableView, actions: Seq<(int, PlayerAction)>) -> bool
    decreases actions.len(),
{
    actions.len() == 0 || {
        &&& 0 <= actions[0].0 < t.seats.len()
        &&& action_ok(t.seats[actions[0].0], actions[0].1, t.wager)
        &&& actions_ok(step_table(t, actions[0].0, actions[0].1), actions.drop_first())
    }
}

/// The table after a whole sequence of actions.
pub open spec fn run_actions(t: TableView, actions: Seq<(int, PlayerAction)>) -> TableView
    decreases actions.len(),
{
    if actions.len() == 0 {
        t
    } else {
        run_actions(step_table(t, actions[0].0, actions[0].1), actions.drop_first())
    }
}

/// Replacing one seat shifts the seats' total by that seat's chip change.
pub proof fn lemma_seats_total_update(seats: Seq<SeatView>, i: int, s2: SeatView)
    requires
        0 <= i < seats.len(),
    ensures
        seats_total(seats.update(i, s2)) == seats_total(seats) - seats[i].chips + s2.chips,
    decreases seats.len(),
{
    let updated = seats.update(i, s2);
    if i == seats.len() - 1 {
        assert(updated.drop_last() =~= seats.drop_last());
    } else {
        assert(updated.drop_last() =~= seats.drop_last().update(i, s2));
        assert(updated.last() == seats.last());
        lemma_seats_total_update(seats.drop_last(), i, s2);
    }
}

/// Chip conservation: over any sequence of actions applied within one
/// betting round, the seats' chips plus the pot never change — no chips are
/// created or destroyed.
pub proof fn lemma_chip_conservation(t: TableView, actions: Seq<(int, PlayerAction)>)
    requires
        actions_ok(t, actions),
    ensures
        seats_total(run_actions(t, actions).seats) + run_actions(t, actions).wager.pot
            == seats_total(t.seats) + t.wager.pot,
    decreases actions.len(),
{
    if actions.len() > 0 {
        let i = actions[0].0;
        let a = actions[0].1;
        lemma_apply_action_conserves(t.seats[i], a, t.wager);
        lemma_seats_total_update(t.seats, i, apply_action_seat(t.seats[i], a, t.wager));
        lemma_chip_conservation(step_table(t, i, a), actions.drop_first());
    }
}

/// Cards of one rank value, as a multiset filter predicate.
pub open spec fn rank_filter(v: u8) -> spec_fn(Card) -> bool {
    |c: Card| crate::cards::spec_rank_value(c.rank) == v
}

/// The rank count of a hand is a function of its card multiset.
pub proof fn lemma_cnt_rank_ms(s: Seq<Card>, v: u8)
    ensures
        crate::poker_rules::cnt_rank(s, v) == s.to_multiset().filter(rank_filter(v)).len(),
    decreases s.len(),
{
    broadcast use vstd::seq_lib::group_to_multiset_ensures;
    broadcast use vstd::multiset::group_multiset_axioms;

    if s.len() == 0 {
        vstd::multiset::lemma_multiset_empty_len(s.to_multiset());
        assert(s.to_multiset() =~= Multiset::<Card>::empty());
        assert(s.to_multiset().filter(rank_filter(v)) =~= Multiset::<Card>::empty());
        vstd::multiset::lemma_multiset_empty_len(s.to_multiset().filter(rank_filter(v)));
    } else {
        let dl = s.drop_last();
        let c = s.last();
        lemma_cnt_rank_ms(dl, v);
        assert(s =~= dl.push(c));
        assert(dl.push(c).to_multiset() =~= dl.to_multiset().insert(c));
        let base = dl.to_multiset().filter(rank_filter(v));
        if rank_filter(v)(c) {
            assert(s.to_multiset().filter(rank_filter(v)) =~= base.insert(c));
            vstd::multiset::lemma_insert_len(base, c);
        } else {
            assert(s.to_multiset().filter(rank_filter(v)) =~= base);
        }
    }
}

/// Hands with the same cards have the same rank counts.
pub proof fn lemma_cnt_rank_permutation(s1: Seq<Card>, s2: Seq<Card>, v: u8)
    requires
        s1.to_multiset() == s2.to_multiset(),
    ensures
        crate::poker_rules::cnt_rank(s1, v) == crate::poker_rules::cnt_rank(s2, v),
{
    lemma_cnt_rank_ms(s1, v);
    lemma_cnt_rank_ms(s2, v);
}

/// Hands with the same cards are flushes together.
pub proof fn lemma_flush_permutation(s1: Seq<Card>, s2: Seq<Card>)
    requires
        s1.to_multiset() == s2.to_multiset(),
    ensures
        crate::poker_rules::is_flush(s1) == crate::poker_rules::is_flush(s2),
{
    broadcast use vstd::seq_lib::group_to_multiset_ensures;
    broadcast use vstd::multiset::group_multiset_axioms;

    assert(s1.len() == s1.to_multiset().len());
    assert(s2.len() == s2.to_multiset().len());
    assert(s1.len() == s2.len());
    if s1.len() == 0 {
    } else {
        if crate::poker_rules::is_flush(s1) {
            assert forall|i: int| 0 <= i < s2.len() implies
                #[trigger] s2[i].suit == s2[0].suit by {
                assert(s2.contains(s2[i]));
                assert(s2.to_multiset().count(s2[i]) > 0);
                assert(s1.to_multiset().count(s2[i]) > 0);
                assert(s1.contains(s2[i]));
                let k = choose|k: int| 0 <= k < s1.len() && s1[k] == s2[i];
                assert(s2.contains(s2[0]));
                assert(s2.to_multiset().count(s2[0]) > 0);
                assert(s1.to_multiset().count(s2[0]) > 0);
                assert(s1.contains(s2[0]));
                let k0 = choose|k: int| 0 <= k < s1.len() && s1[k] == s2[0];
                assert(s1[k].suit == s1[0].suit && s1[k0].suit == s1[0].suit);
            }
        }
        if crate::poker_rules::is_flush(s2) {
            assert forall|i: int| 0 <= i < s1.len() implies
                #[trigger] s1[i].suit == s1[0].suit by {
                assert(s1.contains(s1[i]));
                assert(s1.to_multiset().count(s1[i]) > 0);
                assert(s2.to_multiset().count(s1[i]) > 0);
                assert(s2.contains(s1[i]));
                let k = choose|k: int| 0 <= k < s2.len() && s2[k] == s1[i];
                assert(s1.contains(s1[0]));
                assert(s1.to_multiset().count(s1[0]) > 0);
                assert(s2.to_multiset().count(s1[0]) > 0);
                assert(s2.contains(s1[0]));
                let k0 = choose|k: int| 0 <= k < s2.len() && s2[k] == s1[0];
                assert(s2[k].suit == s2[0].suit && s2[k0].suit == s2[0].suit);
            }
        }
    }
}

/// The five-card classification depends only on which cards the hand holds,
/// never on their order.
pub proof fn lemma_eval5_permutation(s1: Seq<Card>, s2: Seq<Card>)
    requires
        s1.to_multiset() == s2.to_multiset(),
    ensures
        crate::poker_rules::spec_eval5(s1) == crate::poker_rules::spec_eval5(s2),
{
    assert forall|v: int| 0 <= v < 15 implies
        #[trigger] crate::poker_rules::counts_of(s1)[v]
            == crate::poker_rules::counts_of(s2)[v] by {
        lemma_cnt_rank_permutation(s1, s2, v as u8);
    }
    assert(crate::poker_rules::counts_of(s1) =~= crate::poker_rules::counts_of(s2));
    lemma_flush_permutation(s1, s2);
}

/// A subsequence's cards are contained in the sequence's cards.
pub proof fn lemma_subseq_multiset(sub: Seq<Card>, s: Seq<Card>)
    requires
        crate::poker_rules::is_subseq(sub, s),
    ensures
        forall|c: Card| #[trigger] sub.to_multiset().count(c) <= s.to_multiset().count(c),
    decreases s.len(),
{
    broadcast use vstd::seq_lib::group_to_multiset_ensures;
    broadcast use vstd::multiset::group_multiset_axioms;
    broadcast use vstd::seq_lib::lemma_multiset_commutative;

    if sub.len() == 0 {
        vstd::multiset::lemma_multiset_empty_len(sub.to_multiset());
        assert(sub.to_multiset() =~= Multiset::<Card>::empty());
    } else {
        assert(s =~= seq![s[0]] + s.drop_first());
        assert(s.to_multiset() =~= seq![s[0]].to_multiset().add(s.drop_first().to_multiset()));
        assert(seq![s[0]] =~= Seq::<Card>::empty().push(s[0]));
        assert(seq![s[0]].to_multiset() =~= Multiset::<Card>::empty().insert(s[0]));
        if sub[0] == s[0] && crate::poker_rules::is_subseq(sub.drop_first(), s.drop_first()) {
            lemma_subseq_multiset(sub.drop_first(), s.drop_first());
            assert(sub =~= seq![sub[0]] + sub.drop_first());
            assert(sub.to_multiset()
                =~= seq![sub[0]].to_multiset().add(sub.drop_first().to_multiset()));
            assert(seq![sub[0]] =~= Seq::<Card>::empty().push(sub[0]));
            assert(seq![sub[0]].to_multiset() =~= Multiset::<Card>::empty().insert(sub[0]));
        } else {
            lemma_subseq_multiset(sub, s.drop_first());
        }
    }
}

/// Any selection of cards contained in a sequence's cards can be realized
/// as a subsequence of it.
pub proof fn lemma_submultiset_subseq(m: Multiset<Card>, s: Seq<Card>)
    requires
        forall|c: Card| #[trigger] m.count(c) <= s.to_multiset().count(c),
    ensures
        exists|sub: Seq<Card>| #[trigger] crate::poker_rules::is_subseq(sub, s)
            && sub.to_multiset() == m,
    decreases s.len(),
{
    broadcast use vstd::seq_lib::group_to_multiset_ensures;
    broadcast use vstd::multiset::group_multiset_axioms;
    broadcast use vstd::seq_lib::lemma_multiset_commutative;

    if s.len() == 0 {
        vstd::multiset::lemma_multiset_empty_len(s.to_multiset());
        assert(s.to_multiset() =~= Multiset::<Card>::empty());
        assert(m =~= Multiset::<Card>::empty());
        let sub = Seq::<Card>::empty();
        vstd::multiset::lemma_multiset_empty_len(sub.to_multiset());
        assert(crate::poker_rules::is_subseq(sub, s) && sub.to_multiset() =~= m);
    } else {
        let h = s[0];
        let tail = s.drop_first();
        assert(s =~= seq![h] + tail);
        assert(s.to_multiset() =~= seq![h].to_multiset().add(tail.to_multiset()));
        assert(seq![h] =~= Seq::<Card>::empty().push(h));
        assert(seq![h].to_multiset() =~= Multiset::<Card>::empty().insert(h));
        if m.count(h) > 0 {
            let m2 = m.remove(h);
            assert forall|c: Card| #[trigger] m2.count(c) <= tail.to_multiset().count(c) by {
                assert(s.to_multiset().count(c)
                    == tail.to_multiset().count(c) + if c == h { 1int } else { 0int });
            }
            lemma_submultiset_subseq(m2, tail);
            let sub2 = choose|sub: Seq<Card>|
                #[trigger] crate::poker_rules::is_subseq(sub, tail)
                && sub.to_multiset() == m2;
            let sub = seq![h] + sub2;
            assert(sub[0] == h);
            assert(sub.drop_first() =~= sub2);
            assert(crate::poker_rules::is_subseq(sub, s));
            assert(sub.to_multiset() =~= seq![h].to_multiset().add(sub2.to_multiset()));
            assert(sub.to_multiset() =~= m2.insert(h));
            assert(sub.to_multiset() =~= m);
        } else {
            assert forall|c: Card| #[trigger] m.count(c) <= tail.to_multiset().count(c) by {
                assert(s.to_multiset().count(c)
                    == tail.to_multiset().count(c) + if c == h { 1int } else { 0int });
            }
            lemma_submultiset_subseq(m, tail);
            let sub2 = choose|sub: Seq<Card>|
                #[trigger] crate::poker_rules::is_subseq(sub, tail)
                && sub.to_multiset() == m;
            assert(crate::poker_rules::is_subseq(sub2, s)) by {
                if sub2.len() > 0 {
                    assert(crate::poker_rules::is_subseq(sub2, s.drop_first()));
                }
            }
            assert(crate::poker_rules::is_subseq(sub2, s) && sub2.to_multiset() == m);
        }
    }
}

/// Order-independence of hand evaluation: two card lists that hold the same
/// cards — in any order, and split between hole and community cards in any
/// way — have the same best evaluation.
pub proof fn lemma_evaluate_permutation(c1: Seq<Card>, c2: Seq<Card>, e1: crate::poker_rules::EvalView, e2: crate::poker_rules::EvalView)
    requires
        c1.to_multiset() == c2.to_multiset(),
        crate::poker_rules::is_best_eval(c1, e1),
        crate::poker_rules::is_best_eval(c2, e2),
    ensures
        e1 == e2,
{
    broadcast use vstd::seq_lib::group_to_multiset_ensures;
    broadcast use vstd::multiset::group_multiset_axioms;

    assert(c1.len() == c1.to_multiset().len());
    assert(c2.len() == c2.to_multiset().len());
    assert(c1.len() == c2.len());
    if c1.len() == 5 {
        lemma_eval5_permutation(c1, c2);
    } else {
        let sub1 = choose|sub: Seq<Card>|
            sub.len() == 5 && crate::poker_rules::is_subseq(sub, c1)
            && e1 == crate::poker_rules::spec_eval5(sub);
        let sub2 = choose|sub: Seq<Card>|
            sub.len() == 5 && crate::poker_rules::is_subseq(sub, c2)
            && e2 == crate::poker_rules::spec_eval5(sub);
        // Realize sub1 inside c2 and sub2 inside c1, then play each bound
        // against the other.
        lemma_subseq_multiset(sub1, c1);
        lemma_submultiset_subseq(sub1.to_multiset(), c2);
        let sub1b = choose|sub: Seq<Card>|
            #[trigger] crate::poker_rules::is_subseq(sub, c2)
            && sub.to_multiset() == sub1.to_multiset();
        assert(sub1.len() == sub1.to_multiset().len());
        assert(sub1b.len() == sub1b.to_multiset().len());
        assert(sub1b.len() == 5);
        lemma_eval5_permutation(sub1, sub1b);
        assert(crate::poker_rules::eval_le(e1, e2));

        lemma_subseq_multiset(sub2, c2);
        lemma_submultiset_subseq(sub2.to_multiset(), c1);
        let sub2b = choose|sub: Seq<Card>|
            #[trigger] crate::poker_rules::is_subseq(sub, c1)
            && sub.to_multiset() == sub2.to_multiset();
        assert(sub2.len() == sub2.to_multiset().len());
        assert(sub2b.len() == sub2b.to_multiset().len());
        assert(sub2b.len() == 5);
        lemma_eval5_permutation(sub2, sub2b);
        assert(crate::poker_rules::eval_le(e2, e1));

        crate::poker_rules::lemma_eval_le_order(e1, e2, e2);
        assert(e1 =~= e2);
    }
}

} // verus!
