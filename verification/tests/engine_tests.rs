use teach_poker::ai_player::{
    apply_personality_adjustments, beginner_decision, calculate_pot_odds, decide_with_draws,
    estimate_hand_equity, evaluate_hand_strength, evaluate_preflop_strength,
    intermediate_decision, make_advanced_ai_decision, AIPersonality, HandStrength,
};
use teach_poker::betting::{
    ai_player_system, check_betting_round_complete, make_ai_decision, process_player_action,
    BettingRound, HumanPlayerInput, PlayerAction,
};
use teach_poker::cards::{Card, Deck, Rank, Suit};
use teach_poker::game_controller::{determine_winner, game_state_controller, post_blinds};
use teach_poker::game_state::{GameData, GamePosition, GameState};
use teach_poker::player::{Player, PlayerType};
use teach_poker::poker_rules::{evaluate_hand, HandRank};

fn three_players() -> Vec<Player> {
    vec![
        Player::new(0, PlayerType::Human, 1000),
        Player::new(1, PlayerType::AI, 1000),
        Player::new(2, PlayerType::AI, 1000),
    ]
}

fn total_chips(players: &[Player]) -> u64 {
    players.iter().map(|p| p.chips as u64).sum()
}

/// Representative category ordering: a royal flush beats a straight flush,
/// which beats four of a kind.
#[test]
fn test_category_ordering_representatives() {
    let royal = evaluate_hand(
        &[Card::new(Suit::Hearts, Rank::Ace), Card::new(Suit::Hearts, Rank::King)],
        &[
            Card::new(Suit::Hearts, Rank::Queen),
            Card::new(Suit::Hearts, Rank::Jack),
            Card::new(Suit::Hearts, Rank::Ten),
        ],
    );
    let straight_flush = evaluate_hand(
        &[Card::new(Suit::Spades, Rank::Nine), Card::new(Suit::Spades, Rank::Eight)],
        &[
            Card::new(Suit::Spades, Rank::Seven),
            Card::new(Suit::Spades, Rank::Six),
            Card::new(Suit::Spades, Rank::Five),
        ],
    );
    let quads = evaluate_hand(
        &[Card::new(Suit::Hearts, Rank::Ace), Card::new(Suit::Spades, Rank::Ace)],
        &[
            Card::new(Suit::Clubs, Rank::Ace),
            Card::new(Suit::Diamonds, Rank::Ace),
            Card::new(Suit::Hearts, Rank::King),
        ],
    );
    assert_eq!(royal.rank, HandRank::RoyalFlush);
    assert_eq!(straight_flush.rank, HandRank::StraightFlush);
    assert_eq!(quads.rank, HandRank::FourOfAKind);
    assert!(royal > straight_flush);
    assert!(straight_flush > quads);
}

/// The wheel counts as a straight with primary value 14.
#[test]
fn test_wheel_straight_primary() {
    let eval = evaluate_hand(
        &[Card::new(Suit::Hearts, Rank::Ace), Card::new(Suit::Spades, Rank::Two)],
        &[
            Card::new(Suit::Clubs, Rank::Three),
            Card::new(Suit::Diamonds, Rank::Four),
            Card::new(Suit::Hearts, Rank::Five),
        ],
    );
    assert_eq!(eval.rank, HandRank::Straight);
    assert_eq!(eval.primary_value, 14);
}

/// Chip conservation across a sequence of betting actions: the seats'
/// chips plus the pot never change.
#[test]
fn test_chip_conservation_over_actions() {
    let mut players = three_players();
    let mut round = BettingRound::new(vec![0, 1, 2], 10);
    let start = total_chips(&players) + round.pot as u64;

    process_player_action(&mut players[0], PlayerAction::Call, &mut round);
    assert_eq!(total_chips(&players) + round.pot as u64, start);
    process_player_action(&mut players[1], PlayerAction::Raise(40), &mut round);
    assert_eq!(total_chips(&players) + round.pot as u64, start);
    process_player_action(&mut players[2], PlayerAction::Fold, &mut round);
    assert_eq!(total_chips(&players) + round.pot as u64, start);
    process_player_action(&mut players[0], PlayerAction::Call, &mut round);
    assert_eq!(total_chips(&players) + round.pot as u64, start);
    process_player_action(&mut players[1], PlayerAction::Check, &mut round);
    assert_eq!(total_chips(&players) + round.pot as u64, start);

    // 0 called 20, 1 raised to 60, 0 called up to 60: pot holds 120.
    assert_eq!(round.pot, 120);
    assert_eq!(players[0].chips, 940);
    assert_eq!(players[1].chips, 940);
    assert_eq!(players[2].chips, 1000);
}

/// An unaffordable call or raise becomes an all-in for the lesser amount.
#[test]
fn test_underfunded_actions_become_all_in() {
    let mut short = Player::new(0, PlayerType::AI, 15);
    let mut round = BettingRound::new(vec![0], 10);
    process_player_action(&mut short, PlayerAction::Call, &mut round);
    assert_eq!(short.chips, 0);
    assert_eq!(short.current_bet, 15);
    assert_eq!(round.pot, 15);
    assert_eq!(round.current_bet, 20); // the table's bet is unchanged

    let mut short2 = Player::new(1, PlayerType::AI, 30);
    let mut round2 = BettingRound::new(vec![1], 10);
    process_player_action(&mut short2, PlayerAction::Raise(50), &mut round2);
    assert_eq!(short2.chips, 0);
    assert_eq!(short2.current_bet, 30);
    assert_eq!(round2.pot, 30);
    assert_eq!(round2.current_bet, 20); // a downgraded raise does not lift the bet
    assert_eq!(round2.min_raise, 20);
}

/// A check never moves chips, even when a call is owed.
#[test]
fn test_check_moves_nothing() {
    let mut player = Player::new(0, PlayerType::Human, 500);
    let mut round = BettingRound::new(vec![0], 10);
    process_player_action(&mut player, PlayerAction::Check, &mut round);
    assert_eq!(player.chips, 500);
    assert_eq!(player.current_bet, 0);
    assert_eq!(round.pot, 0);
}

/// Completion rule: three live seats with equal bets and an empty queue
/// complete the round; a single live seat completes it immediately.
#[test]
fn test_completion_three_equal_bets() {
    let mut players = three_players();
    let mut round = BettingRound::new(vec![0, 1, 2], 10);
    while round.next_player().is_some() {}
    for p in players.iter_mut() {
        p.chips -= 20;
        p.current_bet = 20;
    }
    round.betting_complete = false;
    check_betting_round_complete(&players, &mut round);
    assert!(round.betting_complete);
}

#[test]
fn test_completion_single_active_seat() {
    let mut players = three_players();
    players[0].fold();
    players[1].fold();
    // The queue still holds seats, yet the round is complete at once.
    let mut round = BettingRound::new(vec![0, 1, 2], 10);
    check_betting_round_complete(&players, &mut round);
    assert!(round.betting_complete);
    assert!(round.is_complete());
}

/// An unmatched live bet keeps the round open.
#[test]
fn test_completion_unmatched_bet_keeps_round_open() {
    let mut players = three_players();
    players[0].current_bet = 20;
    players[1].current_bet = 5;
    players[2].current_bet = 20;
    let mut round = BettingRound::new(vec![], 10);
    check_betting_round_complete(&players, &mut round);
    assert!(!round.betting_complete);
}

/// End-to-end: blinds post 30 into the pot, everyone but one seat folds
/// before the flop, the showdown is skipped and the survivor collects
/// exactly the pot.
#[test]
fn test_preflop_fold_out_pays_pot_to_survivor() {
    let mut state = GameState::Setup;
    let mut deck = Deck::default();
    let mut data = GameData::default();
    let mut position = GamePosition::default(); // dealer 0, blinds 10/20
    let mut players = three_players();
    let mut round = BettingRound::default();

    game_state_controller(&mut state, &mut deck, &mut data, &mut position, &mut players,
        &mut round);
    assert_eq!(state, GameState::Dealing);

    game_state_controller(&mut state, &mut deck, &mut data, &mut position, &mut players,
        &mut round);
    assert_eq!(state, GameState::PreFlop);
    // Blinds: seat 1 (small) paid 10, seat 2 (big) paid 20, pot is 30.
    assert_eq!(round.pot, 30);
    assert_eq!(players[0].chips, 1000);
    assert_eq!(players[1].chips, 990);
    assert_eq!(players[2].chips, 980);
    assert_eq!(players[0].hole_cards.len(), 2);
    assert_eq!(deck.cards_remaining(), 46);

    // Seats 0 and 1 fold; only seat 2 stays in the hand.
    assert_eq!(round.next_player(), Some(0));
    process_player_action(&mut players[0], PlayerAction::Fold, &mut round);
    assert_eq!(round.next_player(), Some(1));
    process_player_action(&mut players[1], PlayerAction::Fold, &mut round);
    check_betting_round_complete(&players, &mut round);
    assert!(round.betting_complete);

    game_state_controller(&mut state, &mut deck, &mut data, &mut position, &mut players,
        &mut round);
    assert_eq!(state, GameState::Showdown); // the streets are skipped
    assert_eq!(data.pot, 30);

    game_state_controller(&mut state, &mut deck, &mut data, &mut position, &mut players,
        &mut round);
    assert_eq!(state, GameState::GameOver);
    // The survivor collected exactly the pot.
    assert_eq!(players[2].chips, 1010);
    assert_eq!(data.pot, 0);
    assert_eq!(position.dealer_button, 1);
    assert_eq!(total_chips(&players), 3000);

    game_state_controller(&mut state, &mut deck, &mut data, &mut position, &mut players,
        &mut round);
    assert_eq!(state, GameState::Setup); // more than one stack left: next hand
}

/// The showdown pays the single pot to the strongest live hand.
#[test]
fn test_determine_winner_pays_strongest_hand() {
    let mut players = three_players();
    // Seat 0: a pair of aces.  Seat 1: three nines.  Seat 2 folded.
    players[0].add_card(Card::new(Suit::Hearts, Rank::Ace));
    players[0].add_card(Card::new(Suit::Spades, Rank::Ace));
    players[1].add_card(Card::new(Suit::Hearts, Rank::Nine));
    players[1].add_card(Card::new(Suit::Spades, Rank::Nine));
    players[2].add_card(Card::new(Suit::Hearts, Rank::Two));
    players[2].add_card(Card::new(Suit::Clubs, Rank::Four));
    players[2].fold();

    let mut data = GameData::default();
    data.community_cards = vec![
        Card::new(Suit::Clubs, Rank::Nine),
        Card::new(Suit::Diamonds, Rank::King),
        Card::new(Suit::Hearts, Rank::Seven),
        Card::new(Suit::Spades, Rank::Three),
        Card::new(Suit::Clubs, Rank::Jack),
    ];
    data.pot = 150;
    let mut position = GamePosition::default();

    determine_winner(&mut players, &mut data, &mut position);
    assert_eq!(players[1].chips, 1150); // trips beat the pair of aces
    assert_eq!(players[0].chips, 1000);
    assert_eq!(players[2].chips, 1000);
    assert_eq!(data.pot, 0);
    assert_eq!(position.dealer_button, 1);
}

/// A full hand driven to the river with everyone checking reaches the
/// showdown with five community cards and conserves chips.
#[test]
fn test_full_hand_reaches_showdown() {
    let mut state = GameState::Setup;
    let mut deck = Deck::default();
    let mut data = GameData::default();
    let mut position = GamePosition::default();
    let mut players = three_players();
    let mut round = BettingRound::default();

    game_state_controller(&mut state, &mut deck, &mut data, &mut position, &mut players,
        &mut round);
    game_state_controller(&mut state, &mut deck, &mut data, &mut position, &mut players,
        &mut round);
    assert_eq!(state, GameState::PreFlop);

    // Every seat calls the big blind pre-flop, then checks each street.
    for expected in [GameState::Flop, GameState::Turn, GameState::River] {
        while let Some(seat) = round.next_player() {
            let action = if round.current_bet > players[seat as usize].current_bet {
                PlayerAction::Call
            } else {
                PlayerAction::Check
            };
            process_player_action(&mut players[seat as usize], action, &mut round);
        }
        check_betting_round_complete(&players, &mut round);
        assert!(round.betting_complete);
        game_state_controller(&mut state, &mut deck, &mut data, &mut position, &mut players,
            &mut round);
        assert_eq!(state, expected);
    }
    while let Some(seat) = round.next_player() {
        process_player_action(&mut players[seat as usize], PlayerAction::Check, &mut round);
    }
    check_betting_round_complete(&players, &mut round);
    game_state_controller(&mut state, &mut deck, &mut data, &mut position, &mut players,
        &mut round);
    assert_eq!(state, GameState::Showdown);
    assert_eq!(data.community_cards.len(), 5);
    assert_eq!(data.pot, 60); // three seats matched the 20-chip blind

    game_state_controller(&mut state, &mut deck, &mut data, &mut position, &mut players,
        &mut round);
    assert_eq!(state, GameState::GameOver);
    assert_eq!(total_chips(&players), 3000);
}

/// AI determinism: with the random draws fixed, the same inputs give the
/// same action.
#[test]
fn test_ai_determinism_with_fixed_draws() {
    let mut player = Player::new(0, PlayerType::AI, 1000);
    player.add_card(Card::new(Suit::Hearts, Rank::Ace));
    player.add_card(Card::new(Suit::Spades, Rank::Ace));
    let round = BettingRound::new(vec![0, 1, 2], 10);
    let community = vec![
        Card::new(Suit::Clubs, Rank::Ace),
        Card::new(Suit::Diamonds, Rank::King),
        Card::new(Suit::Hearts, Rank::Seven),
    ];
    let personality = AIPersonality::intermediate();
    let a1 = decide_with_draws(&player, &round, &community, &personality, 3, 2, 500, 500, 500);
    let a2 = decide_with_draws(&player, &round, &community, &personality, 3, 2, 500, 500, 500);
    assert_eq!(a1, a2);

    let b1 = decide_with_draws(&player, &round, &community, &personality, 3, 2, 7, 900, 10);
    let b2 = decide_with_draws(&player, &round, &community, &personality, 3, 2, 7, 900, 10);
    assert_eq!(b1, b2);
}

#[test]
fn test_preflop_strength_buckets() {
    let pocket_aces = [
        Card::new(Suit::Hearts, Rank::Ace),
        Card::new(Suit::Spades, Rank::Ace),
    ];
    assert_eq!(evaluate_preflop_strength(&pocket_aces), HandStrength::Strong);
    let pocket_eights = [
        Card::new(Suit::Hearts, Rank::Eight),
        Card::new(Suit::Spades, Rank::Eight),
    ];
    assert_eq!(evaluate_preflop_strength(&pocket_eights), HandStrength::Medium);
    let pocket_threes = [
        Card::new(Suit::Hearts, Rank::Three),
        Card::new(Suit::Spades, Rank::Three),
    ];
    assert_eq!(evaluate_preflop_strength(&pocket_threes), HandStrength::Weak);
    let face_cards = [
        Card::new(Suit::Hearts, Rank::Queen),
        Card::new(Suit::Spades, Rank::Ten),
    ];
    assert_eq!(evaluate_preflop_strength(&face_cards), HandStrength::Medium);
    let rags = [
        Card::new(Suit::Hearts, Rank::Nine),
        Card::new(Suit::Spades, Rank::Four),
    ];
    assert_eq!(evaluate_preflop_strength(&rags), HandStrength::Weak);
}

#[test]
fn test_postflop_strength_buckets() {
    let hole = [
        Card::new(Suit::Hearts, Rank::Ace),
        Card::new(Suit::Spades, Rank::Ace),
    ];
    let community = [
        Card::new(Suit::Clubs, Rank::Ace),
        Card::new(Suit::Diamonds, Rank::King),
        Card::new(Suit::Hearts, Rank::Seven),
    ];
    assert_eq!(evaluate_hand_strength(&hole, &community), HandStrength::Strong);

    let weak_hole = [
        Card::new(Suit::Hearts, Rank::Two),
        Card::new(Suit::Spades, Rank::Five),
    ];
    let dry_board = [
        Card::new(Suit::Clubs, Rank::Nine),
        Card::new(Suit::Diamonds, Rank::King),
        Card::new(Suit::Hearts, Rank::Seven),
    ];
    assert_eq!(evaluate_hand_strength(&weak_hole, &dry_board), HandStrength::Weak);
}

#[test]
fn test_pot_odds_exact_value() {
    let mut round = BettingRound::new(vec![0], 10);
    round.current_bet = 50;
    round.pot = 100;
    let player = Player::new(0, PlayerType::AI, 1000);
    // call 50 into a pot of 150 after the call: 50 * 1000 / 150 = 333.
    assert_eq!(calculate_pot_odds(&round, &player), 333);

    let mut matched = Player::new(1, PlayerType::AI, 1000);
    matched.current_bet = 50;
    assert_eq!(calculate_pot_odds(&round, &matched), 0);
}

#[test]
fn test_hand_equity_exact_values() {
    assert_eq!(estimate_hand_equity(&HandStrength::Weak, 2), 150);
    assert_eq!(estimate_hand_equity(&HandStrength::Medium, 3), 315);
    assert_eq!(estimate_hand_equity(&HandStrength::Strong, 4), 520);
    assert_eq!(estimate_hand_equity(&HandStrength::VeryStrong, 5), 595);
}

#[test]
fn test_beginner_decisions() {
    let round = BettingRound::new(vec![0], 10); // bet to match: 20
    let poor = Player::new(0, PlayerType::AI, 10);
    assert_eq!(beginner_decision(&poor, &round, &HandStrength::Strong), PlayerAction::Fold);

    let mut matched = Player::new(0, PlayerType::AI, 500);
    matched.current_bet = 20;
    assert_eq!(beginner_decision(&matched, &round, &HandStrength::Weak), PlayerAction::Check);

    let rich = Player::new(0, PlayerType::AI, 1000);
    assert_eq!(
        beginner_decision(&rich, &round, &HandStrength::VeryStrong),
        PlayerAction::Raise(20)
    );
    assert_eq!(beginner_decision(&rich, &round, &HandStrength::Strong), PlayerAction::Call);
    assert_eq!(beginner_decision(&rich, &round, &HandStrength::Medium), PlayerAction::Call);
    assert_eq!(beginner_decision(&rich, &round, &HandStrength::Weak), PlayerAction::Fold);
}

#[test]
fn test_intermediate_bets_strong_hands_for_value() {
    let mut round = BettingRound::new(vec![0], 10);
    round.current_bet = 0; // free to act
    let player = Player::new(0, PlayerType::AI, 1000);
    let personality = AIPersonality::intermediate();
    let action = intermediate_decision(&player, &round, &HandStrength::VeryStrong, 0,
        &personality, 3, 2);
    assert_eq!(action, PlayerAction::Raise(40)); // twice the minimum raise

    let weak_action = intermediate_decision(&player, &round, &HandStrength::Weak, 0,
        &personality, 3, 2);
    assert_eq!(weak_action, PlayerAction::Check);
}

#[test]
fn test_personality_adjustments_with_fixed_draws() {
    let round = BettingRound::new(vec![0], 10);
    let aggressive = AIPersonality {
        aggression: 800,
        ..AIPersonality::intermediate()
    };
    // First draw under 100 and second under the aggression: a call swerves
    // into a raise of the minimum raise.
    let a = apply_personality_adjustments(PlayerAction::Call, &aggressive,
        &HandStrength::Medium, &round, 50, 700, 999);
    assert_eq!(a, PlayerAction::Raise(20));

    // A loose profile sometimes calls instead of folding.
    let loose = AIPersonality {
        tightness: 100,
        ..AIPersonality::beginner()
    };
    let b = apply_personality_adjustments(PlayerAction::Fold, &loose,
        &HandStrength::Weak, &round, 50, 500, 999);
    assert_eq!(b, PlayerAction::Call);

    // With the first draw at or over 100, the base decision stands.
    let c = apply_personality_adjustments(PlayerAction::Call, &aggressive,
        &HandStrength::Medium, &round, 100, 0, 999);
    assert_eq!(c, PlayerAction::Call);
}

#[test]
fn test_bluff_on_unopened_pot() {
    let mut round = BettingRound::new(vec![0], 10);
    round.current_bet = 0;
    let bluffer = AIPersonality {
        bluff_frequency: 300,
        ..AIPersonality::intermediate()
    };
    // Third draw under the bluff frequency, weak hand, no bet to face.
    let a = apply_personality_adjustments(PlayerAction::Check, &bluffer,
        &HandStrength::Weak, &round, 999, 999, 100);
    assert_eq!(a, PlayerAction::Raise(20));
}

#[test]
fn test_simple_ai_decision() {
    let round = BettingRound::new(vec![0], 10); // 20 to call
    let rich = Player::new(0, PlayerType::AI, 1000);
    assert_eq!(make_ai_decision(&rich, &round), PlayerAction::Call); // 20 <= 250

    let poor = Player::new(0, PlayerType::AI, 10);
    assert_eq!(make_ai_decision(&poor, &round), PlayerAction::Fold);

    let tight = Player::new(0, PlayerType::AI, 60);
    assert_eq!(make_ai_decision(&tight, &round), PlayerAction::Fold); // 20 > 15

    let mut matched = Player::new(0, PlayerType::AI, 100);
    matched.current_bet = 20;
    assert_eq!(make_ai_decision(&matched, &round), PlayerAction::Check);
}

#[test]
fn test_advanced_ai_returns_action_without_panic() {
    let mut player = Player::new(0, PlayerType::AI, 1000);
    player.add_card(Card::new(Suit::Hearts, Rank::Two));
    player.add_card(Card::new(Suit::Spades, Rank::Seven));
    let round = BettingRound::new(vec![0, 1, 2], 10);
    let personality = AIPersonality::beginner();
    for _ in 0..20 {
        let action = make_advanced_ai_decision(&player, &round, &[], &personality, 3, 0);
        match action {
            PlayerAction::Fold | PlayerAction::Check | PlayerAction::Call
            | PlayerAction::Raise(_) => {},
        }
    }
}

#[test]
fn test_ai_player_system_acts_for_queue_head() {
    let mut players = vec![
        Player::new(0, PlayerType::AI, 1000),
        Player::new(1, PlayerType::AI, 1000),
        Player::new(2, PlayerType::Human, 1000),
    ];
    let personalities: Vec<Option<AIPersonality>> = vec![None, None, None];
    let mut round = BettingRound::new(vec![0, 1, 2], 10);
    let mut human_input = HumanPlayerInput::default();
    let community: Vec<Card> = Vec::new();

    // The simple fallback AI calls 20 out of 1000 chips.
    ai_player_system(&mut players, &personalities, &mut round, GameState::PreFlop,
        &community, &mut human_input);
    assert_eq!(players[0].chips, 980);
    assert_eq!(players[0].current_bet, 20);
    assert_eq!(round.pot, 20);
    assert_eq!(round.players_to_act, vec![1, 2]);

    ai_player_system(&mut players, &personalities, &mut round, GameState::PreFlop,
        &community, &mut human_input);
    assert_eq!(players[1].current_bet, 20);
    assert_eq!(round.players_to_act, vec![2]);

    // The human seat does nothing until an action is submitted.
    ai_player_system(&mut players, &personalities, &mut round, GameState::PreFlop,
        &community, &mut human_input);
    assert_eq!(players[2].chips, 1000);
    assert_eq!(round.players_to_act, vec![2]);

    human_input.pending_action = Some(PlayerAction::Fold);
    ai_player_system(&mut players, &personalities, &mut round, GameState::PreFlop,
        &community, &mut human_input);
    assert!(players[2].has_folded);
    assert!(human_input.pending_action.is_none());
    assert!(round.players_to_act.is_empty());

    // Outside a betting phase the system never moves chips.
    let before = players[0].chips;
    ai_player_system(&mut players, &personalities, &mut round, GameState::Showdown,
        &community, &mut human_input);
    assert_eq!(players[0].chips, before);
}

/// A queue head that names a folded seat is passed over without any chip
/// movement.
#[test]
fn test_ai_player_system_passes_over_folded_head() {
    let mut players = vec![
        Player::new(0, PlayerType::AI, 1000),
        Player::new(1, PlayerType::AI, 1000),
    ];
    players[0].fold();
    let personalities: Vec<Option<AIPersonality>> = vec![None, None];
    let mut round = BettingRound::new(vec![0, 1], 10);
    let mut human_input = HumanPlayerInput::default();
    let community: Vec<Card> = Vec::new();

    ai_player_system(&mut players, &personalities, &mut round, GameState::PreFlop,
        &community, &mut human_input);
    assert_eq!(round.players_to_act, vec![1]);
    assert_eq!(round.pot, 0);
    assert_eq!(players[0].chips, 1000);
    assert_eq!(players[1].chips, 1000);
}

/// Soak test: three AI seats play whole hands end to end with a shuffled
/// deck and live randomness.  On every tick the chips in front of the seats
/// plus the live pot account for every chip at the table, and no card is
/// ever duplicated between the deck, the hole cards and the board.
#[test]
fn test_many_hands_conserve_chips_and_cards() {
    let mut state = GameState::Setup;
    let mut deck = Deck::default();
    let mut data = GameData::default();
    let mut position = GamePosition::default();
    let mut players = vec![
        Player::new(0, PlayerType::AI, 1000),
        Player::new(1, PlayerType::AI, 1000),
        Player::new(2, PlayerType::AI, 1000),
    ];
    let personalities: Vec<Option<AIPersonality>> = vec![
        None,
        Some(AIPersonality::beginner()),
        Some(AIPersonality::intermediate()),
    ];
    let mut round = BettingRound::default();
    let mut human_input = HumanPlayerInput::default();
    let mut hands_played = 0;

    for _ in 0..2000 {
        let betting = matches!(
            state,
            GameState::PreFlop | GameState::Flop | GameState::Turn | GameState::River
        );
        if betting && !round.is_complete() {
            ai_player_system(&mut players, &personalities, &mut round, state,
                &data.community_cards, &mut human_input);
            check_betting_round_complete(&players, &mut round);
        } else {
            let before = state;
            game_state_controller(&mut state, &mut deck, &mut data, &mut position,
                &mut players, &mut round);
            if before == GameState::GameOver {
                hands_played += 1;
            }
        }

        // Chip conservation: every chip is in a stack or in the live pot.
        assert_eq!(total_chips(&players) + round.pot as u64, 3000);

        // Card partition: all 52 cards, no duplicates anywhere.
        let mut seen = std::collections::HashSet::new();
        let mut n_cards = 0;
        for card in deck
            .cards
            .iter()
            .chain(players.iter().flat_map(|p| p.hole_cards.iter()))
            .chain(data.community_cards.iter())
        {
            assert!(seen.insert((card.suit, card.rank as u8)), "duplicate card in play");
            n_cards += 1;
        }
        if state != GameState::Setup && state != GameState::Dealing {
            assert_eq!(n_cards, 52);
        }
    }
    assert!(hands_played >= 3, "several hands should finish in 2000 ticks");
}

#[test]
fn test_post_blinds_clamps_short_stacks() {
    let mut players = vec![
        Player::new(0, PlayerType::Human, 1000),
        Player::new(1, PlayerType::AI, 4),  // cannot cover the small blind
        Player::new(2, PlayerType::AI, 12), // cannot cover the big blind
    ];
    let position = GamePosition::default();
    let mut round = BettingRound::new(vec![0, 1, 2], 10);
    post_blinds(&mut players, &position, &mut round);
    assert_eq!(players[1].chips, 0);
    assert_eq!(players[1].current_bet, 4);
    assert_eq!(players[2].chips, 0);
    assert_eq!(players[2].current_bet, 12);
    assert_eq!(round.pot, 16);
}
