use teach_poker::betting::{BettingRound, HumanPlayerInput, PlayerAction};
use teach_poker::cards::{Card, Deck, Rank, Suit};
use teach_poker::game_state::GamePosition;
use teach_poker::player::{Player, PlayerType};
use teach_poker::poker_rules::{evaluate_hand, HandRank};

/// Test poker hand evaluation system integration
#[test]
fn test_hand_evaluation_integration() {
    // Test various poker hands to ensure evaluation works correctly

    // Royal Flush
    let hole_cards = vec![
        Card::new(Suit::Hearts, Rank::Ten),
        Card::new(Suit::Hearts, Rank::Jack),
    ];
    let community_cards = vec![
        Card::new(Suit::Hearts, Rank::Queen),
        Card::new(Suit::Hearts, Rank::King),
        Card::new(Suit::Hearts, Rank::Ace),
    ];
    let evaluation = evaluate_hand(&hole_cards, &community_cards);
    assert_eq!(evaluation.rank, HandRank::RoyalFlush);

    // Full House
    let hole_cards = vec![
        Card::new(Suit::Hearts, Rank::Three),
        Card::new(Suit::Clubs, Rank::Three),
    ];
    let community_cards = vec![
        Card::new(Suit::Diamonds, Rank::Three),
        Card::new(Suit::Hearts, Rank::Seven),
        Card::new(Suit::Clubs, Rank::Seven),
    ];
    let evaluation = evaluate_hand(&hole_cards, &community_cards);
    assert_eq!(evaluation.rank, HandRank::FullHouse);

    // High Card
    let hole_cards = vec![
        Card::new(Suit::Hearts, Rank::Two),
        Card::new(Suit::Clubs, Rank::Four),
    ];
    let community_cards = vec![
        Card::new(Suit::Diamonds, Rank::Six),
        Card::new(Suit::Spades, Rank::Eight),
        Card::new(Suit::Hearts, Rank::King),
    ];
    let evaluation = evaluate_hand(&hole_cards, &community_cards);
    assert_eq!(evaluation.rank, HandRank::HighCard);
}

/// Test betting system integration
#[test]
fn test_betting_system_integration() {
    // Create players with different chip amounts
    let _players = vec![
        Player::new(0, PlayerType::Human, 500),
        Player::new(1, PlayerType::AI, 1000),
        Player::new(2, PlayerType::AI, 200),
    ];

    // Initialize betting round
    let betting_round = BettingRound::new(vec![0, 1, 2], 10);

    // Verify betting round is initialized
    assert!(!betting_round.players_to_act.is_empty(), "Should have players ready to act");
    assert_eq!(betting_round.current_bet, 20, "Should have big blind as current bet");
}

/// Test deck and card dealing integration
#[test]
fn test_deck_dealing_integration() {
    // Verify deck starts full
    let mut deck = Deck::default();
    assert_eq!(deck.cards.len(), 52, "Deck should start with 52 cards");

    // Create a player to deal cards to
    let _player = Player::new(0, PlayerType::Human, 1000);

    // Deal some cards directly for testing
    let card1 = deck.deal();
    let card2 = deck.deal();

    assert!(card1.is_some(), "Should be able to deal first card");
    assert!(card2.is_some(), "Should be able to deal second card");
    assert_eq!(deck.cards.len(), 50, "Deck should have 50 cards after dealing 2");
}

/// Test game position and blinds management
#[test]
fn test_game_position_integration() {
    let game_position = GamePosition::default();
    assert_eq!(game_position.dealer_button, 0, "Dealer button should start at player 0");
    assert_eq!(game_position.small_blind_amount, 10, "Small blind should be $10");
    assert_eq!(game_position.big_blind_amount, 20, "Big blind should be $20");
    assert_eq!(game_position.total_players, 3, "Should be configured for 3 players");
}

/// Test the human-input hand-off holder
#[test]
fn test_human_player_input_resource() {
    // Test initial state
    let mut human_input = HumanPlayerInput::default();
    assert!(human_input.pending_action.is_none());
    assert_eq!(human_input.raise_amount, 20); // Default raise amount

    // Test setting pending action
    human_input.pending_action = Some(PlayerAction::Fold);
    human_input.raise_amount = 50;

    // Verify changes persisted
    assert_eq!(human_input.pending_action, Some(PlayerAction::Fold));
    assert_eq!(human_input.raise_amount, 50);
}

/// Test player betting actions integration
#[test]
fn test_player_action_integration() {
    // Create a player
    let mut player = Player::new(0, PlayerType::Human, 1000);

    // Initialize betting round
    let _betting_round = BettingRound::new(vec![0], 10);

    let initial_chips = player.chips;

    // Test manual betting action
    let call_amount = 20;
    if player.chips >= call_amount {
        player.chips -= call_amount;
        player.current_bet += call_amount;
    }

    assert!(player.chips < initial_chips, "Player should have fewer chips after betting");
    assert!(player.current_bet > 0, "Player should have a current bet");
}
