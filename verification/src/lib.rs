//! Rules engine for a teaching Texas Hold'em simulator.
//!
//! The crate owns the deterministic game logic: card and deck management,
//! best-hand evaluation over five to seven cards with tie-breaking, the
//! betting-round state machine, dealer/blind rotation, the hand-phase
//! controller, and the personality-driven AI decision policy.  Rendering,
//! input handling and pacing are left to the embedding application.

pub mod ai_player;
pub mod betting;
pub mod cards;
pub mod game_controller;
pub mod game_state;
pub mod laws;
pub mod player;
pub mod poker_rules;
