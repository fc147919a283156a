//! A blackjack round engine: hand evaluation with soft/hard ace handling,
//! the per-hand action state machine (hit, stand, double, split, surrender),
//! round sequencing over multiple player hands, the dealer's draw-to-17
//! policy, and settlement against per-player balances.

pub mod action;
pub mod game;
pub mod hand;
pub mod player_hand;
pub mod round;
pub mod shoe;

pub use crate::action::Action;
pub use crate::action::PossibleAction;
pub use crate::game::Game;
pub use crate::game::PlayerBalanceError;
pub use crate::hand::Hand;
pub use crate::hand::HandStatus;
pub use crate::hand::hand_message;
pub use crate::player_hand::PlayerHand;
pub use crate::round::Round;
