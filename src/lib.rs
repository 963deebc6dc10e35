//! Rules engine for a Texas Hold'em table whose whole state is one value,
//! handed in and out of every operation. Every operation either returns the
//! new table or refuses with an error and leaves the table as it was.
//!
//! Rules where a table has to choose:
//! - A check is legal only when the player's bet already equals the bet to
//!   match; a call (`Match`) pays the difference.
//! - A hand burns one card before each reveal: three cards after the first
//!   round, then one and one; the showdown follows the round after the fifth.
//! - At the showdown the pot is split evenly among the best hands; the chips
//!   that do not divide evenly stay in the pot for the next hand.
//! - A player who folds leaves the seat and waits on deck for the next hand,
//!   keeping the balance; when one player is left in a hand, that player takes
//!   the pot, the hand ends and the seat indices restart at 0.
//! - A blind larger than the player's balance takes the whole balance.
pub mod cards;
pub mod chips;
pub mod laws;
pub mod poker_contract;
pub mod queries;
pub mod seats;
pub mod showdown;
