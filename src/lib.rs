//! Wager resolution for three table games (a three-dice game, a wheel game and a
//! threshold roll) against a ledger of account balances and a house balance.
pub mod error;
pub mod text;
pub mod outcome;
pub mod sicbo;
pub mod roulette;
pub mod ledger;
