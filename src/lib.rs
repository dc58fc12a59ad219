//! Trustless mental poker over BLS12-381: commutative card masking,
//! verifiable shuffles, audited unmasking and the hand state machine.
pub mod audit;
pub mod bets;
pub mod bls;
pub mod deck;
pub mod error;
pub mod hand;
pub mod lagrange;
pub mod shuffle;
pub mod state;
pub mod table;
