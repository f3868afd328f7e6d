//! A practice library for contract-bridge bidding: cards, hands and deals,
//! the auction legality state machine, an exercise tree of partial auctions,
//! and a scheduler that picks the next exercise for a learner.

pub mod auction;
pub mod calls;
pub mod cards;
pub mod deck;
pub mod errors;
pub mod hand;
pub mod session;
pub mod store;
pub mod table;
pub mod text;
