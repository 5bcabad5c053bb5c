//! A two-party escrow swap: a maker locks an amount of one asset in a vault
//! and names the amount of another asset wanted in return; a taker settles
//! the offer by paying the maker and receiving the vault's contents, all at
//! once or not at all.
pub mod error;
pub mod escrow;
pub mod keyed;
pub mod laws;
pub mod ledger;

pub use error::SwapError;
pub use escrow::{Escrow, MakeOffer, Offer, Swap, SwapModel, TakeOffer};
pub use ledger::{Address, Holding, Ledger};
