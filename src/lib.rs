//! Elastic-supply ("rebase") accounting for a fungible-token mint.
//!
//! Supply is tracked together with an internal share count so that an
//! authority can rescale the supply while every holder keeps the same
//! proportion of it. Conversions, the rebase step, the wire codec and the
//! instruction processor are all verified against their contracts; the
//! general laws they obey are stated and proved in `laws`.

pub mod error;
pub mod instruction;
pub mod laws;
pub mod processor;
pub mod pubkey;
pub mod state;
pub mod ui;
