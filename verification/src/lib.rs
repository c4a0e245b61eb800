//! Registry-and-governance core of a decentralized token-exchange
//! protocol: a factory that creates and tracks exactly one trading pair
//! per unordered pair of asset handles, the authorization-gated governance
//! state around it (fee switch, fee recipient, fee-setter authority), and
//! the fungible-share ledger each pair uses to account for
//! liquidity-provider ownership.
//!
//! Asset handles, identities and contract addresses are opaque `u64`
//! values under a stable total order; the host that verifies signatures
//! and deploys contract instances stays outside this crate and talks to it
//! through plain values such as [`auth::Authorization`].

pub mod auth;
pub mod errors;
pub mod factory;
pub mod ledger;
