//! A verified prediction-market ledger: events with mutually exclusive
//! outcomes, wagers against them, and a companion fungible-token ledger that
//! funds and settles those wagers.  The whole state lives in a single storage
//! slot as a deterministic binary encoding; every state transition is a
//! load-validate-mutate-encode-write cycle with growth-only reallocation.

pub mod codec;
pub mod codec_events;
pub mod codec_mint;
pub mod codec_params;
pub mod events;
pub mod handlers;
pub mod laws;
pub mod mint;
pub mod storage;
pub mod types;
pub mod validate;
