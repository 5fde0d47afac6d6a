//! receipt_verifier: proves Ethereum block receipts fetched from an untrusted
//! RPC provider against the block header's `receiptsRoot`.
//!
//! The verified core lives here; the HTTP service, the JSON-RPC transport and
//! the environment handling stand around it in `app/`.

pub mod api;
pub mod chaos;
pub mod chaos_laws;
pub mod config;
pub mod error;
pub mod json;
pub mod models;
pub mod pointer_laws;
pub mod state;
pub mod text;
pub mod verify;
