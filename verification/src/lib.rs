//! Verified core of a Cashu ecash wallet store.
pub mod text;
pub mod address;
pub mod types;
pub mod capabilities;
pub mod denomination;
pub mod fees;
pub mod pagination;
pub mod dust;
pub mod keyset;
pub mod proof_recovery;
pub mod errors;
pub mod enriched_history;
pub mod quotes;
pub mod sorting;
pub mod proofs;
pub mod store;
pub mod strmap;
pub mod order;
pub mod tracking;
pub mod mpp;
pub mod sync;
pub mod history;
pub mod receive;
pub mod mint_mgmt;
pub mod lightning;
pub mod payment_request;
pub mod cleanup;
pub mod transactions;
pub mod auth_cache;
pub mod auth;
pub mod cache;
pub mod nutzap;
pub mod discovery;
pub mod mint_recovery;
pub mod wallet_init;
pub mod counters;
pub mod recovery;
pub mod offline;
pub mod consolidation;
pub mod seed;
pub mod laws;
