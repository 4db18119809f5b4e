//! The logic of `dipper`, a command-line client for Ethereum Swarm: chunk
//! handling, stamping, downloads, on-chain postage batches and usage
//! snapshots, each stated by contract and proved.

pub mod amount;
pub mod bytes;
pub mod chain;
pub mod chunkops;
pub mod discover;
pub mod download;
pub mod hashing;
pub mod hexes;
pub mod node;
pub mod retry;
pub mod store;
pub mod streaming;
pub mod table;
pub mod text;
pub mod usage;
pub mod wallet;
