pub mod block;
pub mod blockchain;
pub mod error;
pub mod laws;
pub mod ledger;
pub mod merkle;
pub mod mining;
pub mod network;
pub mod node;
pub mod num;
pub mod reader;
pub mod sha256;
pub mod signature;
pub mod time;
pub mod transaction;
pub mod user;
pub mod writer;
