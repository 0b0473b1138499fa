pub mod block;
pub mod blockchain;
pub mod digests;
pub mod laws;
pub mod transaction;

pub use block::{check_difficulty, Block, Digest};
pub use blockchain::{BlockValidationErr, Blockchain};
pub use transaction::Transaction;
