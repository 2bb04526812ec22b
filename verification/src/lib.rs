pub mod kv;
pub mod laws;

pub use crate::kv::KvStore;
