pub mod error;
pub mod matching;
pub mod contract;
