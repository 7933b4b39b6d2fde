//! Verified core of a CREATE2 salt search: argument validation, byte
//! conversions, hex handling, and the per-salt decision logic.

pub mod bytes;
pub mod config;
pub mod hexcode;
pub mod keccak;
pub mod search;
pub mod text;

pub use config::Config;
pub use hexcode::HexError;
pub use search::{Found, Reward, build_header, evaluate_salt};
