pub mod bitboard;

pub use crate::bitboard::{Bitboard, Square};
