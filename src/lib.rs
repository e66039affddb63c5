//! A chess position model: squares addressed by single-bit markers, a
//! position decoded from its six-field description, and a text diagram.

use vstd::prelude::*;

pub mod castling;
pub mod error;
pub mod fen;
pub mod piece;
pub mod position;
pub mod square;
pub mod text;
