//! Authenticated encryption with associated data over a fixed five-word
//! sponge permutation, in two variants distinguished by their processing
//! rate (8 or 16 bytes per block).

pub mod asconcore;
pub mod laws;
pub mod model;
pub mod params;
pub mod state;
pub mod words;
