//! A Winternitz one-time signature scheme over tweaked hash chains.

pub mod hasher;
pub mod security;
pub mod params;
pub mod keys;
