//! Header designs for a transaction envelope that carries its resource budget
//! in the header itself.
//!
//! `v1` and `v2` give a fixed number of budget parameters permanent header
//! slots. `v3` carries any subset of the four parameters behind a one-byte
//! presence mask and pays only for the parameters that are set.

mod outside;
pub mod v1;
pub mod v2;
pub mod v3;
