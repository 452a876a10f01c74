//! A small double-entry ledger service: books are created with an
//! accounting type, financial operations are split per book, signed against
//! the book's accounting type, summed with saturation, accepted under a fresh
//! operation id and answered with each book's ending balance.

pub mod actors;
pub mod decimal;
pub mod error;
pub mod proto;
pub mod service;
