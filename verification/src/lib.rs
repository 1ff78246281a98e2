//! A verified board module: users publish content-addressed posts, comment on
//! posts, and maintain a bounded observe (follow) list.
//!
//! The state machine lives in [`board`]; records are addressed by the BLAKE2b
//! digest of their canonical encoding ([`encoding`], [`hashing`]), and every
//! per-owner list is a bounded, insertion-ordered sequence ([`bounded`]).

pub mod alist;
pub mod board;
pub mod bounded;
pub mod encoding;
pub mod hashing;
