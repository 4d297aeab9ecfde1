//! Consensus core of a post-quantum proof-of-stake sidechain.
//!
//! The library covers the interlocking pieces of the consensus layer: the
//! per-validator hash chains whose preimages drive slot randomness, the
//! Merkle commitments over transactions, signature slots and participants,
//! the weighted leader-election lottery, the compact certificate of
//! knowledge (CCoK) that aggregates post-quantum block signatures, and the
//! per-slot blockchain driver that ties them together.

pub mod accounts;
pub mod block;
pub mod blockchain;
pub mod bytesutil;
pub mod ccok;
pub mod config;
pub mod crypto;
pub mod epoch;
pub mod genesis;
pub mod hashchain;
pub mod hexstr;
pub mod mempool;
pub mod merkle;
pub mod p2p;
pub mod transaction;
pub mod utils;
pub mod validator;
pub mod wallet;
