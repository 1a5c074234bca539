//! A self-custodial wallet for Dogecoin-family chains and the Bork social
//! protocol carried in OP_RETURN outputs: mnemonic codec, key tree, addresses,
//! payments, message codec, and block scanning, with their contracts proved.
use vstd::prelude::*;

pub mod address;
pub mod bits;
pub mod block;
pub mod cursor;
pub mod hashes;
pub mod keys;
pub mod message;
pub mod mnemonic;
pub mod post;
pub mod protocol;
pub mod request;
pub mod scan;
pub mod tags;
pub mod tx;
pub mod vanity;
pub mod wallet;
