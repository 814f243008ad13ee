//! An ultra-minimal authoritative DNS server library.
//!
//! The query-answering engine decodes an incoming DNS datagram, validates it
//! against the supported protocol subset, resolves each question against a
//! small immutable zone table, and constructs a correctly-coded response.
//! Wire-format coding is delegated to a DNS protocol crate; everything the
//! engine decides is stated and proved here over a plain-value model of the
//! messages.

pub mod bytes;
pub mod codec;
pub mod engine;
pub mod message;
pub mod zone;
pub mod zonefile;

use vstd::prelude::*;

verus! {

/// An IPv4 address as four octets, most significant first.
#[derive(Clone, Copy, PartialEq, Eq, Structural, Debug)]
pub struct Ipv4 {
    pub a: u8,
    pub b: u8,
    pub c: u8,
    pub d: u8,
}

impl Ipv4 {
    pub fn new(a: u8, b: u8, c: u8, d: u8) -> (r: Ipv4)
        ensures
            r == (Ipv4 { a, b, c, d }),
    {
        Ipv4 { a, b, c, d }
    }
}

} // verus!
