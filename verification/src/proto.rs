//! Telling TLS from plaintext by a stream's first byte.  Reading the
//! byte is the surrounding program's job; the judgement is here.

use vstd::prelude::*;

verus! {

/// The first byte of every TLS record of type handshake.
pub const TLS_START_BYTE: u8 = 22;

/// What a connection's first byte announces.
#[derive(Clone, Copy, Debug, PartialEq, Eq, Structural)]
pub enum Proto {
    Plain,
    Tls,
}

/// Judges a stream by its first byte: a TLS handshake record starts
/// with [`TLS_START_BYTE`]; anything else is taken as plaintext.
pub fn detect(first_byte: u8) -> (r: Proto)
    ensures
        r == (if first_byte == TLS_START_BYTE {
            Proto::Tls
        } else {
            Proto::Plain
        }),
{
    if first_byte == TLS_START_BYTE {
        Proto::Tls
    } else {
        Proto::Plain
    }
}

} // verus!
