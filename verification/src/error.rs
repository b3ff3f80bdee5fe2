//! The errors of the session layer.

use vstd::prelude::*;

verus! {

/// What can go wrong while a packet is handled or data is sent.
///
/// Only `Timeout`, `NotEstablished` and `WouldBlock` reach the application.
/// Every other error makes the offending packet be dropped in silence.
#[derive(Clone, Copy, Debug, PartialEq, Eq, Structural)]
pub enum Error {
    /// A ciphertext did not pass authentication.
    Decrypt,
    /// A packet breaks the wire format: too short, a wrong tag, an impossible field.
    MalformedPacket,
    /// A cookie is older than its lifetime.
    CookieExpired,
    /// A cookie, a cookie hash or a request id is not the one that was expected.
    CookieMismatch,
    /// A sequence number lies outside the window of the packets array.
    OutOfRange,
    /// The slot of a sequence number is taken already.
    Duplicate,
    /// The retries of a handshake packet are used up.
    Timeout,
    /// Data cannot be sent or received before the connection is established.
    NotEstablished,
    /// The send window is full.
    WouldBlock,
}

} // verus!
