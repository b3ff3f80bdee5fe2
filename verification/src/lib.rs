//! The net_crypto layer of the Tox protocol: the secure session between two
//! peers that gives authenticated, encrypted, ordered and reliable delivery
//! of data over UDP and TCP relays.
//!
//! A session is set up by a handshake of four packets. The peer that
//! connects asks for a cookie ([`cookie_request`]) and gets one
//! ([`cookie_response`]); then both peers send each other a handshake packet
//! ([`crypto_handshake`]) with a fresh session key and a base nonce. From
//! the first data packet ([`crypto_data`]) on, the connection is established.
//!
//! Data is numbered and kept in a ring ([`packets_array`]) on both sides:
//! at the sender until the peer confirms it, at the receiver until the
//! application takes it in the order of the numbers ([`data_channel`],
//! [`ordering`]). What gets lost is asked for ([`request`]) and sent again
//! ([`pacing`]).
//!
//! The state of one connection is a [`crypto_connection::CryptoConnection`];
//! [`handshake`], [`data_channel`], [`pacing`], [`timer`] and [`transport`]
//! hold what it does. All connections of a node belong to one
//! [`net_crypto::NetCrypto`]; [`inbound`] and [`schedule`] hold what it does
//! with packets that come in and when the timer drives it.
//!
//! Nothing here touches a socket or reads a clock. Packets come in as
//! values and go out as values, and every function that depends on the time
//! is told the time ([`time`]). The cryptographic primitives come from
//! libsodium ([`crypto_core`], [`secretbox`]).

pub mod binary_io;
pub mod cookie;
pub mod cookie_request;
pub mod cookie_response;
pub mod crypto_connection;
pub mod crypto_core;
pub mod crypto_data;
pub mod crypto_handshake;
pub mod data_channel;
pub mod error;
pub mod handshake;
pub mod inbound;
pub mod ip_addr;
pub mod net_crypto;
pub mod ordering;
pub mod pacing;
pub mod packet;
pub mod packets_array;
pub mod request;
pub mod schedule;
pub mod secretbox;
pub mod time;
pub mod timer;
pub mod transport;
