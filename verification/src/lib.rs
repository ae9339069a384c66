//! Secure yet clear-text connections.
//!
//! Everything that is sent can be read by anyone who listens; nothing that is received is taken
//! for genuine unless its signatures are accepted. Long-term connection keys, which sign with
//! ML-DSA and with Ed25519, authenticate both sides of a handshake; temporary Ed25519 keys sign
//! the payloads that follow.
//!
//! The modules, from the bottom up:
//!
//! - [`bytes`] and [`text`]: big-endian numbers, lines, words and decimal numbers.
//! - [`base64`] and [`hdlc`]: binary data as text, and packets as frames in a byte stream.
//! - [`crypto`]: digests and signatures, as the cryptographic library computes them.
//! - [`bundle`], [`key_text`] and [`key_files`]: keys as bytes, as lines and in files.
//! - [`keys`]: signers and verifiers.
//! - [`packet`]: the packets of the protocol.
//! - [`client`], [`server`] and [`transport`]: both sides of the handshake, and the payloads
//!   behind it.
//! - [`shell`] and [`log_level`]: what the programs around the library decide.
//! - [`delivery`], [`file_laws`], [`line_laws`] and [`handshake`]: what holds across the modules.

#![allow(unused_imports)]

pub mod base64;
pub mod bundle;
pub mod bytes;
pub mod client;
pub mod crypto;
pub mod delivery;
pub mod file_laws;
pub mod handshake;
pub mod hdlc;
pub mod key_files;
pub mod key_text;
pub mod keys;
pub mod line_laws;
pub mod log_level;
pub mod packet;
pub mod server;
pub mod shell;
pub mod text;
pub mod transport;

pub use crate::base64::{decode_base64, encode_base64};
pub use crate::crypto::{sha256_bytes, ED25519_PUBLIC_KEY_LEN, SHA256_DIGEST_LEN};
pub use crate::key_text::{
    format_authorized_conn_key, format_known_host, format_sha256_digest, format_sha256_fingerprint,
    parse_authorized_conn_key, parse_known_host, CONN_AUTHORIZED_KEY_KIND,
};
pub use crate::keys::{ConnSign, ConnVerify, PacketSign, PacketVerify};
pub use crate::log_level::LogLevel;
pub use crate::packet::{ClientHello, Packet, ServerComplete, ServerHello, ServerPubkey};
