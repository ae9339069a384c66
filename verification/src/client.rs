//! The client's side of the handshake.
//!
//! The client is in one of four states, each a type of its own. What comes from outside (a frame,
//! the server's key out of a cache, the consent of the user together with fresh keys) takes it to
//! the next state, or ends the handshake with an error. Some steps come with a frame to send.
//!
//! ```text
//! GreetedClient --cached_key--> CheckedClient --accepted--> RepliedClient --> ClientSession
//!       |                            ^
//!       +--> RequestingClient -------+
//! ```

use vstd::prelude::*;
use vstd::slice::slice_to_vec;
use vstd::string::StringExecFns;

use crate::bytes;
use crate::crypto;
use crate::crypto::{sha256_bytes, SHA256_DIGEST_LEN};
use crate::hdlc;
use crate::hdlc::FrameError;
use crate::key_text;
use crate::key_text::format_sha256_digest;
use crate::keys;
use crate::keys::{attach_signature, ConnSign, ConnVerify, PacketSign, PacketVerify, SignError};
use crate::packet;
use crate::packet::{
    ClientHello, HelloView, Packet, PacketError, PacketView, ServerHello,
    PACKET_TYPE_REQUEST_SERVER_PUBKEY,
};
use crate::transport::PayloadTransport;

verus! {

/// The packet that the client waits for.
#[derive(Clone, Copy, Debug, PartialEq, Eq, Structural)]
pub enum Awaited {
    ServerHello,
    ServerPubkey,
    ServerComplete,
}

/// Why the handshake failed at the client, as a mathematical value.
pub enum ClientFault {
    Frame(FrameError),
    Packet(PacketError),
    Unexpected(Awaited, Seq<char>),
    KeyMismatch(Seq<u8>),
    TranscriptRejected,
}

/// Why the handshake failed at the client.
#[derive(Debug)]
pub enum ClientError {
    /// A frame is broken.
    Frame(FrameError),
    /// A packet is broken, or cannot be signed.
    Packet(PacketError),
    /// Another packet than the awaited one came, with the description given.
    Unexpected(Awaited, String),
    /// The server's key does not have the digest that its hello announced.
    KeyMismatch([u8; SHA256_DIGEST_LEN]),
    /// The server's signature of the handshake was not accepted.
    TranscriptRejected,
}

impl View for ClientError {
    type V = ClientFault;

    open spec fn view(&self) -> ClientFault {
        match self {
            ClientError::Frame(e) => ClientFault::Frame(*e),
            ClientError::Packet(e) => ClientFault::Packet(*e),
            ClientError::Unexpected(awaited, description) => ClientFault::Unexpected(
                *awaited,
                description@,
            ),
            ClientError::KeyMismatch(digest) => ClientFault::KeyMismatch(digest@),
            ClientError::TranscriptRejected => ClientFault::TranscriptRejected,
        }
    }
}

/// What is said of a fault.
pub open spec fn client_fault_text(fault: ClientFault) -> Seq<char> {
    match fault {
        ClientFault::Frame(e) => e.text(),
        ClientFault::Packet(e) => e.text(),
        ClientFault::Unexpected(Awaited::ServerHello, description) =>
            "expected ServerHello, got "@ + description,
        ClientFault::Unexpected(Awaited::ServerPubkey, description) =>
            "expected ServerPubkey, got "@ + description,
        ClientFault::Unexpected(Awaited::ServerComplete, description) =>
            "expected ServerComplete, got "@ + description,
        ClientFault::KeyMismatch(digest) =>
            "server ConnSign key hash does not match ServerHello digest (presented "@
            + key_text::digest_text(digest) + ")"@,
        ClientFault::TranscriptRejected =>
            "server complete transcript signature verification failed"@,
    }
}

/// What is said of a packet that was not awaited tells which one was, and what came; what is said
/// of a wrong key names a fingerprint; and what is said of a broken frame or packet is what is
/// wrong with it.
pub proof fn law_client_fault_tells_what_came(
    description: Seq<char>,
    digest: Seq<u8>,
    frame: FrameError,
    packet: PacketError,
)
    ensures
        client_fault_text(ClientFault::Unexpected(Awaited::ServerHello, description))
            == "expected ServerHello, got "@ + description,
        client_fault_text(ClientFault::Unexpected(Awaited::ServerPubkey, description))
            == "expected ServerPubkey, got "@ + description,
        client_fault_text(ClientFault::Unexpected(Awaited::ServerComplete, description))
            == "expected ServerComplete, got "@ + description,
        client_fault_text(ClientFault::KeyMismatch(digest))
            == "server ConnSign key hash does not match ServerHello digest (presented "@
            + key_text::digest_text(digest) + ")"@,
        client_fault_text(ClientFault::Frame(frame)) == frame.text(),
        client_fault_text(ClientFault::Packet(packet)) == packet.text(),
{
}

impl ClientError {
    /// Describe the error in words.
    pub fn message(&self) -> (out: String)
        ensures
            out@ == client_fault_text(self@),
    {
        match self {
            ClientError::Frame(e) => e.message(),
            ClientError::Packet(e) => e.message(),
            ClientError::Unexpected(awaited, description) => {
                let mut out = match awaited {
                    Awaited::ServerHello => String::from_str("expected ServerHello, got "),
                    Awaited::ServerPubkey => String::from_str("expected ServerPubkey, got "),
                    Awaited::ServerComplete => String::from_str("expected ServerComplete, got "),
                };
                out.append(description.as_str());
                out
            },
            ClientError::KeyMismatch(digest) => {
                let mut out = String::from_str(
                    "server ConnSign key hash does not match ServerHello digest (presented ",
                );
                out.append(format_sha256_digest(digest).as_str());
                out.append(")");
                out
            },
            ClientError::TranscriptRejected => String::from_str(
                "server complete transcript signature verification failed",
            ),
        }
    }
}

/// The packet in a frame that is not signed.
pub open spec fn unsigned_packet_in(frame: Seq<u8>) -> Result<(PacketView, Seq<u8>), ClientFault> {
    match hdlc::payload_of(frame) {
        Err(e) => Err(ClientFault::Frame(e)),
        Ok(wire) => match packet::parsed(wire, None, None, None) {
            Err(e) => Err(ClientFault::Packet(e)),
            Ok(packet) => Ok((packet, wire)),
        },
    }
}

/// The server's hello in a frame, and its bytes.
pub open spec fn server_hello_in(frame: Seq<u8>) -> Result<(HelloView, Seq<u8>), ClientFault> {
    match unsigned_packet_in(frame) {
        Err(fault) => Err(fault),
        Ok((PacketView::ServerHello(hello), wire)) => Ok((hello, wire)),
        Ok((other, _)) => Err(
            ClientFault::Unexpected(Awaited::ServerHello, packet::description(other)),
        ),
    }
}

/// The server's public key bundle in a frame.
pub open spec fn server_pubkey_in(frame: Seq<u8>) -> Result<Seq<u8>, ClientFault> {
    match unsigned_packet_in(frame) {
        Err(fault) => Err(fault),
        Ok((PacketView::ServerPubkey(key), _)) => Ok(key),
        Ok((other, _)) => Err(
            ClientFault::Unexpected(Awaited::ServerPubkey, packet::description(other)),
        ),
    }
}

/// The server's signature in a frame.
pub open spec fn server_complete_in(frame: Seq<u8>) -> Result<Seq<u8>, ClientFault> {
    match unsigned_packet_in(frame) {
        Err(fault) => Err(fault),
        Ok((PacketView::ServerComplete(signature), _)) => Ok(signature),
        Ok((other, _)) => Err(
            ClientFault::Unexpected(Awaited::ServerComplete, packet::description(other)),
        ),
    }
}

/// Whether a public key bundle with the digest `hash` is the one that the hello announced.
pub open spec fn key_checked(hello: HelloView, hash: Seq<u8>) -> Result<(), ClientFault> {
    if hello.digest == hash {
        Ok(())
    } else {
        Err(ClientFault::KeyMismatch(hello.digest))
    }
}

/// Whether the frame completes a handshake with the given transcript, with a server that has the
/// public key bundle `key`.
pub open spec fn completed(frame: Seq<u8>, key: Seq<u8>, transcript: Seq<u8>) -> Result<
    (),
    ClientFault,
> {
    match server_complete_in(frame) {
        Err(fault) => Err(fault),
        Ok(signature) => if keys::conn_accepted(key, Seq::empty(), signature + transcript) {
            Ok(())
        } else {
            Err(ClientFault::TranscriptRejected)
        },
    }
}

/// Read a packet that is not signed.
fn receive_unsigned(frame: &[u8]) -> (r: Result<(Packet, Vec<u8>), ClientError>)
    ensures
        match r {
            Ok((packet, wire)) => unsigned_packet_in(frame@) == Ok::<
                (PacketView, Seq<u8>),
                ClientFault,
            >((packet@, wire@)) && packet@.valid(),
            Err(e) => unsigned_packet_in(frame@) == Err::<(PacketView, Seq<u8>), ClientFault>(e@),
        },
{
    let wire = match hdlc::decode(frame) {
        Ok(wire) => wire,
        Err(e) => return Err(ClientError::Frame(e)),
    };
    match Packet::deserialize(wire.as_slice(), None, None, None) {
        Ok(packet) => Ok((packet, wire)),
        Err(e) => Err(ClientError::Packet(e)),
    }
}

/// Return whether a public key bundle with the digest `hash` is the one that the server's hello
/// announced.
pub fn check_key_digest(hello: &ServerHello, hash: &[u8; SHA256_DIGEST_LEN]) -> (r: Result<
    (),
    ClientError,
>)
    ensures
        match r {
            Ok(()) => key_checked(hello@, hash@) == Ok::<(), ClientFault>(()),
            Err(e) => key_checked(hello@, hash@) == Err::<(), ClientFault>(e@),
        },
{
    let digest = hello.conn_sign_public_key_sha256();
    if bytes::same(digest.as_slice(), hash.as_slice()) {
        Ok(())
    } else {
        Err(ClientError::KeyMismatch(digest))
    }
}

/// Return what to make of a handshake, once it is known whether the server's signature of the
/// transcript was accepted.
pub fn transcript_verdict(accepted: bool) -> (r: Result<(), ClientError>)
    ensures
        accepted ==> r == Ok::<(), ClientError>(()),
        !accepted ==> r == Err::<(), ClientError>(ClientError::TranscriptRejected),
{
    if accepted {
        Ok(())
    } else {
        Err(ClientError::TranscriptRejected)
    }
}

/// Return the frame that requests the server's public key bundle.
pub fn pubkey_request_frame() -> (frame: Vec<u8>)
    ensures
        frame@ == hdlc::frame_of(seq![PACKET_TYPE_REQUEST_SERVER_PUBKEY]),
{
    let wire: [u8; 1] = [PACKET_TYPE_REQUEST_SERVER_PUBKEY];
    assert(wire@ =~= seq![PACKET_TYPE_REQUEST_SERVER_PUBKEY]);
    hdlc::encode(wire.as_slice())
}

/// A client that has the server's hello.
pub struct GreetedClient {
    server_hello: ServerHello,
    server_hello_wire: Vec<u8>,
}

impl GreetedClient {
    /// The server's hello.
    pub closed spec fn hello(&self) -> HelloView {
        self.server_hello@
    }

    /// The bytes of the server's hello.
    pub closed spec fn hello_wire(&self) -> Seq<u8> {
        self.server_hello_wire@
    }

    /// Receive the server's hello.
    pub fn receive_server_hello(frame: &[u8]) -> (r: Result<Self, ClientError>)
        ensures
            match r {
                Ok(client) => server_hello_in(frame@) == Ok::<(HelloView, Seq<u8>), ClientFault>(
                    (client.hello(), client.hello_wire()),
                ) && client.hello().valid(),
                Err(e) => server_hello_in(frame@) == Err::<(HelloView, Seq<u8>), ClientFault>(e@),
            },
    {
        match receive_unsigned(frame) {
            Err(e) => Err(e),
            Ok((packet, server_hello_wire)) => match packet {
                Packet::ServerHello(server_hello) => Ok(
                    GreetedClient { server_hello, server_hello_wire },
                ),
                other => Err(ClientError::Unexpected(Awaited::ServerHello, other.describe())),
            },
        }
    }

    /// Return the server's hello.
    pub fn server_hello(&self) -> (hello: &ServerHello)
        ensures
            hello@ == self.hello(),
    {
        &self.server_hello
    }

    /// Go on with a public key bundle that the client had already. It is the only one allowed.
    pub fn cached_key(self, server_key: Vec<u8>) -> (r: Result<CheckedClient, ClientError>)
        ensures
            match r {
                Ok(client) => {
                    &&& key_checked(self.hello(), crypto::sha256(server_key@)) is Ok
                    &&& client.hello() == self.hello()
                    &&& client.hello_wire() == self.hello_wire()
                    &&& client.key() == server_key@
                },
                Err(e) => key_checked(self.hello(), crypto::sha256(server_key@)) == Err::<
                    (),
                    ClientFault,
                >(e@),
            },
    {
        let hash = sha256_bytes(server_key.as_slice());
        match check_key_digest(&self.server_hello, &hash) {
            Err(e) => Err(e),
            Ok(()) => Ok(
                CheckedClient {
                    server_hello: self.server_hello,
                    server_hello_wire: self.server_hello_wire,
                    server_key,
                },
            ),
        }
    }

    /// Go on without a public key bundle: request it with the frame that is returned.
    pub fn no_cached_key(self) -> (r: (RequestingClient, Vec<u8>))
        ensures
            r.0.hello() == self.hello(),
            r.0.hello_wire() == self.hello_wire(),
            r.1@ == hdlc::frame_of(seq![PACKET_TYPE_REQUEST_SERVER_PUBKEY]),
    {
        (RequestingClient { greeted: self }, pubkey_request_frame())
    }
}

/// A client that waits for the server's public key bundle.
pub struct RequestingClient {
    greeted: GreetedClient,
}

impl RequestingClient {
    /// The server's hello.
    pub closed spec fn hello(&self) -> HelloView {
        self.greeted.hello()
    }

    /// The bytes of the server's hello.
    pub closed spec fn hello_wire(&self) -> Seq<u8> {
        self.greeted.hello_wire()
    }

    /// Receive the server's public key bundle.
    pub fn receive_server_pubkey(self, frame: &[u8]) -> (r: Result<CheckedClient, ClientError>)
        ensures
            match server_pubkey_in(frame@) {
                Err(fault) => r matches Err(e) && e@ == fault,
                Ok(key) => match r {
                    Ok(client) => {
                        &&& key_checked(self.hello(), crypto::sha256(key)) is Ok
                        &&& client.hello() == self.hello()
                        &&& client.hello_wire() == self.hello_wire()
                        &&& client.key() == key
                    },
                    Err(e) => key_checked(self.hello(), crypto::sha256(key)) == Err::<
                        (),
                        ClientFault,
                    >(e@),
                },
            },
    {
        match receive_unsigned(frame) {
            Err(e) => Err(e),
            Ok((packet, _)) => match packet {
                Packet::ServerPubkey(key) => self.greeted.cached_key(
                    slice_to_vec(key.conn_sign_public_key()),
                ),
                other => Err(ClientError::Unexpected(Awaited::ServerPubkey, other.describe())),
            },
        }
    }
}

/// A client that has the public key bundle which the server's hello announced, and waits for the
/// consent of the application.
pub struct CheckedClient {
    server_hello: ServerHello,
    server_hello_wire: Vec<u8>,
    server_key: Vec<u8>,
}

impl CheckedClient {
    /// The server's hello.
    pub closed spec fn hello(&self) -> HelloView {
        self.server_hello@
    }

    /// The bytes of the server's hello.
    pub closed spec fn hello_wire(&self) -> Seq<u8> {
        self.server_hello_wire@
    }

    /// The server's public key bundle.
    pub closed spec fn key(&self) -> Seq<u8> {
        self.server_key@
    }

    /// Return the server's hello.
    pub fn server_hello(&self) -> (hello: &ServerHello)
        ensures
            hello@ == self.hello(),
    {
        &self.server_hello
    }

    /// Return the server's public key bundle.
    pub fn server_key(&self) -> (key: &[u8])
        ensures
            key@ == self.key(),
    {
        self.server_key.as_slice()
    }

    /// Go on with the application's consent: say hello to the server with the frame that is
    /// returned. `packet_sign` and `unique` are to be fresh.
    ///
    /// ML-DSA signs with random numbers, and may fail by chance.
    pub fn accepted(self, conn_sign: &ConnSign, packet_sign: PacketSign, unique: u64) -> (r: Result<
        (RepliedClient, Vec<u8>),
        ClientError,
    >)
        ensures
            match r {
                Ok((client, frame)) => {
                    &&& client.hello() == self.hello()
                    &&& client.hello_wire() == self.hello_wire()
                    &&& client.key() == self.key()
                    &&& client.packet_private_key() == packet_sign.private_key()
                    &&& client.packet_public_key() == packet_sign.public_key()
                    &&& client.sent_count() == packet_sign.sign_count()
                    &&& frame@ == hdlc::frame_of(client.client_hello_wire())
                    &&& packet::parsed(
                        client.client_hello_wire(),
                        Some(self.hello().unique),
                        Some(conn_sign.public_key()),
                        None,
                    ) == Ok::<PacketView, PacketError>(
                        PacketView::ClientHello(
                            HelloView {
                                unique,
                                digest: crypto::sha256(conn_sign.public_key()),
                                packet_key: packet_sign.public_key(),
                            },
                        ),
                    )
                },
                Err(e) => e@ == ClientFault::Packet(PacketError::Sign(SignError::Unspecified)),
            },
    {
        let client_key = match conn_sign.public_key_bytes() {
            Ok(key) => key,
            Err(e) => return Err(ClientError::Packet(PacketError::Sign(e))),
        };
        let hello = Packet::ClientHello(
            ClientHello::new(
                unique,
                sha256_bytes(client_key.as_slice()),
                packet_sign.public_key_bytes(),
            ),
        );
        let client_hello_wire = match hello.serialize_conn_signed(
            conn_sign,
            self.server_hello.unique(),
        ) {
            Ok(wire) => wire,
            Err(e) => return Err(ClientError::Packet(e)),
        };
        let frame = hdlc::encode(client_hello_wire.as_slice());
        assert(hello@ == PacketView::ClientHello(
            HelloView {
                unique,
                digest: crypto::sha256(conn_sign.public_key()),
                packet_key: packet_sign.public_key(),
            },
        ));
        Ok(
            (
                RepliedClient {
                    server_hello: self.server_hello,
                    server_hello_wire: self.server_hello_wire,
                    server_key: self.server_key,
                    client_hello_wire,
                    packet_sign,
                },
                frame,
            ),
        )
    }
}

/// A client that waits for the server's signature of the handshake.
pub struct RepliedClient {
    server_hello: ServerHello,
    server_hello_wire: Vec<u8>,
    server_key: Vec<u8>,
    client_hello_wire: Vec<u8>,
    packet_sign: PacketSign,
}

impl RepliedClient {
    /// The server's hello.
    pub closed spec fn hello(&self) -> HelloView {
        self.server_hello@
    }

    /// The bytes of the server's hello.
    pub closed spec fn hello_wire(&self) -> Seq<u8> {
        self.server_hello_wire@
    }

    /// The server's public key bundle.
    pub closed spec fn key(&self) -> Seq<u8> {
        self.server_key@
    }

    /// The bytes of the client's hello.
    pub closed spec fn client_hello_wire(&self) -> Seq<u8> {
        self.client_hello_wire@
    }

    /// The private key for the client's payloads.
    pub closed spec fn packet_private_key(&self) -> Seq<u8> {
        self.packet_sign.private_key()
    }

    /// The public key for the client's payloads.
    pub closed spec fn packet_public_key(&self) -> Seq<u8> {
        self.packet_sign.public_key()
    }

    /// How many payloads have been signed.
    pub closed spec fn sent_count(&self) -> nat {
        self.packet_sign.sign_count()
    }

    /// Receive the server's signature of the handshake: of the bytes of the server's hello and of
    /// those of the client's hello behind them.
    pub fn receive_server_complete(self, frame: &[u8]) -> (r: Result<ClientSession, ClientError>)
        ensures
            match completed(frame@, self.key(), self.hello_wire() + self.client_hello_wire()) {
                Err(fault) => r matches Err(e) && e@ == fault,
                Ok(()) => {
                    &&& r matches Ok(session)
                    &&& session.hello() == self.hello()
                    &&& session.transport.private_key() == self.packet_private_key()
                    &&& session.transport.public_key() == self.packet_public_key()
                    &&& session.transport.sent_count() == self.sent_count()
                    &&& session.transport.unsent() == Seq::<u8>::empty()
                    &&& session.transport.peer_key() == self.hello().packet_key
                    &&& session.transport.received_count() == 0
                    &&& session.transport.open_frame() is None
                    &&& session.transport.unread() == Seq::<u8>::empty()
                },
            },
    {
        let complete = match receive_unsigned(frame) {
            Err(e) => return Err(e),
            Ok((packet, _)) => match packet {
                Packet::ServerComplete(complete) => complete,
                other => return Err(
                    ClientError::Unexpected(Awaited::ServerComplete, other.describe()),
                ),
            },
        };
        let transcript = attach_signature(
            self.server_hello_wire.as_slice(),
            self.client_hello_wire.as_slice(),
        );
        let server_conn_verify = ConnVerify::new(self.server_key);
        let accepted: bool = server_conn_verify.verify_detached(
            complete.signature(),
            transcript.as_slice(),
        );
        match transcript_verdict(accepted) {
            Err(e) => Err(e),
            Ok(()) => {
                let verify = PacketVerify::new(self.server_hello.packet_sign_public_key());
                Ok(
                    ClientSession {
                        server_hello: self.server_hello,
                        transport: PayloadTransport::new(self.packet_sign, verify),
                    },
                )
            },
        }
    }
}

/// A connection that the client has established.
pub struct ClientSession {
    /// The server's hello.
    pub server_hello: ServerHello,
    /// The payloads in both directions.
    pub transport: PayloadTransport,
}

impl ClientSession {
    /// The server's hello.
    pub open spec fn hello(&self) -> HelloView {
        self.server_hello@
    }
}

} // verus!
