//! The server's side of the handshake.
//!
//! The server says hello first. Then it answers requests for its public key bundle until the
//! client says hello, with a key that is authorized and signatures that are accepted; the server
//! signs both hellos, and the connection is established.

use vstd::prelude::*;
use vstd::slice::slice_to_vec;
use vstd::string::StringExecFns;

use crate::client;
use crate::client::ClientFault;
use crate::crypto;
use crate::crypto::sha256_bytes;
use crate::hdlc;
use crate::hdlc::FrameError;
use crate::key_files::AuthorizedKeys;
use crate::keys;
use crate::keys::{
    attach_signature, ConnSign, ConnVerify, PacketSign, PacketVerify, SignError, CONN_SIGNATURE_LEN,
};
use crate::packet;
use crate::packet::{
    with_type, ClientHello, HelloView, Packet, PacketError, PacketView, ServerHello,
    PACKET_TYPE_CLIENT_HELLO, PACKET_TYPE_REQUEST_SERVER_PUBKEY, PACKET_TYPE_SERVER_COMPLETE,
    PACKET_TYPE_SERVER_PUBKEY,
};
use crate::text;
use crate::transport::PayloadTransport;

verus! {

/// Why the handshake failed at the server.
#[derive(Clone, Copy, Debug, PartialEq, Eq, Structural)]
pub enum ServerError {
    /// A frame is broken.
    Frame(FrameError),
    /// A packet is broken or not accepted.
    Packet(PacketError),
    /// A packet of this type came, and neither a request nor a hello.
    Unexpected(u8),
    /// The client's key is not among the authorized ones.
    NotAuthorized,
    /// Signing failed.
    Sign(SignError),
}

impl ServerError {
    /// What `message` says.
    pub open spec fn text(&self) -> Seq<char> {
        match self {
            ServerError::Frame(e) => e.text(),
            ServerError::Packet(e) => e.text(),
            ServerError::Unexpected(t) =>
                "expected RequestServerPubkey or ClientHello, got packet type "@ + text::decimal(
                *t as nat,
            ),
            ServerError::NotAuthorized => "client ConnSign key is not authorized"@,
            ServerError::Sign(e) => e.text(),
        }
    }

    /// Describe the error in words.
    pub fn message(&self) -> (out: String)
        ensures
            out@ == self.text(),
    {
        match self {
            ServerError::Frame(e) => e.message(),
            ServerError::Packet(e) => e.message(),
            ServerError::Unexpected(t) => {
                let mut out = String::from_str(
                    "expected RequestServerPubkey or ClientHello, got packet type ",
                );
                text::push_decimal(&mut out, *t as u64);
                out
            },
            ServerError::NotAuthorized => String::from_str("client ConnSign key is not authorized"),
            ServerError::Sign(e) => e.message(),
        }
    }
}

/// What a client says before the connection is established, as a mathematical value.
#[verifier::ext_equal]
pub enum MessageView {
    Request,
    Hello(HelloView, Seq<u8>),
}

/// What is said of a packet that the server does not take names its type, and what is said of a
/// broken frame or packet is what is wrong with it.
pub proof fn law_server_error_tells_what_came(kind: u8, frame: FrameError, packet: PacketError)
    ensures
        ServerError::Unexpected(kind).text()
            == "expected RequestServerPubkey or ClientHello, got packet type "@ + text::decimal(
            kind as nat,
        ),
        ServerError::Frame(frame).text() == frame.text(),
        ServerError::Packet(packet).text() == packet.text(),
{
}

/// What a client says before the connection is established.
#[derive(Debug)]
pub enum ClientMessage {
    /// The client requests the server's public key bundle.
    Request,
    /// The client says hello, with the wire bytes given. Its signatures have not been looked at.
    Hello(ClientHello, Vec<u8>),
}

impl View for ClientMessage {
    type V = MessageView;

    open spec fn view(&self) -> MessageView {
        match self {
            ClientMessage::Request => MessageView::Request,
            ClientMessage::Hello(hello, wire) => MessageView::Hello(hello@, wire@),
        }
    }
}

/// What the client says in a frame, whatever its signatures are.
pub open spec fn message_in(frame: Seq<u8>) -> Result<MessageView, ServerError> {
    match hdlc::payload_of(frame) {
        Err(e) => Err(ServerError::Frame(e)),
        Ok(wire) => if wire.len() == 0 {
            Err(ServerError::Packet(PacketError::Empty))
        } else if wire[0] == PACKET_TYPE_REQUEST_SERVER_PUBKEY {
            if wire.len() != 1 {
                Err(ServerError::Packet(PacketError::RequestTrailing))
            } else {
                Ok(MessageView::Request)
            }
        } else if wire[0] == PACKET_TYPE_CLIENT_HELLO {
            match packet::peeked_client_hello(wire) {
                Err(e) => Err(ServerError::Packet(e)),
                Ok(hello) => Ok(MessageView::Hello(hello, wire)),
            }
        } else {
            Err(ServerError::Unexpected(wire[0]))
        },
    }
}

/// Whether the server of the challenge `unique` lets in a client that says `hello` with the bytes
/// `wire`: its key is authorized, and its signatures are accepted under that key.
pub open spec fn let_in(
    hello: HelloView,
    wire: Seq<u8>,
    unique: u64,
    authorized_keys: Map<Seq<u8>, Seq<u8>>,
) -> Result<(), ServerError> {
    if !authorized_keys.contains_key(hello.digest) {
        Err(ServerError::NotAuthorized)
    } else {
        match packet::parsed(wire, Some(unique), Some(authorized_keys[hello.digest]), None) {
            Err(e) => Err(ServerError::Packet(e)),
            Ok(_) => Ok(()),
        }
    }
}

/// The frame that holds a signature of the handshake.
pub open spec fn complete_bytes(signature: Seq<u8>) -> Seq<u8> {
    hdlc::frame_of(seq![PACKET_TYPE_SERVER_COMPLETE] + signature)
}

/// The client finds a signature of the handshake in the frame that holds it.
pub proof fn lemma_complete_is_received(signature: Seq<u8>)
    requires
        signature.len() == CONN_SIGNATURE_LEN,
    ensures
        client::server_complete_in(complete_bytes(signature)) == Ok::<Seq<u8>, ClientFault>(
            signature,
        ),
{
    hdlc::law_frame_round_trip(seq![PACKET_TYPE_SERVER_COMPLETE] + signature);
    packet::law_unsigned_packet_round_trip(
        PacketView::ServerComplete(signature),
        None,
        None,
        None,
    );
}

/// Find out what a client says.
pub fn receive_message(frame: &[u8]) -> (r: Result<ClientMessage, ServerError>)
    ensures
        match r {
            Ok(message) => message_in(frame@) == Ok::<MessageView, ServerError>(message@),
            Err(e) => message_in(frame@) == Err::<MessageView, ServerError>(e),
        },
{
    let wire = match hdlc::decode(frame) {
        Ok(wire) => wire,
        Err(e) => return Err(ServerError::Frame(e)),
    };
    let packet_type: u8 = match Packet::peek_type(wire.as_slice()) {
        Ok(t) => t,
        Err(e) => return Err(ServerError::Packet(e)),
    };
    if packet_type == PACKET_TYPE_REQUEST_SERVER_PUBKEY {
        match Packet::deserialize(wire.as_slice(), None, None, None) {
            Ok(_) => Ok(ClientMessage::Request),
            Err(e) => Err(ServerError::Packet(e)),
        }
    } else if packet_type == PACKET_TYPE_CLIENT_HELLO {
        match Packet::peek_client_hello(wire.as_slice()) {
            Ok(hello) => Ok(ClientMessage::Hello(hello, wire)),
            Err(e) => Err(ServerError::Packet(e)),
        }
    } else {
        Err(ServerError::Unexpected(packet_type))
    }
}

/// Return the public key bundle that a client's signatures are to be held against.
pub fn authorized_key<'a>(hello: &ClientHello, authorized_keys: &'a AuthorizedKeys) -> (r: Result<
    &'a [u8],
    ServerError,
>)
    ensures
        match r {
            Ok(key) => authorized_keys@.contains_key(hello@.digest)
                && authorized_keys@[hello@.digest] == key@,
            Err(e) => !authorized_keys@.contains_key(hello@.digest) && e
                == ServerError::NotAuthorized,
        },
{
    let digest = hello.conn_sign_public_key_sha256();
    match authorized_keys.get(&digest) {
        Some(key) => Ok(key),
        None => Err(ServerError::NotAuthorized),
    }
}

/// Return the frame that holds the server's public key bundle.
pub fn pubkey_frame(conn_sign_public_key: &[u8]) -> (frame: Vec<u8>)
    ensures
        frame@ == hdlc::frame_of(seq![PACKET_TYPE_SERVER_PUBKEY] + conn_sign_public_key@),
{
    let wire = with_type(PACKET_TYPE_SERVER_PUBKEY, conn_sign_public_key);
    hdlc::encode(wire.as_slice())
}

/// Return the frame that holds the server's signature of the handshake.
pub fn complete_frame(signature: &[u8]) -> (frame: Vec<u8>)
    ensures
        frame@ == complete_bytes(signature@),
{
    let wire = with_type(PACKET_TYPE_SERVER_COMPLETE, signature);
    hdlc::encode(wire.as_slice())
}

/// A server that has said hello.
pub struct GreetingServer {
    conn_sign_public_key: Vec<u8>,
    unique: u64,
    packet_sign: PacketSign,
    server_hello_wire: Vec<u8>,
}

impl GreetingServer {
    /// The server's public key bundle.
    pub closed spec fn public_key(&self) -> Seq<u8> {
        self.conn_sign_public_key@
    }

    /// The server's challenge.
    pub closed spec fn challenge(&self) -> u64 {
        self.unique
    }

    /// The bytes of the server's hello.
    pub closed spec fn hello_wire(&self) -> Seq<u8> {
        self.server_hello_wire@
    }

    /// The private key for the server's payloads.
    pub closed spec fn packet_private_key(&self) -> Seq<u8> {
        self.packet_sign.private_key()
    }

    /// The public key for the server's payloads.
    pub closed spec fn packet_public_key(&self) -> Seq<u8> {
        self.packet_sign.public_key()
    }

    /// How many payloads have been signed.
    pub closed spec fn sent_count(&self) -> nat {
        self.packet_sign.sign_count()
    }

    /// Say hello with the frame that is returned. `packet_sign` and `unique` are to be fresh.
    pub fn start(conn_sign: &ConnSign, packet_sign: PacketSign, unique: u64) -> (r: Result<
        (Self, Vec<u8>),
        ServerError,
    >)
        ensures
            r matches Ok((server, frame)) && {
                &&& server.public_key() == conn_sign.public_key()
                &&& server.challenge() == unique
                &&& server.packet_private_key() == packet_sign.private_key()
                &&& server.packet_public_key() == packet_sign.public_key()
                &&& server.sent_count() == packet_sign.sign_count()
                &&& packet::unsigned_bytes(
                    PacketView::ServerHello(
                        HelloView {
                            unique,
                            digest: crypto::sha256(conn_sign.public_key()),
                            packet_key: packet_sign.public_key(),
                        },
                    ),
                ) == Ok::<Seq<u8>, PacketError>(server.hello_wire())
                &&& frame@ == hdlc::frame_of(server.hello_wire())
            },
    {
        let conn_sign_public_key = match conn_sign.public_key_bytes() {
            Ok(key) => key,
            Err(e) => return Err(ServerError::Sign(e)),
        };
        let hello = Packet::ServerHello(
            ServerHello::new(
                unique,
                sha256_bytes(conn_sign_public_key.as_slice()),
                packet_sign.public_key_bytes(),
            ),
        );
        assert(hello@ == PacketView::ServerHello(
            HelloView {
                unique,
                digest: crypto::sha256(conn_sign.public_key()),
                packet_key: packet_sign.public_key(),
            },
        ));
        let server_hello_wire = match hello.serialize_unsigned() {
            Ok(wire) => wire,
            Err(e) => return Err(ServerError::Packet(e)),
        };
        let frame = hdlc::encode(server_hello_wire.as_slice());
        Ok((GreetingServer { conn_sign_public_key, unique, packet_sign, server_hello_wire }, frame))
    }

    /// Receive a frame of the client, and do what it asks for: hand out the public key bundle and
    /// go on waiting, or let the client in.
    ///
    /// The signing that establishes a connection may fail by chance: ML-DSA signs with random numbers.
    pub fn receive(
        self,
        frame: &[u8],
        conn_sign: &ConnSign,
        authorized_keys: &AuthorizedKeys,
    ) -> (r: Result<ServerStep, ServerError>)
        ensures
            match message_in(frame@) {
                Err(e) => r == Err::<ServerStep, ServerError>(e),
                Ok(MessageView::Request) => {
                    &&& r matches Ok(ServerStep::Asked(server, reply))
                    &&& server == self
                    &&& reply@ == hdlc::frame_of(
                        seq![PACKET_TYPE_SERVER_PUBKEY] + self.public_key(),
                    )
                },
                Ok(MessageView::Hello(hello, wire)) => match let_in(
                    hello,
                    wire,
                    self.challenge(),
                    authorized_keys@,
                ) {
                    Err(e) => r == Err::<ServerStep, ServerError>(e),
                    Ok(()) => match r {
                        Err(e) => e == ServerError::Sign(SignError::Unspecified),
                        Ok(ServerStep::Asked(_, _)) => false,
                        Ok(ServerStep::Established(session, reply)) => {
                            &&& session.hello() == hello
                            &&& session.transport.private_key() == self.packet_private_key()
                            &&& session.transport.public_key() == self.packet_public_key()
                            &&& session.transport.sent_count() == self.sent_count()
                            &&& session.transport.unsent() == Seq::<u8>::empty()
                            &&& session.transport.peer_key() == hello.packet_key
                            &&& session.transport.received_count() == 0
                            &&& session.transport.open_frame() is None
                            &&& session.transport.unread() == Seq::<u8>::empty()
                            &&& exists|signature: Seq<u8>| #[trigger]
                                complete_bytes(signature) == reply@ && keys::conn_accepted(
                                    conn_sign.public_key(),
                                    Seq::empty(),
                                    signature + (self.hello_wire() + wire),
                                )
                            &&& client::completed(
                                reply@,
                                conn_sign.public_key(),
                                self.hello_wire() + wire,
                            ) == Ok::<(), ClientFault>(())
                        },
                    },
                },
            },
    {
        match receive_message(frame) {
            Err(e) => Err(e),
            Ok(ClientMessage::Request) => {
                let reply = pubkey_frame(self.conn_sign_public_key.as_slice());
                Ok(ServerStep::Asked(self, reply))
            },
            Ok(ClientMessage::Hello(hello, wire)) => {
                let key = match authorized_key(&hello, authorized_keys) {
                    Ok(key) => key,
                    Err(e) => return Err(e),
                };
                let client_conn_verify = ConnVerify::new(slice_to_vec(key));
                match Packet::deserialize(
                    wire.as_slice(),
                    Some(self.unique),
                    Some(&client_conn_verify),
                    None,
                ) {
                    Ok(_) => {},
                    Err(e) => return Err(ServerError::Packet(e)),
                }
                let transcript = attach_signature(
                    self.server_hello_wire.as_slice(),
                    wire.as_slice(),
                );
                match conn_sign.sign_detached(transcript.as_slice()) {
                    Err(e) => Err(ServerError::Sign(e)),
                    Ok(signature) => {
                        let reply = complete_frame(signature.as_slice());
                        proof {
                            lemma_complete_is_received(signature@);
                        }
                        let verify = PacketVerify::new(hello.packet_sign_public_key());
                        Ok(
                            ServerStep::Established(
                                ServerSession {
                                    client_hello: hello,
                                    transport: PayloadTransport::new(self.packet_sign, verify),
                                },
                                reply,
                            ),
                        )
                    },
                }
            },
        }
    }
}

/// What the server does with a frame of the client.
pub enum ServerStep {
    /// Send the frame, and wait for another one.
    Asked(GreetingServer, Vec<u8>),
    /// Send the frame: the connection is established.
    Established(ServerSession, Vec<u8>),
}

/// A connection that the server has established.
pub struct ServerSession {
    /// The client's hello.
    pub client_hello: ClientHello,
    /// The payloads in both directions.
    pub transport: PayloadTransport,
}

impl ServerSession {
    /// The client's hello.
    pub open spec fn hello(&self) -> HelloView {
        self.client_hello@
    }
}

} // verus!
