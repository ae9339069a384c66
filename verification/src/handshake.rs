//! What holds of the handshake as a whole.

use vstd::prelude::*;

use crate::bytes;
use crate::client;
use crate::client::{Awaited, ClientFault};
use crate::crypto;
use crate::hdlc;
use crate::hdlc::FrameError;
use crate::keys;
use crate::keys::CONN_SIGNATURE_LEN;
use crate::packet;
use crate::packet::{
    HelloView, PacketError, PacketView, PACKET_TYPE_REQUEST_SERVER_PUBKEY,
    PACKET_TYPE_SERVER_HELLO, PACKET_TYPE_SERVER_PUBKEY,
};
use crate::server;
use crate::server::{MessageView, ServerError};

verus! {

/// The bytes of a server's hello.
pub open spec fn server_hello_bytes(hello: HelloView) -> Seq<u8> {
    seq![PACKET_TYPE_SERVER_HELLO] + packet::hello_bytes(hello)
}

/// Between a client and a server that follow the protocol, every frame is understood, and the
/// handshake completes.
///
/// The server has the public key bundle `server_key` and says `server_hello`; the client has
/// `client_key` and says `client_hello`, with the bytes `client_wire` that it signed for the
/// server's challenge; the server lets `client_key` in, and signs both hellos with `signature`.
pub proof fn law_honest_handshake_completes(
    server_key: Seq<u8>,
    server_hello: HelloView,
    client_key: Seq<u8>,
    client_hello: HelloView,
    client_wire: Seq<u8>,
    authorized_keys: Map<Seq<u8>, Seq<u8>>,
    signature: Seq<u8>,
)
    requires
        server_hello.valid(),
        server_hello.digest == crypto::sha256(server_key),
        client_hello.digest == crypto::sha256(client_key),
        packet::parsed(client_wire, Some(server_hello.unique), Some(client_key), None) == Ok::<
            PacketView,
            PacketError,
        >(PacketView::ClientHello(client_hello)),
        authorized_keys.contains_key(client_hello.digest),
        authorized_keys[client_hello.digest] == client_key,
        signature.len() == CONN_SIGNATURE_LEN,
        keys::conn_accepted(
            server_key,
            Seq::empty(),
            signature + (server_hello_bytes(server_hello) + client_wire),
        ),
    ensures
        // The client understands the server's hello.
        client::server_hello_in(hdlc::frame_of(server_hello_bytes(server_hello))) == Ok::<
            (HelloView, Seq<u8>),
            ClientFault,
        >((server_hello, server_hello_bytes(server_hello))),
        // The server understands a request for its public key bundle.
        server::message_in(hdlc::frame_of(seq![PACKET_TYPE_REQUEST_SERVER_PUBKEY])) == Ok::<
            MessageView,
            ServerError,
        >(MessageView::Request),
        // The client understands the answer, and takes the bundle for the announced one.
        client::server_pubkey_in(hdlc::frame_of(seq![PACKET_TYPE_SERVER_PUBKEY] + server_key))
            == Ok::<Seq<u8>, ClientFault>(server_key),
        client::key_checked(server_hello, crypto::sha256(server_key)) == Ok::<(), ClientFault>(()),
        // The server understands the client's hello, and lets the client in.
        server::message_in(hdlc::frame_of(client_wire)) == Ok::<MessageView, ServerError>(
            MessageView::Hello(client_hello, client_wire),
        ),
        server::let_in(client_hello, client_wire, server_hello.unique, authorized_keys) == Ok::<
            (),
            ServerError,
        >(()),
        // The client accepts the server's signature.
        client::completed(
            server::complete_bytes(signature),
            server_key,
            server_hello_bytes(server_hello) + client_wire,
        ) == Ok::<(), ClientFault>(()),
{
    let request = seq![PACKET_TYPE_REQUEST_SERVER_PUBKEY];
    let pubkey = seq![PACKET_TYPE_SERVER_PUBKEY] + server_key;
    hdlc::law_frame_round_trip(server_hello_bytes(server_hello));
    packet::law_unsigned_packet_round_trip(
        PacketView::ServerHello(server_hello),
        None,
        None,
        None,
    );
    hdlc::law_frame_round_trip(request);
    hdlc::law_frame_round_trip(pubkey);
    packet::law_unsigned_packet_round_trip(PacketView::ServerPubkey(server_key), None, None, None);
    hdlc::law_frame_round_trip(client_wire);
    server::lemma_complete_is_received(signature);
}

/// What the server signs determines both hellos, and with them both challenges. So a signature of
/// one handshake, replayed in another, is held against bytes that it was not made for.
pub proof fn law_transcript_injective(
    server_hello: HelloView,
    client_wire: Seq<u8>,
    other_server_hello: HelloView,
    other_client_wire: Seq<u8>,
)
    requires
        server_hello.valid(),
        other_server_hello.valid(),
        server_hello_bytes(server_hello) + client_wire == server_hello_bytes(other_server_hello)
            + other_client_wire,
    ensures
        server_hello == other_server_hello,
        client_wire == other_client_wire,
{
    let a = server_hello_bytes(server_hello);
    let b = server_hello_bytes(other_server_hello);
    bytes::lemma_be_bytes_len(server_hello.unique as nat, 8);
    bytes::lemma_be_bytes_len(other_server_hello.unique as nat, 8);
    assert((a + client_wire).take(73) =~= a);
    assert((b + other_client_wire).take(73) =~= b);
    assert((a + client_wire).skip(73) =~= client_wire);
    assert((b + other_client_wire).skip(73) =~= other_client_wire);
    assert(a.skip(1) =~= packet::hello_bytes(server_hello));
    assert(b.skip(1) =~= packet::hello_bytes(other_server_hello));
    packet::law_hello_round_trip(server_hello, PacketError::Empty);
    packet::law_hello_round_trip(other_server_hello, PacketError::Empty);
}

/// A client whose key is not authorized is refused, whatever it signed.
pub proof fn law_unauthorized_client_is_refused(
    hello: HelloView,
    wire: Seq<u8>,
    unique: u64,
    authorized_keys: Map<Seq<u8>, Seq<u8>>,
)
    requires
        !authorized_keys.contains_key(hello.digest),
    ensures
        server::let_in(hello, wire, unique, authorized_keys) == Err::<(), ServerError>(
            ServerError::NotAuthorized,
        ),
{
}

/// A client that is let in has an authorized key, and both of its signatures are accepted under
/// that key for the server's challenge.
pub proof fn law_client_is_let_in_with_both_signatures(
    frame: Seq<u8>,
    hello: HelloView,
    wire: Seq<u8>,
    unique: u64,
    authorized_keys: Map<Seq<u8>, Seq<u8>>,
)
    requires
        server::message_in(frame) == Ok::<MessageView, ServerError>(
            MessageView::Hello(hello, wire),
        ),
        server::let_in(hello, wire, unique, authorized_keys) is Ok,
    ensures
        authorized_keys.contains_key(hello.digest),
        keys::conn_accepted(
            authorized_keys[hello.digest],
            bytes::be_bytes(unique as nat, 8),
            wire.skip(1),
        ),
{
}

/// What the server makes of a good frame goes by the first byte: 1 alone is a request, 3 starts a
/// hello, and nothing else is taken.
pub proof fn law_server_takes_requests_and_hellos(frame: Seq<u8>, wire: Seq<u8>)
    requires
        hdlc::payload_of(frame) == Ok::<Seq<u8>, FrameError>(wire),
    ensures
        ({
            let message = server::message_in(frame);
            &&& wire.len() == 0 ==> message == Err::<MessageView, ServerError>(
                ServerError::Packet(PacketError::Empty),
            )
            &&& wire.len() > 0 && wire[0] != 1 && wire[0] != 3 ==> message == Err::<
                MessageView,
                ServerError,
            >(ServerError::Unexpected(wire[0]))
            &&& wire.len() == 1 && wire[0] == 1 ==> message == Ok::<MessageView, ServerError>(
                MessageView::Request,
            )
            &&& wire.len() > 1 && wire[0] == 1 ==> message == Err::<MessageView, ServerError>(
                ServerError::Packet(PacketError::RequestTrailing),
            )
            &&& wire.len() > 0 && wire[0] == 3 ==> match packet::peeked_client_hello(wire) {
                Ok(hello) => message == Ok::<MessageView, ServerError>(
                    MessageView::Hello(hello, wire),
                ),
                Err(e) => message == Err::<MessageView, ServerError>(ServerError::Packet(e)),
            }
        }),
{
}

/// A frame that is broken is answered by neither side: what is wrong with it is reported.
pub proof fn law_broken_frame_is_reported(
    frame: Seq<u8>,
    key: Seq<u8>,
    transcript: Seq<u8>,
    error: FrameError,
)
    requires
        hdlc::payload_of(frame) == Err::<Seq<u8>, FrameError>(error),
    ensures
        server::message_in(frame) == Err::<MessageView, ServerError>(ServerError::Frame(error)),
        client::server_hello_in(frame) == Err::<(HelloView, Seq<u8>), ClientFault>(
            ClientFault::Frame(error),
        ),
        client::server_pubkey_in(frame) == Err::<Seq<u8>, ClientFault>(ClientFault::Frame(error)),
        client::completed(frame, key, transcript) == Err::<(), ClientFault>(
            ClientFault::Frame(error),
        ),
{
}

/// A client that says hello is let in exactly where its digest is that of an authorized key and
/// that key accepts both of its signatures for the server's challenge. Otherwise it is told which
/// of the two is missing.
pub proof fn law_client_is_let_in_exactly(
    frame: Seq<u8>,
    hello: HelloView,
    wire: Seq<u8>,
    unique: u64,
    authorized_keys: Map<Seq<u8>, Seq<u8>>,
)
    requires
        server::message_in(frame) == Ok::<MessageView, ServerError>(
            MessageView::Hello(hello, wire),
        ),
    ensures
        ({
            let answer = server::let_in(hello, wire, unique, authorized_keys);
            let known = authorized_keys.contains_key(hello.digest);
            let accepted = keys::conn_accepted(
                authorized_keys[hello.digest],
                bytes::be_bytes(unique as nat, 8),
                wire.subrange(1, 2557),
            );
            &&& known && accepted ==> answer == Ok::<(), ServerError>(())
            &&& known && !accepted ==> answer == Err::<(), ServerError>(
                ServerError::Packet(PacketError::SignatureRejected),
            )
            &&& !known ==> answer == Err::<(), ServerError>(ServerError::NotAuthorized)
        }),
{
    packet::law_no_client_hello(wire);
    packet::law_client_hello_needs_its_signatures(
        wire,
        unique,
        authorized_keys[hello.digest],
        None,
    );
}

/// A client takes a good frame only for the packet that it waits for: the server's hello, its
/// public key bundle or its signature. Any other packet is refused with its description, and bytes
/// that are no packet with what is wrong with them.
pub proof fn law_client_takes_the_awaited_packet(frame: Seq<u8>, wire: Seq<u8>)
    requires
        hdlc::payload_of(frame) == Ok::<Seq<u8>, FrameError>(wire),
    ensures
        ({
            let hello = client::server_hello_in(frame);
            let key = client::server_pubkey_in(frame);
            let complete = client::server_complete_in(frame);
            match packet::parsed(wire, None, None, None) {
                Err(e) => {
                    &&& hello == Err::<(HelloView, Seq<u8>), ClientFault>(ClientFault::Packet(e))
                    &&& key == Err::<Seq<u8>, ClientFault>(ClientFault::Packet(e))
                    &&& complete == Err::<Seq<u8>, ClientFault>(ClientFault::Packet(e))
                },
                Ok(packet) => {
                    let said = packet::description(packet);
                    &&& wire[0] == 0 ==> packet is ServerHello && hello == Ok::<
                        (HelloView, Seq<u8>),
                        ClientFault,
                    >((packet->ServerHello_0, wire))
                    &&& wire[0] != 0 ==> hello == Err::<(HelloView, Seq<u8>), ClientFault>(
                        ClientFault::Unexpected(Awaited::ServerHello, said),
                    )
                    &&& wire[0] == 2 ==> key == Ok::<Seq<u8>, ClientFault>(
                        wire.subrange(1, wire.len() as int),
                    )
                    &&& wire[0] != 2 ==> key == Err::<Seq<u8>, ClientFault>(
                        ClientFault::Unexpected(Awaited::ServerPubkey, said),
                    )
                    &&& wire[0] == 4 ==> complete == Ok::<Seq<u8>, ClientFault>(
                        wire.subrange(1, wire.len() as int),
                    )
                    &&& wire[0] != 4 ==> complete == Err::<Seq<u8>, ClientFault>(
                        ClientFault::Unexpected(Awaited::ServerComplete, said),
                    )
                },
            }
        }),
{
    packet::law_packet_is_read_by_type(wire, None, None, None);
}

/// The handshake completes for the client exactly where the server's signature is one of the
/// transcript under the server's key bundle; another signature is refused as such.
pub proof fn law_client_completes_exactly(
    frame: Seq<u8>,
    signature: Seq<u8>,
    server_key: Seq<u8>,
    transcript: Seq<u8>,
)
    requires
        hdlc::payload_of(frame) == Ok::<Seq<u8>, FrameError>(seq![4u8] + signature),
        signature.len() == 2484,
    ensures
        ({
            let answer = client::completed(frame, server_key, transcript);
            let accepted = keys::conn_accepted(
                server_key,
                Seq::empty(),
                signature + transcript,
            );
            &&& accepted ==> answer == Ok::<(), ClientFault>(())
            &&& !accepted ==> answer == Err::<(), ClientFault>(ClientFault::TranscriptRejected)
        }),
{
    law_client_takes_the_awaited_packet(frame, seq![4u8] + signature);
    packet::law_packet_is_read_by_type(seq![4u8] + signature, None, None, None);
    assert((seq![4u8] + signature).subrange(1, 2485) =~= signature);
}

/// A client goes on with a key bundle exactly where its digest is the announced one.
pub proof fn law_client_checks_the_announced_key(hello: HelloView, key: Seq<u8>)
    ensures
        client::key_checked(hello, crypto::sha256(key)) is Ok <==> crypto::sha256(key)
            == hello.digest,
        crypto::sha256(key) != hello.digest ==> client::key_checked(hello, crypto::sha256(key))
            == Err::<(), ClientFault>(ClientFault::KeyMismatch(hello.digest)),
{
}

} // verus!
