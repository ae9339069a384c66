use axsh::client::{
    check_key_digest, pubkey_request_frame, transcript_verdict, Awaited, CheckedClient,
    ClientError, ClientSession, GreetedClient,
};
use axsh::hdlc;
use axsh::key_files::{authorize, AuthorizedKeys};
use axsh::keys::SignError;
use axsh::packet::PacketError;
use axsh::server::{
    authorized_key, complete_frame, pubkey_frame, receive_message, ClientMessage, GreetingServer,
    ServerError, ServerSession, ServerStep,
};
use axsh::transport::{expect_payload, PayloadTransport, ReadPoll, Remainder, TransportError};
use axsh::{sha256_bytes, ClientHello, ConnSign, Packet, PacketSign, ServerHello};

fn authorized_keys(conn_sign: &ConnSign) -> AuthorizedKeys {
    authorize(&[conn_sign.public_key_bytes().unwrap()])
}

fn asked(step: ServerStep) -> (GreetingServer, Vec<u8>) {
    match step {
        ServerStep::Asked(server, frame) => (server, frame),
        ServerStep::Established(_, _) => panic!("established without a hello"),
    }
}

fn established(step: ServerStep) -> (ServerSession, Vec<u8>) {
    match step {
        ServerStep::Established(session, frame) => (session, frame),
        ServerStep::Asked(_, _) => panic!("asked in place of a hello"),
    }
}

/// Run the handshake up to the point where the client asks the application.
fn greet_and_request(server_conn_sign: &ConnSign, keys: &AuthorizedKeys) -> (GreetingServer, CheckedClient) {
    let (server, hello) =
        GreetingServer::start(server_conn_sign, PacketSign::new().unwrap(), 17).unwrap();
    let client = GreetedClient::receive_server_hello(&hello).unwrap();
    assert_eq!(client.server_hello().unique(), 17);
    let (client, request) = client.no_cached_key();
    let (server, reply) = asked(server.receive(&request, server_conn_sign, keys).unwrap());
    let client = client.receive_server_pubkey(&reply).unwrap();
    (server, client)
}

fn connect(
    server_conn_sign: &ConnSign,
    client_conn_sign: &ConnSign,
) -> (ServerSession, ClientSession) {
    let keys = authorized_keys(client_conn_sign);
    let (server, client) = greet_and_request(server_conn_sign, &keys);
    let (client, hello) = client
        .accepted(client_conn_sign, PacketSign::new().unwrap(), 23)
        .unwrap();
    let (server, complete) =
        established(server.receive(&hello, server_conn_sign, &keys).unwrap());
    let client = client.receive_server_complete(&complete).unwrap();
    (server, client)
}

/// Move everything that one side has to send to the other side.
fn deliver(from: &mut PayloadTransport, to: &mut PayloadTransport, piece: usize) {
    while !from.pending_write().is_empty() {
        let n = piece.min(from.pending_write().len());
        let bytes = from.pending_write()[..n].to_vec();
        from.advance_write(n).unwrap();
        for byte in bytes {
            if let Some(frame) = to.push_byte(byte) {
                to.accept_frame(&frame).unwrap();
            }
        }
    }
}

#[test]
fn client_and_server_streams_handshake_and_transport_payloads() {
    let server_conn_sign = ConnSign::new().unwrap();
    let client_conn_sign = ConnSign::new().unwrap();
    let expected_client_key = client_conn_sign.public_key_bytes().unwrap();
    let (mut server, mut client) = connect(&server_conn_sign, &client_conn_sign);
    assert_eq!(
        server.client_hello.conn_sign_public_key_sha256(),
        sha256_bytes(&expected_client_key)
    );
    assert_eq!(server.client_hello.unique(), 23);
    assert_eq!(client.server_hello.unique(), 17);

    for payload in [b"server payload one".as_slice(), b"server payload two"] {
        assert_eq!(server.transport.write(payload).unwrap(), payload.len());
        deliver(&mut server.transport, &mut client.transport, 7);
        assert!(client.transport.has_unread());
        assert_eq!(client.transport.read(6), b"server");
        assert_eq!(client.transport.read(100), payload[6..].to_vec());
        assert!(!client.transport.has_unread());
    }
    for payload in [b"client payload one".as_slice(), b"client payload two"] {
        assert_eq!(client.transport.write(payload).unwrap(), payload.len());
        deliver(&mut client.transport, &mut server.transport, 1000);
        assert_eq!(server.transport.read(payload.len()), payload);
    }
    assert_eq!(server.transport.sent(), 2);
    assert_eq!(server.transport.received(), 2);
    assert_eq!(client.transport.sent(), 2);
    assert_eq!(client.transport.received(), 2);
}

#[test]
fn cached_key_with_another_digest_is_refused() {
    let server_conn_sign = ConnSign::new().unwrap();
    let (_, hello) =
        GreetingServer::start(&server_conn_sign, PacketSign::new().unwrap(), 1).unwrap();
    let client = GreetedClient::receive_server_hello(&hello).unwrap();
    let other_key = ConnSign::new().unwrap().public_key_bytes().unwrap();
    match client.cached_key(other_key) {
        Err(err) => assert!(
            err.message().contains("ServerHello digest"),
            "unexpected error: {}",
            err.message()
        ),
        Ok(_) => panic!("client accepted unexpected server key"),
    }
}

#[test]
fn client_stream_requests_server_pubkey_when_unknown() {
    let server_conn_sign = ConnSign::new().unwrap();
    let client_conn_sign = ConnSign::new().unwrap();
    let expected_server_key = server_conn_sign.public_key_bytes().unwrap();
    let keys = authorized_keys(&client_conn_sign);
    let (_, client) = greet_and_request(&server_conn_sign, &keys);
    assert_eq!(client.server_key(), expected_server_key.as_slice());
    assert_eq!(
        client.server_hello().conn_sign_public_key_sha256(),
        sha256_bytes(client.server_key())
    );
}

#[test]
fn cached_server_key_saves_the_request() {
    let server_conn_sign = ConnSign::new().unwrap();
    let client_conn_sign = ConnSign::new().unwrap();
    let keys = authorized_keys(&client_conn_sign);
    let (server, hello) =
        GreetingServer::start(&server_conn_sign, PacketSign::new().unwrap(), 5).unwrap();
    let client = GreetedClient::receive_server_hello(&hello).unwrap();
    let client = client
        .cached_key(server_conn_sign.public_key_bytes().unwrap())
        .unwrap();
    let (client, hello) = client
        .accepted(&client_conn_sign, PacketSign::new().unwrap(), 6)
        .unwrap();
    let (_, complete) = established(server.receive(&hello, &server_conn_sign, &keys).unwrap());
    assert!(client.receive_server_complete(&complete).is_ok());
}

#[test]
fn requested_key_must_have_the_announced_digest() {
    let server_conn_sign = ConnSign::new().unwrap();
    let (_, hello) =
        GreetingServer::start(&server_conn_sign, PacketSign::new().unwrap(), 5).unwrap();
    let (client, request) = GreetedClient::receive_server_hello(&hello)
        .unwrap()
        .no_cached_key();
    assert_eq!(request, pubkey_request_frame());
    match client.receive_server_pubkey(&pubkey_frame(b"another key")) {
        Err(ClientError::KeyMismatch(digest)) => assert_eq!(
            digest,
            sha256_bytes(&server_conn_sign.public_key_bytes().unwrap())
        ),
        _ => panic!("took another key"),
    }
}

#[test]
fn unauthorized_client_is_refused() {
    let server_conn_sign = ConnSign::new().unwrap();
    let client_conn_sign = ConnSign::new().unwrap();
    let keys = authorized_keys(&ConnSign::new().unwrap());
    let (server, client) = greet_and_request(&server_conn_sign, &keys);
    let (_, hello) = client
        .accepted(&client_conn_sign, PacketSign::new().unwrap(), 23)
        .unwrap();
    match server.receive(&hello, &server_conn_sign, &keys) {
        Err(e) => {
            assert_eq!(e, ServerError::NotAuthorized);
            assert_eq!(e.message(), "client ConnSign key is not authorized");
        }
        Ok(_) => panic!("let in an unauthorized client"),
    }
}

#[test]
fn client_hello_of_another_connection_is_refused() {
    let server_conn_sign = ConnSign::new().unwrap();
    let client_conn_sign = ConnSign::new().unwrap();
    let keys = authorized_keys(&client_conn_sign);
    let (_, client) = greet_and_request(&server_conn_sign, &keys);
    let (_, hello) = client
        .accepted(&client_conn_sign, PacketSign::new().unwrap(), 23)
        .unwrap();
    let (other, _) =
        GreetingServer::start(&server_conn_sign, PacketSign::new().unwrap(), 18).unwrap();
    match other.receive(&hello, &server_conn_sign, &keys) {
        Err(e) => assert_eq!(e, ServerError::Packet(PacketError::SignatureRejected)),
        Ok(_) => panic!("let in a replayed hello"),
    }
}

#[test]
fn server_complete_of_another_connection_is_refused() {
    let server_conn_sign = ConnSign::new().unwrap();
    let client_conn_sign = ConnSign::new().unwrap();
    let keys = authorized_keys(&client_conn_sign);

    let (server, client) = greet_and_request(&server_conn_sign, &keys);
    let (_, hello) = client
        .accepted(&client_conn_sign, PacketSign::new().unwrap(), 23)
        .unwrap();
    let (_, complete) = established(server.receive(&hello, &server_conn_sign, &keys).unwrap());

    let (_, client) = greet_and_request(&server_conn_sign, &keys);
    let (client, _) = client
        .accepted(&client_conn_sign, PacketSign::new().unwrap(), 24)
        .unwrap();
    match client.receive_server_complete(&complete) {
        Err(ClientError::TranscriptRejected) => {}
        _ => panic!("accepted a replayed signature"),
    }
}

#[test]
fn client_names_unexpected_packets() {
    let request = pubkey_request_frame();
    match GreetedClient::receive_server_hello(&request) {
        Err(e) => assert_eq!(
            e.message(),
            "expected ServerHello, got RequestServerPubkey"
        ),
        Ok(_) => panic!("took a request for a hello"),
    }
    assert_eq!(
        ClientError::Unexpected(Awaited::ServerPubkey, "Payload([])".to_string()).message(),
        "expected ServerPubkey, got Payload([])"
    );
    assert_eq!(
        ClientError::Unexpected(Awaited::ServerComplete, "Payload([])".to_string()).message(),
        "expected ServerComplete, got Payload([])"
    );
    assert_eq!(
        ClientError::TranscriptRejected.message(),
        "server complete transcript signature verification failed"
    );
    assert_eq!(
        ClientError::Packet(PacketError::Empty).message(),
        "packet is empty"
    );
    assert_eq!(
        ClientError::KeyMismatch([0; 32]).message(),
        "server ConnSign key hash does not match ServerHello digest (presented \
         SHA256:AAAAAAAAAAAAAAAAAAAAAAAAAAAAAAAAAAAAAAAAAAA)"
    );
}

#[test]
fn client_names_broken_frames_and_packets() {
    match GreetedClient::receive_server_hello(&[1, 2, 3, 4]) {
        Err(e) => assert_eq!(e.message(), "frame missing opening flag"),
        Ok(_) => panic!("took noise for a hello"),
    }
    match GreetedClient::receive_server_hello(&hdlc::encode(&[])) {
        Err(e) => assert_eq!(e.message(), "packet is empty"),
        Ok(_) => panic!("took nothing for a hello"),
    }
    let server_conn_sign = ConnSign::new().unwrap();
    let (_, hello) =
        GreetingServer::start(&server_conn_sign, PacketSign::new().unwrap(), 5).unwrap();
    let (client, _) = GreetedClient::receive_server_hello(&hello)
        .unwrap()
        .no_cached_key();
    match client.receive_server_pubkey(&pubkey_request_frame()) {
        Err(e) => assert_eq!(
            e.message(),
            "expected ServerPubkey, got RequestServerPubkey"
        ),
        Ok(_) => panic!("took a request for a key"),
    }
}

#[test]
fn results_of_checks_decide() {
    let hello = ServerHello::new(1, [2; 32], [3; 32]);
    assert!(check_key_digest(&hello, &[2; 32]).is_ok());
    assert!(matches!(
        check_key_digest(&hello, &[3; 32]),
        Err(ClientError::KeyMismatch(_))
    ));
    assert!(transcript_verdict(true).is_ok());
    assert!(matches!(
        transcript_verdict(false),
        Err(ClientError::TranscriptRejected)
    ));
}

#[test]
fn server_tells_messages_apart() {
    assert!(matches!(
        receive_message(&pubkey_request_frame()),
        Ok(ClientMessage::Request)
    ));
    let mut wire = vec![3];
    wire.extend([0; 2484]);
    wire.extend([0; 7]);
    wire.push(9);
    wire.extend([1; 32]);
    wire.extend([2; 32]);
    match receive_message(&hdlc::encode(&wire)).unwrap() {
        ClientMessage::Hello(hello, bytes) => {
            assert_eq!(hello, ClientHello::new(9, [1; 32], [2; 32]));
            assert_eq!(bytes, wire);
        }
        ClientMessage::Request => panic!("took a hello for a request"),
    }
    assert_eq!(
        receive_message(&hdlc::encode(&[5])).unwrap_err(),
        ServerError::Unexpected(5)
    );
    assert_eq!(
        receive_message(&hdlc::encode(&[])).unwrap_err(),
        ServerError::Packet(PacketError::Empty)
    );
    assert_eq!(
        receive_message(&hdlc::encode(&[1, 1])).unwrap_err(),
        ServerError::Packet(PacketError::RequestTrailing)
    );
    assert_eq!(
        receive_message(&[]).unwrap_err(),
        ServerError::Frame(hdlc::FrameError::TooShort)
    );
    assert_eq!(
        ServerError::Unexpected(5).message(),
        "expected RequestServerPubkey or ClientHello, got packet type 5"
    );
    assert_eq!(
        ServerError::Frame(hdlc::FrameError::TooShort).message(),
        "frame too short"
    );
    assert_eq!(
        ServerError::Packet(PacketError::Empty).message(),
        "packet is empty"
    );
    assert_eq!(
        ServerError::Sign(SignError::Unspecified).message(),
        "Unspecified"
    );
}

#[test]
fn server_looks_up_the_client_by_digest() {
    let mut keys = AuthorizedKeys::new();
    keys.insert([1; 32], vec![7]);
    let hello = ClientHello::new(0, [1; 32], [0; 32]);
    assert_eq!(authorized_key(&hello, &keys), Ok(&[7u8][..]));
    let hello = ClientHello::new(0, [2; 32], [0; 32]);
    assert_eq!(
        authorized_key(&hello, &keys),
        Err(ServerError::NotAuthorized)
    );
}

#[test]
fn server_frames_are_exact() {
    assert_eq!(pubkey_frame(&[9]), hdlc::encode(&[2, 9]));
    assert_eq!(complete_frame(&[9]), hdlc::encode(&[4, 9]));
    assert_eq!(pubkey_request_frame(), hdlc::encode(&[1]));
}

#[test]
fn replayed_payload_frame_is_refused() {
    let (mut server, mut client) = connect(&ConnSign::new().unwrap(), &ConnSign::new().unwrap());
    server.transport.write(b"once").unwrap();
    let frame = server.transport.pending_write().to_vec();
    assert_eq!(client.transport.accept_frame(&frame).unwrap(), true);
    assert_eq!(client.transport.read(10), b"once");
    let err = client.transport.accept_frame(&frame).unwrap_err();
    assert_eq!(err.message(), "packet signature verification failed");
    assert_eq!(client.transport.received(), 1);
    assert_eq!(client.transport.read(10), b"");
}

#[test]
fn empty_payloads_carry_nothing() {
    let (mut server, mut client) = connect(&ConnSign::new().unwrap(), &ConnSign::new().unwrap());
    assert_eq!(server.transport.write(b"").unwrap(), 0);
    assert!(server.transport.pending_write().is_empty());
    assert_eq!(server.transport.sent(), 0);

    let mut signer = PacketSign::new().unwrap();
    let wire = Packet::Payload(vec![])
        .serialize_packet_signed(&mut signer)
        .unwrap();
    let mut transport = PayloadTransport::new(PacketSign::new().unwrap(), signer.to_verifier());
    assert_eq!(transport.accept_frame(&hdlc::encode(&wire)).unwrap(), false);
    assert_eq!(transport.received(), 1);
    assert!(!client.transport.has_unread());
    assert_eq!(client.transport.read(5), b"");
}

#[test]
fn transport_faults_are_named() {
    let mut transport = PayloadTransport::new(
        PacketSign::new().unwrap(),
        PacketSign::new().unwrap().to_verifier(),
    );
    let err = transport.accept_frame(&pubkey_request_frame()).unwrap_err();
    assert_eq!(err.message(), "expected Payload, got RequestServerPubkey");
    let err = transport.accept_frame(&[]).unwrap_err();
    assert_eq!(err.message(), "frame too short");
    let err = transport.accept_frame(&hdlc::encode(&[6])).unwrap_err();
    assert_eq!(err.message(), "unknown packet type 6");
    transport.write(b"x").unwrap();
    let err = transport.advance_write(0).unwrap_err();
    assert!(matches!(err, TransportError::WriteZero));
    assert_eq!(err.message(), "failed to write framed payload");
    assert!(!transport.pending_write().is_empty());
    assert!(!transport.is_in_frame());
    assert_eq!(transport.push_byte(0x7e), None);
    assert!(transport.is_in_frame());
}

#[test]
fn payload_is_taken_out_of_its_packet() {
    assert_eq!(expect_payload(Packet::Payload(vec![1])).unwrap(), vec![1]);
    assert!(matches!(
        expect_payload(Packet::RequestServerPubkey),
        Err(TransportError::Unexpected(_))
    ));
}

#[test]
fn remainder_is_handed_on_piece_by_piece() {
    let mut remainder = Remainder::new(vec![1, 2, 3, 4, 5]);
    assert_eq!(remainder.len(), 5);
    assert_eq!(remainder.take(2), vec![1, 2]);
    assert_eq!(remainder.pending(), &[3, 4, 5]);
    remainder.advance(1);
    assert_eq!(remainder.take(0), vec![]);
    assert_eq!(remainder.take(9), vec![4, 5]);
    assert_eq!(remainder.len(), 0);
    assert_eq!(remainder.take(9), vec![]);
}

/// Return what a request handed on.
fn ready(poll: ReadPoll) -> Vec<u8> {
    match poll {
        ReadPoll::Ready(data) => data,
        other => panic!("not ready: {other:?}"),
    }
}

#[test]
fn requests_of_any_size_hand_on_everything_in_order() {
    let (mut server, mut client) = connect(&ConnSign::new().unwrap(), &ConnSign::new().unwrap());
    let mut stream = vec![1, 2, 3];
    let mut expected = Vec::new();
    for payload in [b"one".as_slice(), b"twenty-two", b"3", b"four four four"] {
        server.transport.write(payload).unwrap();
        let frame = server.transport.pending_write().to_vec();
        server.transport.advance_write(frame.len()).unwrap();
        stream.extend(frame);
        expected.extend(payload);
    }
    let mut received = Vec::new();
    let mut used = 0;
    let mut size = 0;
    loop {
        // Rooms of 0 to 4 bytes, and pieces of the stream of 0 to 36 bytes.
        size = (size + 1) % 5;
        let end = stream.len().min(used + size * 9);
        let ended = used == stream.len();
        let (poll, n) = client
            .transport
            .poll_read(size, &stream[used..end], ended);
        used += n;
        match poll {
            ReadPoll::Ready(data) => {
                assert!(data.len() <= size);
                if data.is_empty() && size > 0 {
                    assert!(ended);
                    break;
                }
                received.extend(data);
            }
            ReadPoll::Starved => assert_eq!(used, end),
            ReadPoll::Failed(e) => panic!("{}", e.message()),
        }
    }
    assert_eq!(received, expected);
    assert_eq!(client.transport.received(), 4);
}

#[test]
fn request_without_room_uses_nothing() {
    let (mut server, mut client) = connect(&ConnSign::new().unwrap(), &ConnSign::new().unwrap());
    server.transport.write(b"x").unwrap();
    let frame = server.transport.pending_write().to_vec();
    let (poll, used) = client.transport.poll_read(0, &frame, false);
    assert_eq!(ready(poll), b"");
    assert_eq!(used, 0);
    assert!(!client.transport.is_in_frame());
    let (poll, used) = client.transport.poll_read(9, &frame, false);
    assert_eq!(ready(poll), b"x");
    assert_eq!(used, frame.len());
}

#[test]
fn stream_may_end_between_frames_only() {
    let (mut server, mut client) = connect(&ConnSign::new().unwrap(), &ConnSign::new().unwrap());
    let (poll, used) = client.transport.poll_read(9, &[], true);
    assert_eq!(ready(poll), b"");
    assert_eq!(used, 0);
    server.transport.write(b"x").unwrap();
    let frame = server.transport.pending_write().to_vec();
    let (poll, used) = client.transport.poll_read(9, &frame[..5], false);
    assert!(matches!(poll, ReadPoll::Starved));
    assert_eq!(used, 5);
    match client.transport.poll_read(9, &[], true).0 {
        ReadPoll::Failed(e) => {
            assert!(matches!(e, TransportError::UnexpectedEnd));
            assert_eq!(e.message(), "unexpected end of file");
        }
        other => panic!("ended inside a frame: {other:?}"),
    }
}

#[test]
fn refused_frame_fails_one_request() {
    let (mut server, mut client) = connect(&ConnSign::new().unwrap(), &ConnSign::new().unwrap());
    server.transport.write(b"good").unwrap();
    let good = server.transport.pending_write().to_vec();
    let bad = pubkey_request_frame();
    let (poll, used) = client.transport.poll_read(9, &bad, false);
    assert!(matches!(
        poll,
        ReadPoll::Failed(TransportError::Unexpected(_))
    ));
    assert_eq!(used, bad.len());
    assert_eq!(ready(client.transport.poll_read(9, &good, false).0), b"good");
}
