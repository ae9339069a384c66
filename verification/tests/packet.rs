use axsh::crypto::SHA256_DIGEST_LEN;
use axsh::keys::SignError;
use axsh::packet::{
    decode_client_hello, decode_server_hello, encode_client_hello, encode_server_hello, with_type,
    PacketError, PACKET_TYPE_CLIENT_HELLO, PACKET_TYPE_PAYLOAD, PACKET_TYPE_SERVER_COMPLETE,
    PACKET_TYPE_SERVER_HELLO,
};
use axsh::{
    sha256_bytes, ClientHello, ConnSign, ConnVerify, Packet, PacketSign, PacketVerify,
    ServerComplete, ServerHello, ServerPubkey,
};

fn test_server_hello(conn_sign: &ConnSign, packet_sign: &PacketSign) -> ServerHello {
    let conn_sign_public_key = conn_sign.public_key_bytes().unwrap();
    ServerHello::new(
        0x0123_4567_89ab_cdef,
        sha256_bytes(&conn_sign_public_key),
        packet_sign.public_key_bytes(),
    )
}

fn test_client_hello(conn_sign: &ConnSign, packet_sign: &PacketSign) -> ClientHello {
    let conn_sign_public_key = conn_sign.public_key_bytes().unwrap();
    ClientHello::new(
        0x0123_4567_89ab_cdef,
        sha256_bytes(&conn_sign_public_key),
        packet_sign.public_key_bytes(),
    )
}

/// Verify that a connection-authenticated body is signed correctly.
fn verify_conn_wire_body(
    verifier: &ConnVerify,
    server_unique: u64,
    packet_type: u8,
    encoded: &[u8],
    body: &[u8],
) {
    assert_eq!(encoded[0], packet_type);
    let verified = verifier
        .verify_prefixed(&server_unique.to_be_bytes(), &encoded[1..])
        .unwrap();
    assert_eq!(verified, body);
}

/// Verify that a payload body is signed correctly.
fn verify_packet_wire_body(
    verifier: &mut PacketVerify,
    packet_type: u8,
    encoded: &[u8],
    body: &[u8],
) {
    assert_eq!(encoded[0], packet_type);
    let verified = verifier.verify(&encoded[1..]).unwrap();
    assert_eq!(verified, body);
}

#[test]
fn packet_round_trip_server_hello() {
    let conn_sign = ConnSign::new().unwrap();
    let packet_sign = PacketSign::new().unwrap();
    let packet = Packet::ServerHello(test_server_hello(&conn_sign, &packet_sign));
    let encoded = packet.serialize_unsigned().unwrap();
    assert_eq!(
        Packet::deserialize(&encoded, None, None, None).unwrap(),
        packet
    );
}

#[test]
fn packet_round_trip_request_server_pubkey() {
    let encoded = Packet::RequestServerPubkey.serialize_unsigned().unwrap();
    assert_eq!(
        Packet::deserialize(&encoded, None, None, None).unwrap(),
        Packet::RequestServerPubkey
    );
}

#[test]
fn packet_round_trip_server_pubkey() {
    let conn_sign = ConnSign::new().unwrap();
    let packet = Packet::ServerPubkey(ServerPubkey::new(conn_sign.public_key_bytes().unwrap()));
    let encoded = packet.serialize_unsigned().unwrap();
    assert_eq!(
        Packet::deserialize(&encoded, None, None, None).unwrap(),
        packet
    );
}

#[test]
fn packet_round_trip_client_hello() {
    let conn_sign = ConnSign::new().unwrap();
    let packet_sign = PacketSign::new().unwrap();
    let conn_verify = conn_sign.to_verifier().unwrap();
    let server_unique = 0xfeed_face_cafe_babe;
    let hello = test_client_hello(&conn_sign, &packet_sign);
    let packet = Packet::ClientHello(hello.clone());
    let encoded = packet
        .serialize_conn_signed(&conn_sign, server_unique)
        .unwrap();
    verify_conn_wire_body(
        &conn_verify,
        server_unique,
        PACKET_TYPE_CLIENT_HELLO,
        &encoded,
        &encode_client_hello(&hello),
    );
    assert_eq!(
        Packet::deserialize(&encoded, Some(server_unique), Some(&conn_verify), None).unwrap(),
        packet
    );
}

#[test]
fn client_hello_rejects_wrong_server_unique() {
    let conn_sign = ConnSign::new().unwrap();
    let packet_sign = PacketSign::new().unwrap();
    let conn_verify = conn_sign.to_verifier().unwrap();
    let packet = Packet::ClientHello(test_client_hello(&conn_sign, &packet_sign));
    let encoded = packet
        .serialize_conn_signed(&conn_sign, 0xfeed_face_cafe_babe)
        .unwrap();
    let err = Packet::deserialize(
        &encoded,
        Some(0x0123_4567_89ab_cdef),
        Some(&conn_verify),
        None,
    )
    .unwrap_err();
    assert!(err.message().contains("signature verification failed"));
}

#[test]
fn packet_round_trip_server_complete() {
    let conn_sign = ConnSign::new().unwrap();
    let signature = conn_sign
        .sign_detached(b"server-hello||client-hello")
        .unwrap();
    let packet = Packet::ServerComplete(ServerComplete::new(signature.clone()));
    let encoded = packet.serialize_unsigned().unwrap();
    assert_eq!(encoded[0], PACKET_TYPE_SERVER_COMPLETE);
    assert_eq!(&encoded[1..], signature.as_slice());
    assert_eq!(
        Packet::deserialize(&encoded, None, None, None).unwrap(),
        packet
    );
}

#[test]
fn packet_round_trip_payload() {
    let mut packet_sign = PacketSign::new().unwrap();
    let mut packet_verify = packet_sign.to_verifier();
    let packet = Packet::Payload(vec![1, 2, 3, 4, 5]);
    let encoded = packet.serialize_packet_signed(&mut packet_sign).unwrap();
    verify_packet_wire_body(
        &mut packet_verify,
        PACKET_TYPE_PAYLOAD,
        &encoded,
        &[1, 2, 3, 4, 5],
    );
    assert_eq!(
        Packet::deserialize(&encoded, None, None, Some(&mut packet_sign.to_verifier())).unwrap(),
        packet
    );
}

#[test]
fn server_hello_serialize_does_not_sign() {
    let conn_sign = ConnSign::new().unwrap();
    let packet_sign = PacketSign::new().unwrap();
    let hello = test_server_hello(&conn_sign, &packet_sign);
    let packet = Packet::ServerHello(hello.clone());
    let encoded = packet.serialize_unsigned().unwrap();
    let mut expected = vec![PACKET_TYPE_SERVER_HELLO];
    expected.extend(encode_server_hello(&hello));
    assert_eq!(encoded, expected);
}

#[test]
fn packet_deserialize_rejects_truncated_hello() {
    let err =
        Packet::deserialize(&[PACKET_TYPE_SERVER_HELLO, 1, 2, 3], None, None, None).unwrap_err();
    assert!(err.message().contains("expected at least 8 bytes"));
}

#[test]
fn packet_deserialize_rejects_truncated_server_complete() {
    let conn_sign = ConnSign::new().unwrap();
    let mut signature = conn_sign
        .sign_detached(b"server-hello||client-hello")
        .unwrap();
    signature.pop();
    let mut packet = vec![PACKET_TYPE_SERVER_COMPLETE];
    packet.extend(signature);
    let err = Packet::deserialize(&packet, None, None, None).unwrap_err();
    assert!(err.message().contains("signature length"));
}

#[test]
fn packet_deserialize_rejects_invalid_signature() {
    let mut packet_sign = PacketSign::new().unwrap();
    let mut encoded = Packet::Payload(vec![1, 2, 3])
        .serialize_packet_signed(&mut packet_sign)
        .unwrap();
    let last = encoded.len() - 1;
    encoded[last] ^= 0x01;
    let mut verifier = packet_sign.to_verifier();
    let err = Packet::deserialize(&encoded, None, None, Some(&mut verifier)).unwrap_err();
    assert!(err.message().contains("signature verification failed"));
}

#[test]
fn packet_deserialize_requires_payload_verifier() {
    let mut packet_sign = PacketSign::new().unwrap();
    let encoded = Packet::Payload(vec![1, 2, 3])
        .serialize_packet_signed(&mut packet_sign)
        .unwrap();
    let err = Packet::deserialize(&encoded, None, None, None).unwrap_err();
    assert!(err.message().contains("missing packet verifier"));
}

#[test]
fn packet_deserialize_rejects_replayed_payload() {
    let mut packet_sign = PacketSign::new().unwrap();
    let mut packet_verify = packet_sign.to_verifier();
    let encoded = Packet::Payload(vec![1, 2, 3])
        .serialize_packet_signed(&mut packet_sign)
        .unwrap();

    assert_eq!(
        Packet::deserialize(&encoded, None, None, Some(&mut packet_verify)).unwrap(),
        Packet::Payload(vec![1, 2, 3])
    );

    let err = Packet::deserialize(&encoded, None, None, Some(&mut packet_verify)).unwrap_err();
    assert!(err.message().contains("signature verification failed"));
}

#[test]
fn packet_deserialize_rejects_out_of_order_payload() {
    let mut packet_sign = PacketSign::new().unwrap();
    let mut packet_verify = packet_sign.to_verifier();
    let first = Packet::Payload(vec![1])
        .serialize_packet_signed(&mut packet_sign)
        .unwrap();
    let second = Packet::Payload(vec![2])
        .serialize_packet_signed(&mut packet_sign)
        .unwrap();

    let err = Packet::deserialize(&second, None, None, Some(&mut packet_verify)).unwrap_err();
    assert!(err.message().contains("signature verification failed"));

    assert_eq!(
        Packet::deserialize(&first, None, None, Some(&mut packet_verify)).unwrap(),
        Packet::Payload(vec![1])
    );
}

#[test]
fn hello_body_is_exact() {
    let hello = ServerHello::new(0x0102_0304_0506_0708, [0xaa; 32], [0xbb; 32]);
    let mut expected = vec![1, 2, 3, 4, 5, 6, 7, 8];
    expected.extend([0xaa; 32]);
    expected.extend([0xbb; 32]);
    assert_eq!(encode_server_hello(&hello), expected);
    assert_eq!(decode_server_hello(&expected), Ok(hello.clone()));
    assert_eq!(hello.unique(), 0x0102_0304_0506_0708);
    assert_eq!(hello.conn_sign_public_key_sha256(), [0xaa; 32]);
    assert_eq!(hello.packet_sign_public_key(), [0xbb; 32]);

    let hello = ClientHello::new(1, [2; 32], [3; 32]);
    let body = encode_client_hello(&hello);
    assert_eq!(decode_client_hello(&body), Ok(hello.clone()));
    assert_eq!(hello.unique(), 1);
    assert_eq!(hello.conn_sign_public_key_sha256(), [2; SHA256_DIGEST_LEN]);
    assert_eq!(hello.packet_sign_public_key(), [3; 32]);
}

#[test]
fn hello_faults_come_in_order() {
    assert_eq!(
        decode_server_hello(&[0; 7]),
        Err(PacketError::Truncated { needed: 8, got: 7 })
    );
    assert_eq!(
        decode_server_hello(&[0; 39]),
        Err(PacketError::Truncated {
            needed: 32,
            got: 31
        })
    );
    assert_eq!(
        decode_client_hello(&[0; 71]),
        Err(PacketError::Truncated {
            needed: 32,
            got: 31
        })
    );
    assert_eq!(
        decode_server_hello(&[0; 73]),
        Err(PacketError::ServerHelloTrailing)
    );
    assert_eq!(
        decode_client_hello(&[0; 73]),
        Err(PacketError::ClientHelloTrailing)
    );
}

#[test]
fn packet_faults_are_named() {
    let parse = |data: &[u8]| Packet::deserialize(data, None, None, None).unwrap_err();
    assert_eq!(parse(&[]), PacketError::Empty);
    assert_eq!(parse(&[6]), PacketError::UnknownType(6));
    assert_eq!(parse(&[1, 0]), PacketError::RequestTrailing);
    assert_eq!(
        parse(&[3, 0]),
        PacketError::SignedTruncated {
            got: 1,
            needed: 2484
        }
    );
    assert_eq!(parse(&[3; 1 + 2484 + 72]), PacketError::MissingServerUnique);
    assert_eq!(
        Packet::deserialize(&[3; 1 + 2484 + 72], Some(1), None, None),
        Err(PacketError::MissingConnVerifier)
    );
    assert_eq!(
        parse(&[4, 0]),
        PacketError::CompleteLength {
            got: 1,
            needed: 2484
        }
    );
    assert_eq!(parse(&[5]), PacketError::MissingPacketVerifier);
    assert_eq!(
        Packet::peek_client_hello(&[0]),
        Err(PacketError::ExpectedClientHello(0))
    );
    assert_eq!(Packet::peek_client_hello(&[]), Err(PacketError::Empty));
    assert_eq!(Packet::peek_type(&[]), Err(PacketError::Empty));
    assert_eq!(Packet::peek_type(&[9, 1]), Ok(9));
}

#[test]
fn packet_fault_messages() {
    let messages = [
        (PacketError::Empty, "packet is empty"),
        (PacketError::UnknownType(6), "unknown packet type 6"),
        (
            PacketError::Truncated { needed: 8, got: 3 },
            "expected at least 8 bytes, got 3",
        ),
        (
            PacketError::ServerHelloTrailing,
            "server hello has trailing bytes",
        ),
        (
            PacketError::ClientHelloTrailing,
            "client hello has trailing bytes",
        ),
        (
            PacketError::RequestTrailing,
            "request server pubkey has trailing bytes",
        ),
        (
            PacketError::SignedTruncated {
                got: 1,
                needed: 2484,
            },
            "signed packet truncated: 1 < 2484",
        ),
        (
            PacketError::CompleteLength {
                got: 1,
                needed: 2484,
            },
            "server complete signature length 1 != 2484",
        ),
        (
            PacketError::ExpectedClientHello(5),
            "expected ClientHello, got packet type 5",
        ),
        (
            PacketError::MissingServerUnique,
            "missing ClientHello server_unique",
        ),
        (PacketError::MissingConnVerifier, "missing conn verifier"),
        (
            PacketError::MissingPacketVerifier,
            "missing packet verifier",
        ),
        (
            PacketError::SignatureRejected,
            "packet signature verification failed",
        ),
        (
            PacketError::NeedsConnSign,
            "ClientHello requires a ConnSign signer",
        ),
        (
            PacketError::NeedsPacketSign,
            "Payload requires a PacketSign signer",
        ),
        (
            PacketError::OnlyClientHello,
            "only ClientHello uses ConnSign packet signing",
        ),
        (
            PacketError::OnlyPayload,
            "only Payload uses PacketSign packet signing",
        ),
        (PacketError::Sign(SignError::Unspecified), "Unspecified"),
    ];
    for (error, message) in messages {
        assert_eq!(error.message(), message);
    }
}

#[test]
fn packets_are_serialized_in_their_own_way_only() {
    let conn_sign = ConnSign::new().unwrap();
    let mut packet_sign = PacketSign::new().unwrap();
    let hello = Packet::ClientHello(ClientHello::new(1, [2; 32], [3; 32]));
    let payload = Packet::Payload(vec![1]);
    assert_eq!(hello.serialize_unsigned(), Err(PacketError::NeedsConnSign));
    assert_eq!(
        payload.serialize_unsigned(),
        Err(PacketError::NeedsPacketSign)
    );
    assert_eq!(
        payload.serialize_conn_signed(&conn_sign, 1),
        Err(PacketError::OnlyClientHello)
    );
    assert_eq!(
        hello.serialize_packet_signed(&mut packet_sign),
        Err(PacketError::OnlyPayload)
    );
    assert_eq!(packet_sign.signed(), 0);
}

#[test]
fn only_an_accepted_payload_is_counted() {
    let mut packet_sign = PacketSign::new().unwrap();
    let mut packet_verify = packet_sign.to_verifier();
    let encoded = Packet::Payload(vec![])
        .serialize_packet_signed(&mut packet_sign)
        .unwrap();
    Packet::deserialize(&[1], None, None, Some(&mut packet_verify)).unwrap();
    assert_eq!(packet_verify.verified(), 0);
    Packet::deserialize(&[5, 0], None, None, Some(&mut packet_verify)).unwrap_err();
    assert_eq!(packet_verify.verified(), 0);
    Packet::deserialize(&encoded, None, None, Some(&mut packet_verify)).unwrap();
    assert_eq!(packet_verify.verified(), 1);
}

#[test]
fn verdicts_stand_in_for_signatures() {
    let mut wire = vec![3];
    wire.extend([0; 2484]);
    wire.extend(encode_client_hello(&ClientHello::new(7, [8; 32], [9; 32])));
    let hello = Packet::ClientHello(ClientHello::new(7, [8; 32], [9; 32]));
    assert_eq!(
        Packet::deserialize_with(&wire, true, Some(true), None),
        Ok(hello)
    );
    assert_eq!(
        Packet::deserialize_with(&wire, true, Some(false), None),
        Err(PacketError::SignatureRejected)
    );
    assert_eq!(
        Packet::deserialize_with(&wire, false, Some(true), None),
        Err(PacketError::MissingServerUnique)
    );
    let mut payload = vec![5];
    payload.extend([0; 64]);
    payload.extend([1, 2]);
    assert_eq!(
        Packet::deserialize_with(&payload, false, None, Some(true)),
        Ok(Packet::Payload(vec![1, 2]))
    );
    assert_eq!(
        Packet::deserialize_with(&payload, false, None, Some(false)),
        Err(PacketError::SignatureRejected)
    );
    assert_eq!(
        Packet::deserialize_with(&payload[..64], false, None, Some(true)),
        Err(PacketError::SignatureRejected)
    );
}

#[test]
fn description_is_the_debug_text() {
    let packets = [
        Packet::ServerHello(ServerHello::new(12, [7; 32], [255; 32])),
        Packet::RequestServerPubkey,
        Packet::ServerPubkey(ServerPubkey::new(vec![])),
        Packet::ServerPubkey(ServerPubkey::new(vec![1])),
        Packet::ServerPubkey(ServerPubkey::new(vec![1, 20, 255])),
        Packet::ClientHello(ClientHello::new(u64::MAX, [0; 32], [100; 32])),
        Packet::ServerComplete(ServerComplete::new(vec![3, 4])),
        Packet::Payload(vec![10, 9]),
    ];
    for packet in packets {
        assert_eq!(packet.describe(), format!("{packet:?}"));
    }
}

#[test]
fn type_byte_comes_first() {
    assert_eq!(with_type(9, &[1, 2]), vec![9, 1, 2]);
    assert_eq!(ServerPubkey::new(vec![4]).conn_sign_public_key(), &[4]);
    assert_eq!(ServerComplete::new(vec![5]).signature(), &[5]);
}

#[test]
fn unsigned_packets_have_one_form() {
    let mut hello = vec![0];
    hello.extend(0..72u8);
    let mut complete = vec![4];
    complete.extend([7; 2484]);
    for data in [hello, vec![1], vec![2], vec![2, 9, 9], complete] {
        let packet = Packet::deserialize(&data, None, None, None).unwrap();
        assert_eq!(packet.serialize_unsigned(), Ok(data));
    }
}
