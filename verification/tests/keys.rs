use axsh::bundle::{
    decode_conn_private_key_bundle, decode_conn_public_key, encode_conn_private_key_bundle,
    encode_conn_public_key, BundleError,
};
use axsh::crypto::{ED25519_SIGNATURE_LEN, ML_DSA_PUBLIC_KEY_DER_LEN, ML_DSA_SIGNATURE_LEN};
use axsh::keys::{
    attach_conn_signatures, attach_signature, both_public_keys, conn_signature_len, conn_verdict,
    packet_signature_input, packet_verdict, split_conn_signed, split_signed_packet, LoadError,
    SignError, CONN_SIGNATURE_LEN,
};
use axsh::{sha256_bytes, ConnSign, ConnVerify, PacketSign, PacketVerify};

#[test]
fn connsign_round_trips_through_pkcs8_file() {
    let original = ConnSign::new().expect("failed to generate signer");
    let saved = original.to_bytes().expect("failed to write signer");
    assert_eq!(&saved[..8], b"AXSHCK02");

    let loaded = ConnSign::from_bytes(&saved).expect("failed to load signer");
    let original_public_key = original.public_key_bytes().expect("missing public key");
    let loaded_public_key = loaded.public_key_bytes().expect("missing public key");
    assert_eq!(original_public_key, loaded_public_key);

    let message = b"round-trip";
    let signed = loaded.sign(message).expect("failed to sign");
    let verified = original.verify(&signed).expect("failed to verify");
    assert_eq!(verified, message);
    assert_eq!(loaded.to_bytes().expect("failed to write signer"), saved);
}

#[test]
fn connsign_requires_both_signature_algorithms() {
    let signer = ConnSign::new().expect("failed to generate signer");
    let message = b"dual-signature";
    let ml_dsa_sig_len = ML_DSA_SIGNATURE_LEN;

    let mut ml_dsa_tampered = signer.sign(message).expect("failed to sign");
    ml_dsa_tampered[0] ^= 0x01;
    assert!(signer.verify(&ml_dsa_tampered).is_none());

    let mut ed25519_tampered = signer.sign(message).expect("failed to sign");
    ed25519_tampered[ml_dsa_sig_len] ^= 0x01;
    assert!(signer.verify(&ed25519_tampered).is_none());
}

#[test]
fn main_connsign() {
    let msg = b"hello, world";
    let signer = ConnSign::new().unwrap();
    let signed = signer.sign(msg).unwrap();
    signer.verify(&signed).unwrap();
}

#[test]
fn main_packetsign() {
    let msg = b"hello, world";
    let mut signer = PacketSign::new().unwrap();
    let signed = signer.sign(msg).unwrap();
    signer.verify(&signed).unwrap();
}

#[test]
fn packet_connsign() {
    let msg = b"hello, world";
    let signer = ConnSign::new().unwrap();
    let signed = signer.sign(msg).unwrap();
    signer.to_verifier().unwrap().verify(&signed).unwrap();
}

#[test]
fn packet_packetsign() {
    let msg = b"hello, world";
    let mut signer = PacketSign::new().unwrap();
    let signed = signer.sign(msg).unwrap();
    signer.to_verifier().verify(&signed).unwrap();
}

#[test]
fn public_only_verifiers() {
    let conn_sign = ConnSign::new().unwrap();
    let mut packet_sign = PacketSign::new().unwrap();
    let conn_verify = conn_sign.to_verifier().unwrap();
    let mut packet_verify = packet_sign.to_verifier();

    let conn_signed = conn_sign.sign(b"conn-msg").unwrap();
    let packet_signed = packet_sign.sign(b"packet-msg").unwrap();
    let conn_detached = conn_sign.sign_detached(b"conn-msg").unwrap();

    assert_eq!(conn_verify.verify(&conn_signed).unwrap(), b"conn-msg");
    assert!(conn_verify.verify_detached(&conn_detached, b"conn-msg"));
    assert_eq!(packet_verify.verify(&packet_signed).unwrap(), b"packet-msg");
}

#[test]
fn verify_rejects_short_signatures() {
    let packet_sign = PacketSign::new().unwrap();
    assert!(packet_sign
        .to_verifier()
        .verify(&[0; ED25519_SIGNATURE_LEN - 1])
        .is_none());

    let conn_sign = ConnSign::new().unwrap();
    assert!(conn_sign.to_verifier().unwrap().verify(&[]).is_none());
}

#[test]
fn verifiers_do_not_sign() {
    let packet_verify = PacketVerify::new([7; 32]);
    assert_eq!(packet_verify.sign(b"x"), Err(SignError::PublicOnlyEd25519));
    let conn_verify = ConnVerify::new(vec![1, 2, 3]);
    assert_eq!(conn_verify.sign(b"x"), Err(SignError::PublicOnlyConnSign));
    assert_eq!(SignError::Unspecified.message(), "Unspecified");
    assert_eq!(
        SignError::PublicOnlyEd25519.message(),
        "public-only Ed25519 verifier cannot sign"
    );
    assert_eq!(
        SignError::PublicOnlyConnSign.message(),
        "public-only ConnSign verifier cannot sign"
    );
}

#[test]
fn packets_verify_in_order_only() {
    let mut signer = PacketSign::new().unwrap();
    let mut peer = signer.to_verifier();
    let first = signer.sign(b"same").unwrap();
    let second = signer.sign(b"same").unwrap();
    assert_eq!(signer.signed(), 2);
    assert_ne!(first, second);
    assert_eq!(first.len(), ED25519_SIGNATURE_LEN + 4);
    assert_eq!(&first[ED25519_SIGNATURE_LEN..], b"same");

    assert!(peer.verify(&second).is_none());
    assert_eq!(peer.verified(), 0);
    assert_eq!(peer.verify(&first), Some(&b"same"[..]));
    assert_eq!(peer.verified(), 1);
    assert!(peer.verify(&first).is_none());
    assert_eq!(peer.verify(&second), Some(&b"same"[..]));
    assert_eq!(peer.verified(), 2);
}

#[test]
fn packet_signer_verifies_with_a_counter_of_its_own() {
    let mut signer = PacketSign::new().unwrap();
    let first = signer.sign(b"a").unwrap();
    let second = signer.sign(b"b").unwrap();
    assert_eq!(signer.verified(), 0);
    assert_eq!(signer.verify(&first), Some(&b"a"[..]));
    assert_eq!(signer.verify(&second), Some(&b"b"[..]));
    assert_eq!(signer.verified(), 2);
    assert!(signer.verify(&second).is_none());
}

#[test]
fn packet_keys_are_fresh() {
    let a = PacketSign::new().unwrap();
    let b = PacketSign::new().unwrap();
    assert_ne!(a.public_key_bytes(), b.public_key_bytes());
}

#[test]
fn prefix_is_signed_and_not_sent() {
    let signer = ConnSign::new().unwrap();
    let peer = signer.to_verifier().unwrap();
    let signed = signer.sign_prefixed(b"prefix", b"message").unwrap();
    assert_eq!(signed.len(), CONN_SIGNATURE_LEN + 7);
    assert_eq!(peer.verify_prefixed(b"prefix", &signed), Some(&b"message"[..]));
    assert!(peer.verify_prefixed(b"another", &signed).is_none());
    assert!(peer.verify(&signed).is_none());
}

#[test]
fn detached_signature_has_the_length_of_both() {
    let signer = ConnSign::new().unwrap();
    let signature = signer.sign_detached(b"data").unwrap();
    assert_eq!(signature.len(), conn_signature_len());
    assert_eq!(conn_signature_len(), 2484);
    let peer = signer.to_verifier().unwrap();
    assert!(peer.verify_detached(&signature, b"data"));
    assert!(!peer.verify_detached(&signature, b"other"));
    assert!(!peer.verify_detached(&signature[1..], b"data"));
}

#[test]
fn signatures_of_another_key_are_refused() {
    let signer = ConnSign::new().unwrap();
    let stranger = ConnSign::new().unwrap().to_verifier().unwrap();
    let signed = signer.sign(b"data").unwrap();
    assert!(stranger.verify(&signed).is_none());
    assert!(ConnVerify::new(vec![]).verify(&signed).is_none());
}

#[test]
fn public_key_bundle_holds_version_and_both_keys() {
    let key = ConnSign::new().unwrap().public_key_bytes().unwrap();
    assert_eq!(key.len(), 1 + ML_DSA_PUBLIC_KEY_DER_LEN + 32);
    assert_eq!(key[0], 1);
    let (ml_dsa, ed25519) = decode_conn_public_key(&key).unwrap();
    assert_eq!(ml_dsa.len(), ML_DSA_PUBLIC_KEY_DER_LEN);
    assert_eq!(encode_conn_public_key(&ml_dsa, ed25519), key);
}

#[test]
fn public_bundle_faults() {
    assert_eq!(decode_conn_public_key(&[1; 33]), Err(BundleError::PublicTooShort));
    assert_eq!(decode_conn_public_key(&[2; 34]), Err(BundleError::PublicVersion(2)));
    assert_eq!(decode_conn_public_key(&[1; 34]), Ok((vec![1], [1; 32])));
    assert_eq!(
        BundleError::PublicTooShort.message(),
        "ConnSign public key bundle is too short"
    );
    assert_eq!(
        BundleError::PublicVersion(200).message(),
        "unsupported ConnSign public key bundle version 200"
    );
}

#[test]
fn private_bundle_is_exact() {
    let bundle = encode_conn_private_key_bundle(&[1, 2, 3], &[4, 5]).unwrap();
    let mut expected = b"AXSHCK02".to_vec();
    expected.extend([0, 0, 0, 3, 0, 0, 0, 2, 1, 2, 3, 4, 5]);
    assert_eq!(bundle, expected);
    assert_eq!(
        decode_conn_private_key_bundle(&bundle),
        Ok((vec![1, 2, 3], vec![4, 5]))
    );
}

#[test]
fn private_bundle_faults() {
    assert_eq!(
        decode_conn_private_key_bundle(b"AXSHCK02"),
        Err(BundleError::PrivateTooShort)
    );
    assert_eq!(
        decode_conn_private_key_bundle(&[0; 16]),
        Err(BundleError::PrivateFormat)
    );
    let mut bundle = encode_conn_private_key_bundle(&[1, 2, 3], &[4, 5]).unwrap();
    bundle.push(6);
    assert_eq!(
        decode_conn_private_key_bundle(&bundle),
        Err(BundleError::PrivateTruncated)
    );
    assert_eq!(
        BundleError::PrivateTooShort.message(),
        "ConnSign private key bundle is too short"
    );
    assert_eq!(
        BundleError::PrivateFormat.message(),
        "unsupported ConnSign private key bundle format"
    );
    assert_eq!(
        BundleError::PrivateTruncated.message(),
        "ConnSign private key bundle is truncated"
    );
    assert_eq!(BundleError::MlDsaTooLarge.message(), "ML-DSA PKCS#8 is too large");
    assert_eq!(BundleError::Ed25519TooLarge.message(), "Ed25519 PKCS#8 is too large");
}

#[test]
fn broken_private_keys_are_rejected() {
    let good = ConnSign::new().unwrap().to_bytes().unwrap();
    let (ml_dsa, ed25519) = decode_conn_private_key_bundle(&good).unwrap();

    match ConnSign::from_bytes(&[]) {
        Err(LoadError::Bundle(e)) => assert_eq!(e, BundleError::PrivateTooShort),
        _ => panic!("loaded an empty bundle"),
    }
    let bundle = encode_conn_private_key_bundle(&ml_dsa[1..], &ed25519).unwrap();
    match ConnSign::from_bytes(&bundle) {
        Err(e) => assert_eq!(e.message(), "InvalidEncoding"),
        Ok(_) => panic!("loaded a broken ML-DSA key"),
    }
    let bundle = encode_conn_private_key_bundle(&ml_dsa, &ed25519[1..]).unwrap();
    match ConnSign::from_bytes(&bundle) {
        Err(LoadError::Rejected(reason)) => assert_eq!(reason, "InvalidEncoding"),
        _ => panic!("loaded a broken Ed25519 key"),
    }
    match ConnSign::from_bytes(&[0; 16]) {
        Err(e) => assert_eq!(e.message(), "unsupported ConnSign private key bundle format"),
        Ok(_) => panic!("loaded a bundle without magic"),
    }
}

#[test]
fn first_rejected_key_is_reported() {
    let r = both_public_keys(Err("m".to_string()), Err("e".to_string()));
    assert_eq!(r.unwrap_err().message(), "m");
    let r = both_public_keys(Ok(vec![1]), Err("e".to_string()));
    assert_eq!(r.unwrap_err().message(), "e");
    let r = both_public_keys(Ok(vec![1]), Ok([2; 32]));
    assert_eq!(r.unwrap(), (vec![1], [2; 32]));
}

#[test]
fn signature_input_is_counter_and_message() {
    assert_eq!(
        packet_signature_input(0x0102_0304_0506_0708, b"ab"),
        vec![1, 2, 3, 4, 5, 6, 7, 8, b'a', b'b']
    );
    assert_eq!(packet_signature_input(0, b""), vec![0; 8]);
    assert_eq!(packet_signature_input(u64::MAX, b""), vec![255; 8]);
}

#[test]
fn signatures_are_attached_in_front() {
    assert_eq!(attach_signature(&[1, 2], &[3]), vec![1, 2, 3]);
    assert_eq!(attach_conn_signatures(&[1], &[2, 2], &[3]), vec![1, 2, 2, 3]);
}

#[test]
fn signatures_are_split_off() {
    assert_eq!(split_signed_packet(&[0; 63]), None);
    let mut data = vec![1; 64];
    data.push(9);
    assert_eq!(split_signed_packet(&data), Some((&[1u8; 64][..], &[9u8][..])));

    assert_eq!(split_conn_signed(&[0; 2483]), None);
    let mut data = vec![1; 2420];
    data.extend([2; 64]);
    data.extend([3]);
    assert_eq!(
        split_conn_signed(&data),
        Some((&[1u8; 2420][..], &[2u8; 64][..], &[3u8][..]))
    );
}

#[test]
fn verdicts_decide_what_is_handed_out() {
    let message = [5u8];
    assert_eq!(packet_verdict(&message, 7, true), (Some(&message[..]), 8));
    assert_eq!(packet_verdict(&message, 7, false), (None, 7));
    assert_eq!(conn_verdict(&message, true, true), Some(&message[..]));
    assert_eq!(conn_verdict(&message, true, false), None);
    assert_eq!(conn_verdict(&message, false, true), None);
    assert_eq!(conn_verdict(&message, false, false), None);
}

#[test]
fn sha256_of_known_value() {
    let digest = sha256_bytes(b"abc");
    assert_eq!(&digest[..4], &[0xba, 0x78, 0x16, 0xbf]);
    assert_eq!(&digest[28..], &[0xf2, 0x00, 0x15, 0xad]);
}

#[test]
fn packet_signature_is_deterministic_per_counter() {
    let mut signer = PacketSign::new().unwrap();
    let signed = signer.sign(b"x").unwrap();
    let key = signer.public_key_bytes();
    let mut peer = PacketVerify::new(key);
    assert_eq!(peer.verify(&signed), Some(&b"x"[..]));
    let mut stranger = PacketSign::new().unwrap().to_verifier();
    assert!(stranger.verify(&signed).is_none());
}

#[test]
fn signers_are_made_of_private_keys() {
    let saved = ConnSign::new().unwrap().to_bytes().unwrap();
    let (ml_dsa, ed25519) = decode_conn_private_key_bundle(&saved).unwrap();

    let signer = ConnSign::from_pkcs8(ml_dsa.clone(), ed25519.clone()).unwrap();
    assert_eq!(signer.to_bytes().unwrap(), saved);
    let (_, public_key) = decode_conn_public_key(&signer.public_key_bytes().unwrap()).unwrap();

    let mut first = PacketSign::from_pkcs8(ed25519.clone()).unwrap();
    let mut second = PacketSign::from_pkcs8(ed25519.clone()).unwrap();
    assert_eq!(first.public_key_bytes(), public_key);
    assert_eq!((first.signed(), first.verified()), (0, 0));
    assert_eq!(first.sign(b"x").unwrap(), second.sign(b"x").unwrap());

    match PacketSign::from_pkcs8(ed25519[1..].to_vec()) {
        Err(e) => assert_eq!(e.message(), "InvalidEncoding"),
        Ok(_) => panic!("took a broken key"),
    }
    match ConnSign::from_pkcs8(ml_dsa[1..].to_vec(), ed25519) {
        Err(e) => assert_eq!(e.message(), "InvalidEncoding"),
        Ok(_) => panic!("took a broken key"),
    }
}
