use axsh::base64::Base64Error;
use axsh::key_text::KeyLineError;
use axsh::{
    format_authorized_conn_key, format_known_host, format_sha256_digest, format_sha256_fingerprint,
    parse_authorized_conn_key, parse_known_host, sha256_bytes, CONN_AUTHORIZED_KEY_KIND,
};

#[test]
fn sha256_fingerprint_matches_known_value() {
    assert_eq!(
        format_sha256_fingerprint(b"foo"),
        "SHA256:LCa0a2j/xo/5m0U8HTBBNBNCLXBkg7+g+YpeiGJm564"
    );
}

#[test]
fn digest_is_shown_without_padding() {
    assert_eq!(
        format_sha256_digest(&sha256_bytes(b"foo")),
        format_sha256_fingerprint(b"foo")
    );
    assert_eq!(
        format_sha256_digest(&[0; 32]),
        "SHA256:AAAAAAAAAAAAAAAAAAAAAAAAAAAAAAAAAAAAAAAAAAA"
    );
}

#[test]
fn authorized_key_line_round_trips() {
    assert_eq!(CONN_AUTHORIZED_KEY_KIND, "mldsa-ed25519");
    assert_eq!(format_authorized_conn_key(b"foo"), "mldsa-ed25519 Zm9v");
    assert_eq!(
        parse_authorized_conn_key("mldsa-ed25519 Zm9v").unwrap(),
        b"foo"
    );
}

#[test]
fn known_host_line_round_trips() {
    assert_eq!(
        format_known_host("example:12345", b"bar"),
        "example:12345 mldsa-ed25519 YmFy"
    );
    let (host, key) = parse_known_host("example:12345 mldsa-ed25519 YmFy").unwrap();
    assert_eq!(host, "example:12345");
    assert_eq!(key, b"bar");
}

#[test]
fn authorized_key_line_faults() {
    match parse_authorized_conn_key("mldsa-ed25519").unwrap_err() {
        KeyLineError::MissingTypeOrData => {}
        other => panic!("unexpected error {other:?}"),
    }
    match parse_authorized_conn_key("ed25519 Zg==").unwrap_err() {
        KeyLineError::UnsupportedType(kind) => assert_eq!(kind, "ed25519"),
        other => panic!("unexpected error {other:?}"),
    }
    match parse_authorized_conn_key("mldsa-ed25519 ").unwrap_err() {
        KeyLineError::MissingData => {}
        other => panic!("unexpected error {other:?}"),
    }
    match parse_authorized_conn_key("mldsa-ed25519 not-base64!").unwrap_err() {
        KeyLineError::Base64(e) => assert_eq!(e, Base64Error::Length),
        other => panic!("unexpected error {other:?}"),
    }
}

#[test]
fn known_host_line_faults() {
    match parse_known_host("host").unwrap_err() {
        KeyLineError::MissingHostOrKey => {}
        other => panic!("unexpected error {other:?}"),
    }
    match parse_known_host(" mldsa-ed25519 Zg==").unwrap_err() {
        KeyLineError::MissingHost => {}
        other => panic!("unexpected error {other:?}"),
    }
    match parse_known_host("host mldsa-ed25519").unwrap_err() {
        KeyLineError::MissingTypeOrData => {}
        other => panic!("unexpected error {other:?}"),
    }
}

#[test]
fn line_fault_messages() {
    let message = |line: &str| parse_authorized_conn_key(line).unwrap_err().message();
    assert_eq!(message("x"), "missing key type or key data");
    assert_eq!(message("rsa Zg=="), "unsupported key type rsa");
    assert_eq!(message("mldsa-ed25519 "), "missing key data");
    assert_eq!(message("mldsa-ed25519 !!!!"), "invalid base64 character");
    let message = |line: &str| parse_known_host(line).unwrap_err().message();
    assert_eq!(message("host"), "missing host or key data");
    assert_eq!(message(" key"), "missing host");
}
