//! The text form of connection keys: authorized-keys lines, known-hosts lines and fingerprints.

use vstd::prelude::*;
use vstd::string::StringExecFns;

use crate::base64;
use crate::base64::{decode_base64, encode_base64, Base64Error};
use crate::crypto;
use crate::crypto::{sha256_bytes, SHA256_DIGEST_LEN};
use crate::text;

verus! {

/// The key type that stands before a connection key in a line.
pub const CONN_AUTHORIZED_KEY_KIND: &'static str = "mldsa-ed25519";

/// What is wrong with a line, as a mathematical value.
pub enum KeyLineFault {
    MissingTypeOrData,
    UnsupportedType(Seq<char>),
    MissingData,
    Base64(Base64Error),
    MissingHostOrKey,
    MissingHost,
}

/// What is wrong with an authorized-keys or known-hosts line.
#[derive(Debug)]
pub enum KeyLineError {
    /// Nothing separates a key type from key data.
    MissingTypeOrData,
    /// The key type is another one.
    UnsupportedType(String),
    /// Nothing follows the key type.
    MissingData,
    /// The key data is not base64.
    Base64(Base64Error),
    /// Nothing separates a host from a key.
    MissingHostOrKey,
    /// The host is empty.
    MissingHost,
}

impl View for KeyLineError {
    type V = KeyLineFault;

    open spec fn view(&self) -> KeyLineFault {
        match self {
            KeyLineError::MissingTypeOrData => KeyLineFault::MissingTypeOrData,
            KeyLineError::UnsupportedType(kind) => KeyLineFault::UnsupportedType(kind@),
            KeyLineError::MissingData => KeyLineFault::MissingData,
            KeyLineError::Base64(e) => KeyLineFault::Base64(*e),
            KeyLineError::MissingHostOrKey => KeyLineFault::MissingHostOrKey,
            KeyLineError::MissingHost => KeyLineFault::MissingHost,
        }
    }
}

/// What is said of a fault.
pub open spec fn fault_text(fault: KeyLineFault) -> Seq<char> {
    match fault {
        KeyLineFault::MissingTypeOrData => "missing key type or key data"@,
        KeyLineFault::UnsupportedType(kind) => "unsupported key type "@ + kind,
        KeyLineFault::MissingData => "missing key data"@,
        KeyLineFault::Base64(e) => e.text(),
        KeyLineFault::MissingHostOrKey => "missing host or key data"@,
        KeyLineFault::MissingHost => "missing host"@,
    }
}

/// What is said of a key type that is not supported names it.
pub proof fn law_unsupported_type_is_named(kind: Seq<char>, e: Base64Error)
    ensures
        fault_text(KeyLineFault::UnsupportedType(kind)) == "unsupported key type "@ + kind,
        fault_text(KeyLineFault::Base64(e)) == e.text(),
{
}

impl KeyLineError {
    /// Describe the error in words.
    pub fn message(&self) -> (out: String)
        ensures
            out@ == fault_text(self@),
    {
        match self {
            KeyLineError::MissingTypeOrData => String::from_str("missing key type or key data"),
            KeyLineError::UnsupportedType(kind) => {
                let mut out = String::from_str("unsupported key type ");
                out.append(kind.as_str());
                out
            },
            KeyLineError::MissingData => String::from_str("missing key data"),
            KeyLineError::Base64(e) => e.message(),
            KeyLineError::MissingHostOrKey => String::from_str("missing host or key data"),
            KeyLineError::MissingHost => String::from_str("missing host"),
        }
    }
}

/// The authorized-keys line of a public key: the key type, a space and the key in base64.
pub open spec fn authorized_line(key: Seq<u8>) -> Seq<char> {
    CONN_AUTHORIZED_KEY_KIND@ + seq![' '] + base64::base64_text(key)
}

/// The known-hosts line of a host and its public key: the host, a space and the authorized-keys
/// line.
pub open spec fn known_host_line(host: Seq<char>, key: Seq<u8>) -> Seq<char> {
    host + seq![' '] + authorized_line(key)
}

/// The public key that an authorized-keys line holds.
pub open spec fn parsed_authorized(line: Seq<char>) -> Result<Seq<u8>, KeyLineFault> {
    match text::split_once(line, ' ') {
        None => Err(KeyLineFault::MissingTypeOrData),
        Some((kind, encoded)) => if kind != CONN_AUTHORIZED_KEY_KIND@ {
            Err(KeyLineFault::UnsupportedType(kind))
        } else if encoded.len() == 0 {
            Err(KeyLineFault::MissingData)
        } else {
            match base64::decode_text(encoded) {
                Ok(key) => Ok(key),
                Err(e) => Err(KeyLineFault::Base64(e)),
            }
        },
    }
}

/// The host and the public key that a known-hosts line holds.
pub open spec fn parsed_known_host(line: Seq<char>) -> Result<
    (Seq<char>, Seq<u8>),
    KeyLineFault,
> {
    match text::split_once(line, ' ') {
        None => Err(KeyLineFault::MissingHostOrKey),
        Some((host, key)) => if host.len() == 0 {
            Err(KeyLineFault::MissingHost)
        } else {
            match parsed_authorized(key) {
                Ok(key) => Ok((host, key)),
                Err(e) => Err(e),
            }
        },
    }
}

/// How a SHA-256 digest is shown: its base64 text without padding, after the name of the digest.
pub open spec fn digest_text(digest: Seq<u8>) -> Seq<char> {
    "SHA256:"@ + text::trim_end_of(base64::base64_text(digest), '=')
}

/// The key type holds no space.
proof fn lemma_kind_holds_no_space()
    ensures
        CONN_AUTHORIZED_KEY_KIND@.len() == 13,
        !CONN_AUTHORIZED_KEY_KIND@.contains(' '),
{
    reveal_strlit("mldsa-ed25519");
}

/// What stands before and after a separator is found again, if the separator does not occur in
/// what stands before.
pub proof fn lemma_split_joined(before: Seq<char>, separator: char, after: Seq<char>)
    requires
        !before.contains(separator),
    ensures
        text::split_once(before + seq![separator] + after, separator) == Some((before, after)),
{
    let s = before + seq![separator] + after;
    assert forall|j: int| 0 <= j < before.len() implies s[j] != separator by {
        assert(before.contains(before[j]));
    }
    text::lemma_find_is(s, separator, before.len() as int);
    assert(s.take(before.len() as int) =~= before);
    assert(s.skip(before.len() as int + 1) =~= after);
}

/// The public key is read back from its authorized-keys line.
pub proof fn law_authorized_line_round_trip(key: Seq<u8>)
    requires
        key.len() > 0,
    ensures
        parsed_authorized(authorized_line(key)) == Ok::<Seq<u8>, KeyLineFault>(key),
{
    lemma_kind_holds_no_space();
    lemma_split_joined(CONN_AUTHORIZED_KEY_KIND@, ' ', base64::base64_text(key));
    base64::law_base64_text_shape(key);
    base64::law_base64_round_trip(key);
}

/// The host and the public key are read back from their known-hosts line.
pub proof fn law_known_host_round_trip(host: Seq<char>, key: Seq<u8>)
    requires
        host.len() > 0,
        !host.contains(' '),
        key.len() > 0,
    ensures
        parsed_known_host(known_host_line(host, key)) == Ok::<(Seq<char>, Seq<u8>), KeyLineFault>(
            (host, key),
        ),
{
    lemma_split_joined(host, ' ', authorized_line(key));
    law_authorized_line_round_trip(key);
}

/// What the lines of a key look like.
pub proof fn law_key_line_layout(host: Seq<char>, key: Seq<u8>)
    ensures
        authorized_line(key) == "mldsa-ed25519 "@ + base64::base64_text(key),
        known_host_line(host, key) == host + " mldsa-ed25519 "@ + base64::base64_text(key),
{
    reveal_strlit("mldsa-ed25519");
    reveal_strlit("mldsa-ed25519 ");
    reveal_strlit(" mldsa-ed25519 ");
    assert(CONN_AUTHORIZED_KEY_KIND@ + seq![' '] =~= "mldsa-ed25519 "@);
    assert(host + seq![' '] + authorized_line(key) =~= host + " mldsa-ed25519 "@
        + base64::base64_text(key));
}

/// A line is cut at its first space: in front of it stands the key type, which has to be the one
/// that there is, and behind it the key in base64, all of it.
pub proof fn law_authorized_line_is_read_in_two_parts(kind: Seq<char>, encoded: Seq<char>)
    requires
        !kind.contains(' '),
    ensures
        parsed_authorized(kind) == Err::<Seq<u8>, KeyLineFault>(KeyLineFault::MissingTypeOrData),
        kind != "mldsa-ed25519"@ ==> parsed_authorized(kind.push(' ') + encoded) == Err::<
            Seq<u8>,
            KeyLineFault,
        >(KeyLineFault::UnsupportedType(kind)),
        kind == "mldsa-ed25519"@ && encoded.len() == 0 ==> parsed_authorized(
            kind.push(' ') + encoded,
        ) == Err::<Seq<u8>, KeyLineFault>(KeyLineFault::MissingData),
        kind == "mldsa-ed25519"@ && encoded.len() > 0 ==> match base64::decode_text(encoded) {
            Ok(key) => parsed_authorized(kind.push(' ') + encoded) == Ok::<Seq<u8>, KeyLineFault>(
                key,
            ),
            Err(e) => parsed_authorized(kind.push(' ') + encoded) == Err::<Seq<u8>, KeyLineFault>(
                KeyLineFault::Base64(e),
            ),
        },
{
    text::law_split_once(kind, ' ', encoded);
}

/// A known-hosts line is cut at its first space: in front of it stands the host, and behind it an
/// authorized-keys line, all of it.
pub proof fn law_known_host_line_is_read_in_two_parts(host: Seq<char>, line: Seq<char>)
    requires
        !host.contains(' '),
    ensures
        parsed_known_host(host) == Err::<(Seq<char>, Seq<u8>), KeyLineFault>(
            KeyLineFault::MissingHostOrKey,
        ),
        host.len() == 0 ==> parsed_known_host(host.push(' ') + line) == Err::<
            (Seq<char>, Seq<u8>),
            KeyLineFault,
        >(KeyLineFault::MissingHost),
        host.len() > 0 ==> match parsed_authorized(line) {
            Ok(key) => parsed_known_host(host.push(' ') + line) == Ok::<
                (Seq<char>, Seq<u8>),
                KeyLineFault,
            >((host, key)),
            Err(fault) => parsed_known_host(host.push(' ') + line) == Err::<
                (Seq<char>, Seq<u8>),
                KeyLineFault,
            >(fault),
        },
{
    text::law_split_once(host, ' ', line);
}

/// The base64 text of bytes that leave two over three ends in one padding character.
proof fn lemma_single_padding(data: Seq<u8>)
    requires
        data.len() % 3 == 2,
    ensures
        base64::base64_text(data).len() >= 4,
        base64::base64_text(data).last() == '=',
        base64::base64_text(data).drop_last().last() != '=',
    decreases data.len(),
{
    let s = base64::base64_text(data);
    if data.len() > 2 {
        let rest = base64::base64_text(data.skip(3));
        lemma_single_padding(data.skip(3));
        assert(s[s.len() - 1] == rest[rest.len() - 1]);
        assert(s[s.len() - 2] == rest[rest.len() - 2]);
    }
}

/// A digest is shown as a name and the 43 base64 characters of its 32 bytes, without the padding.
pub proof fn law_digest_text_layout(digest: Seq<u8>)
    requires
        digest.len() == 32,
    ensures
        digest_text(digest) == "SHA256:"@ + base64::base64_text(digest).subrange(0, 43),
        digest_text(digest).len() == 50,
{
    let s = base64::base64_text(digest);
    lemma_single_padding(digest);
    base64::law_base64_text_shape(digest);
    reveal_with_fuel(text::trim_end_of, 2);
    assert(text::trim_end_of(s, '=') == s.drop_last());
    assert(s.drop_last() =~= s.subrange(0, 43));
    reveal_strlit("SHA256:");
}

/// Different digests are shown differently.
pub proof fn law_digest_text_injective(a: Seq<u8>, b: Seq<u8>)
    requires
        a.len() == SHA256_DIGEST_LEN,
        b.len() == SHA256_DIGEST_LEN,
        digest_text(a) == digest_text(b),
    ensures
        a == b,
{
    let s = base64::base64_text(a);
    let t = base64::base64_text(b);
    lemma_single_padding(a);
    lemma_single_padding(b);
    reveal_with_fuel(text::trim_end_of, 2);
    assert(text::trim_end_of(s, '=') == s.drop_last());
    assert(text::trim_end_of(t, '=') == t.drop_last());
    let n = "SHA256:"@.len() as int;
    assert(digest_text(a).skip(n) =~= s.drop_last());
    assert(digest_text(b).skip(n) =~= t.drop_last());
    assert(s =~= s.drop_last().push('='));
    assert(t =~= t.drop_last().push('='));
    base64::law_base64_injective(a, b);
}

/// Format a connection public key for authorized-keys files.
pub fn format_authorized_conn_key(public_key: &[u8]) -> (line: String)
    ensures
        line@ == authorized_line(public_key@),
{
    let mut line = String::from_str(CONN_AUTHORIZED_KEY_KIND);
    line.push(' ');
    line.append(encode_base64(public_key).as_str());
    assert(line@ =~= authorized_line(public_key@));
    line
}

/// Parse the characters of one authorized-keys line.
fn parse_authorized_chars(line: &[char]) -> (r: Result<Vec<u8>, KeyLineError>)
    ensures
        match r {
            Ok(key) => parsed_authorized(line@) == Ok::<Seq<u8>, KeyLineFault>(key@),
            Err(e) => parsed_authorized(line@) == Err::<Seq<u8>, KeyLineFault>(e@),
        },
{
    match text::split_at_first(line, ' ') {
        None => Err(KeyLineError::MissingTypeOrData),
        Some((kind, encoded)) => {
            let expected = text::chars_of(CONN_AUTHORIZED_KEY_KIND);
            if !text::same(kind, expected.as_slice()) {
                return Err(KeyLineError::UnsupportedType(text::string_of(kind)));
            }
            if encoded.len() == 0 {
                return Err(KeyLineError::MissingData);
            }
            match decode_base64(text::string_of(encoded).as_str()) {
                Ok(key) => Ok(key),
                Err(e) => Err(KeyLineError::Base64(e)),
            }
        },
    }
}

/// Parse one authorized-keys line for a connection public key.
pub fn parse_authorized_conn_key(line: &str) -> (r: Result<Vec<u8>, KeyLineError>)
    ensures
        match r {
            Ok(key) => parsed_authorized(line@) == Ok::<Seq<u8>, KeyLineFault>(key@),
            Err(e) => parsed_authorized(line@) == Err::<Seq<u8>, KeyLineFault>(e@),
        },
{
    let chars = text::chars_of(line);
    parse_authorized_chars(chars.as_slice())
}

/// Format one known-hosts line for a host and a connection public key.
pub fn format_known_host(host: &str, public_key: &[u8]) -> (line: String)
    ensures
        line@ == known_host_line(host@, public_key@),
{
    let mut line = String::from_str(host);
    line.push(' ');
    line.append(format_authorized_conn_key(public_key).as_str());
    assert(line@ =~= known_host_line(host@, public_key@));
    line
}

/// Parse one known-hosts line into a host and a connection public key.
pub fn parse_known_host(line: &str) -> (r: Result<(String, Vec<u8>), KeyLineError>)
    ensures
        match r {
            Ok((host, key)) => parsed_known_host(line@) == Ok::<
                (Seq<char>, Seq<u8>),
                KeyLineFault,
            >((host@, key@)),
            Err(e) => parsed_known_host(line@) == Err::<(Seq<char>, Seq<u8>), KeyLineFault>(e@),
        },
{
    let chars = text::chars_of(line);
    match text::split_at_first(chars.as_slice(), ' ') {
        None => Err(KeyLineError::MissingHostOrKey),
        Some((host, key)) => {
            if host.len() == 0 {
                return Err(KeyLineError::MissingHost);
            }
            match parse_authorized_chars(key) {
                Ok(key) => Ok((text::string_of(host), key)),
                Err(e) => Err(e),
            }
        },
    }
}

/// Format a SHA-256 digest in OpenSSH style.
pub fn format_sha256_digest(digest: &[u8; SHA256_DIGEST_LEN]) -> (out: String)
    ensures
        out@ == digest_text(digest@),
{
    let encoded = text::chars_of(encode_base64(digest.as_slice()).as_str());
    let mut out = String::from_str("SHA256:");
    text::push_chars(&mut out, text::trimmed_end_of(encoded.as_slice(), '='));
    out
}

/// Format a SHA-256 fingerprint string for bytes in OpenSSH style.
pub fn format_sha256_fingerprint(data: &[u8]) -> (out: String)
    ensures
        out@ == digest_text(crypto::sha256(data@)),
{
    format_sha256_digest(&sha256_bytes(data))
}

} // verus!
