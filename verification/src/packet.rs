//! The packets of the protocol and their byte form.

use vstd::prelude::*;
use vstd::slice::{slice_subrange, slice_to_vec};
use vstd::string::StringExecFns;

use crate::bytes;
use crate::crypto::{ED25519_PUBLIC_KEY_LEN, ED25519_SIGNATURE_LEN, SHA256_DIGEST_LEN};
use crate::keys;
use crate::keys::{
    conn_signature_len, ConnSign, ConnVerify, PacketSign, PacketVerify, SignError,
    CONN_SIGNATURE_LEN,
};
use crate::text;

verus! {

/// The first byte of a `ServerHello`.
pub const PACKET_TYPE_SERVER_HELLO: u8 = 0;

/// The only byte of a `RequestServerPubkey`.
pub const PACKET_TYPE_REQUEST_SERVER_PUBKEY: u8 = 1;

/// The first byte of a `ServerPubkey`.
pub const PACKET_TYPE_SERVER_PUBKEY: u8 = 2;

/// The first byte of a `ClientHello`.
pub const PACKET_TYPE_CLIENT_HELLO: u8 = 3;

/// The first byte of a `ServerComplete`.
pub const PACKET_TYPE_SERVER_COMPLETE: u8 = 4;

/// The first byte of a `Payload`.
pub const PACKET_TYPE_PAYLOAD: u8 = 5;

/// Why bytes are no packet, or a packet was not turned into bytes.
#[derive(Clone, Copy, Debug, PartialEq, Eq, Structural)]
pub enum PacketError {
    /// There are no bytes.
    Empty,
    /// No packet has this type.
    UnknownType(u8),
    /// A field is cut short.
    Truncated { needed: usize, got: usize },
    /// Bytes follow a `ServerHello`.
    ServerHelloTrailing,
    /// Bytes follow a `ClientHello`.
    ClientHelloTrailing,
    /// Bytes follow a `RequestServerPubkey`.
    RequestTrailing,
    /// A signed packet has no room for its signatures.
    SignedTruncated { got: usize, needed: usize },
    /// The signature of a `ServerComplete` has another length.
    CompleteLength { got: usize, needed: usize },
    /// A `ClientHello` was expected, and the packet has this type.
    ExpectedClientHello(u8),
    /// A `ClientHello` came where no server challenge is known.
    MissingServerUnique,
    /// A `ClientHello` came where no connection verifier is known.
    MissingConnVerifier,
    /// A `Payload` came where no packet verifier is known.
    MissingPacketVerifier,
    /// A signature was not accepted.
    SignatureRejected,
    /// A `ClientHello` cannot be sent unsigned.
    NeedsConnSign,
    /// A `Payload` cannot be sent unsigned.
    NeedsPacketSign,
    /// Another packet than a `ClientHello` was to be signed with a connection key.
    OnlyClientHello,
    /// Another packet than a `Payload` was to be signed with a packet key.
    OnlyPayload,
    /// Signing failed.
    Sign(SignError),
}

impl PacketError {
    /// What `message` says.
    pub open spec fn text(&self) -> Seq<char> {
        match self {
            PacketError::Empty => "packet is empty"@,
            PacketError::UnknownType(t) => "unknown packet type "@ + text::decimal(*t as nat),
            PacketError::Truncated { needed, got } => "expected at least "@ + text::decimal(
                *needed as nat,
            ) + " bytes, got "@ + text::decimal(*got as nat),
            PacketError::ServerHelloTrailing => "server hello has trailing bytes"@,
            PacketError::ClientHelloTrailing => "client hello has trailing bytes"@,
            PacketError::RequestTrailing => "request server pubkey has trailing bytes"@,
            PacketError::SignedTruncated { got, needed } => "signed packet truncated: "@
                + text::decimal(*got as nat) + " < "@ + text::decimal(*needed as nat),
            PacketError::CompleteLength { got, needed } => "server complete signature length "@
                + text::decimal(*got as nat) + " != "@ + text::decimal(*needed as nat),
            PacketError::ExpectedClientHello(t) => "expected ClientHello, got packet type "@
                + text::decimal(*t as nat),
            PacketError::MissingServerUnique => "missing ClientHello server_unique"@,
            PacketError::MissingConnVerifier => "missing conn verifier"@,
            PacketError::MissingPacketVerifier => "missing packet verifier"@,
            PacketError::SignatureRejected => "packet signature verification failed"@,
            PacketError::NeedsConnSign => "ClientHello requires a ConnSign signer"@,
            PacketError::NeedsPacketSign => "Payload requires a PacketSign signer"@,
            PacketError::OnlyClientHello => "only ClientHello uses ConnSign packet signing"@,
            PacketError::OnlyPayload => "only Payload uses PacketSign packet signing"@,
            PacketError::Sign(e) => e.text(),
        }
    }

    /// Describe the error in words.
    pub fn message(&self) -> (out: String)
        ensures
            out@ == self.text(),
    {
        match self {
            PacketError::Empty => String::from_str("packet is empty"),
            PacketError::UnknownType(t) => {
                let mut out = String::from_str("unknown packet type ");
                text::push_decimal(&mut out, *t as u64);
                out
            },
            PacketError::Truncated { needed, got } => {
                let mut out = String::from_str("expected at least ");
                text::push_decimal(&mut out, *needed as u64);
                out.append(" bytes, got ");
                text::push_decimal(&mut out, *got as u64);
                out
            },
            PacketError::ServerHelloTrailing => String::from_str("server hello has trailing bytes"),
            PacketError::ClientHelloTrailing => String::from_str("client hello has trailing bytes"),
            PacketError::RequestTrailing => String::from_str(
                "request server pubkey has trailing bytes",
            ),
            PacketError::SignedTruncated { got, needed } => {
                let mut out = String::from_str("signed packet truncated: ");
                text::push_decimal(&mut out, *got as u64);
                out.append(" < ");
                text::push_decimal(&mut out, *needed as u64);
                out
            },
            PacketError::CompleteLength { got, needed } => {
                let mut out = String::from_str("server complete signature length ");
                text::push_decimal(&mut out, *got as u64);
                out.append(" != ");
                text::push_decimal(&mut out, *needed as u64);
                out
            },
            PacketError::ExpectedClientHello(t) => {
                let mut out = String::from_str("expected ClientHello, got packet type ");
                text::push_decimal(&mut out, *t as u64);
                out
            },
            PacketError::MissingServerUnique => String::from_str(
                "missing ClientHello server_unique",
            ),
            PacketError::MissingConnVerifier => String::from_str("missing conn verifier"),
            PacketError::MissingPacketVerifier => String::from_str("missing packet verifier"),
            PacketError::SignatureRejected => String::from_str(
                "packet signature verification failed",
            ),
            PacketError::NeedsConnSign => String::from_str(
                "ClientHello requires a ConnSign signer",
            ),
            PacketError::NeedsPacketSign => String::from_str(
                "Payload requires a PacketSign signer",
            ),
            PacketError::OnlyClientHello => String::from_str(
                "only ClientHello uses ConnSign packet signing",
            ),
            PacketError::OnlyPayload => String::from_str(
                "only Payload uses PacketSign packet signing",
            ),
            PacketError::Sign(e) => e.message(),
        }
    }
}

/// What a hello says.
#[verifier::ext_equal]
pub struct HelloView {
    /// The challenge of the side that says hello.
    pub unique: u64,
    /// The SHA-256 digest of its public key bundle.
    pub digest: Seq<u8>,
    /// Its packet key.
    pub packet_key: Seq<u8>,
}

impl HelloView {
    /// Whether the digest and the packet key have the lengths that they are sent with.
    pub open spec fn valid(&self) -> bool {
        &&& self.digest.len() == SHA256_DIGEST_LEN
        &&& self.packet_key.len() == ED25519_PUBLIC_KEY_LEN
    }
}

/// What a packet says.
#[verifier::ext_equal]
pub enum PacketView {
    ServerHello(HelloView),
    RequestServerPubkey,
    ServerPubkey(Seq<u8>),
    ClientHello(HelloView),
    ServerComplete(Seq<u8>),
    Payload(Seq<u8>),
}

impl PacketView {
    /// Whether every field has the length that it is sent with.
    pub open spec fn valid(&self) -> bool {
        match self {
            PacketView::ServerHello(hello) => hello.valid(),
            PacketView::ClientHello(hello) => hello.valid(),
            PacketView::ServerComplete(signature) => signature.len() == CONN_SIGNATURE_LEN,
            _ => true,
        }
    }
}

/// The body of a hello: the challenge as eight big-endian bytes, the digest and the packet key.
pub open spec fn hello_bytes(hello: HelloView) -> Seq<u8> {
    bytes::be_bytes(hello.unique as nat, 8) + hello.digest + hello.packet_key
}

/// The hello of which `data` is the body; `trailing` is the error if bytes follow it.
pub open spec fn parsed_hello(data: Seq<u8>, trailing: PacketError) -> Result<
    HelloView,
    PacketError,
> {
    if data.len() < 8 {
        Err(PacketError::Truncated { needed: 8, got: data.len() as usize })
    } else if data.len() - 8 < SHA256_DIGEST_LEN {
        Err(
            PacketError::Truncated { needed: SHA256_DIGEST_LEN, got: (data.len() - 8) as usize },
        )
    } else if data.len() - 40 < ED25519_PUBLIC_KEY_LEN {
        Err(
            PacketError::Truncated {
                needed: ED25519_PUBLIC_KEY_LEN,
                got: (data.len() - 40) as usize,
            },
        )
    } else if data.len() > 72 {
        Err(trailing)
    } else {
        Ok(
            HelloView {
                unique: bytes::be_value(data.take(8)) as u64,
                digest: data.subrange(8, 40),
                packet_key: data.skip(40),
            },
        )
    }
}

/// The hello in the bytes of a `ClientHello`, whatever its signatures are.
pub open spec fn peeked_client_hello(data: Seq<u8>) -> Result<HelloView, PacketError> {
    if data.len() == 0 {
        Err(PacketError::Empty)
    } else if data[0] != PACKET_TYPE_CLIENT_HELLO {
        Err(PacketError::ExpectedClientHello(data[0]))
    } else if data.len() - 1 < CONN_SIGNATURE_LEN {
        Err(
            PacketError::SignedTruncated {
                got: (data.len() - 1) as usize,
                needed: CONN_SIGNATURE_LEN,
            },
        )
    } else {
        parsed_hello(data.skip(1 + CONN_SIGNATURE_LEN), PacketError::ClientHelloTrailing)
    }
}

/// The packet of which `data` is the byte form, where it is known whether there is a server
/// challenge, and whether the signatures are accepted if there is a verifier to tell.
pub open spec fn parsed_with(
    data: Seq<u8>,
    has_server_unique: bool,
    conn_verdict: Option<bool>,
    packet_verdict: Option<bool>,
) -> Result<PacketView, PacketError> {
    let rest = data.skip(1);
    if data.len() == 0 {
        Err(PacketError::Empty)
    } else if data[0] == PACKET_TYPE_SERVER_HELLO {
        match parsed_hello(rest, PacketError::ServerHelloTrailing) {
            Ok(hello) => Ok(PacketView::ServerHello(hello)),
            Err(e) => Err(e),
        }
    } else if data[0] == PACKET_TYPE_REQUEST_SERVER_PUBKEY {
        if rest.len() != 0 {
            Err(PacketError::RequestTrailing)
        } else {
            Ok(PacketView::RequestServerPubkey)
        }
    } else if data[0] == PACKET_TYPE_SERVER_PUBKEY {
        Ok(PacketView::ServerPubkey(rest))
    } else if data[0] == PACKET_TYPE_CLIENT_HELLO {
        match peeked_client_hello(data) {
            Err(e) => Err(e),
            Ok(hello) => if !has_server_unique {
                Err(PacketError::MissingServerUnique)
            } else {
                match conn_verdict {
                    None => Err(PacketError::MissingConnVerifier),
                    Some(false) => Err(PacketError::SignatureRejected),
                    Some(true) => Ok(PacketView::ClientHello(hello)),
                }
            },
        }
    } else if data[0] == PACKET_TYPE_SERVER_COMPLETE {
        if rest.len() != CONN_SIGNATURE_LEN {
            Err(
                PacketError::CompleteLength {
                    got: rest.len() as usize,
                    needed: CONN_SIGNATURE_LEN,
                },
            )
        } else {
            Ok(PacketView::ServerComplete(rest))
        }
    } else if data[0] == PACKET_TYPE_PAYLOAD {
        match packet_verdict {
            None => Err(PacketError::MissingPacketVerifier),
            Some(accepted) => if accepted && rest.len() >= ED25519_SIGNATURE_LEN {
                Ok(PacketView::Payload(rest.skip(ED25519_SIGNATURE_LEN as int)))
            } else {
                Err(PacketError::SignatureRejected)
            },
        }
    } else {
        Err(PacketError::UnknownType(data[0]))
    }
}

/// Whether the signatures of a `ClientHello` in `data` are accepted, if both the server challenge
/// and the public key bundle are known.
pub open spec fn client_hello_verdict(
    data: Seq<u8>,
    server_unique: Option<u64>,
    conn_key: Option<Seq<u8>>,
) -> Option<bool> {
    match (server_unique, conn_key) {
        (Some(unique), Some(key)) => Some(
            keys::conn_accepted(key, bytes::be_bytes(unique as nat, 8), data.skip(1)),
        ),
        _ => None,
    }
}

/// Whether the signature of a `Payload` in `data` is accepted, if the packet key is known. The
/// packet key comes with the number that the packet should have.
pub open spec fn payload_verdict(data: Seq<u8>, packet_key: Option<(Seq<u8>, nat)>) -> Option<
    bool,
> {
    match packet_key {
        Some((key, counter)) => Some(keys::packet_accepted(key, counter, data.skip(1))),
        None => None,
    }
}

/// The packet of which `data` is the byte form.
pub open spec fn parsed(
    data: Seq<u8>,
    server_unique: Option<u64>,
    conn_key: Option<Seq<u8>>,
    packet_key: Option<(Seq<u8>, nat)>,
) -> Result<PacketView, PacketError> {
    parsed_with(
        data,
        server_unique is Some,
        client_hello_verdict(data, server_unique, conn_key),
        payload_verdict(data, packet_key),
    )
}

/// Whether `data` is long enough to be the byte form of a `Payload`.
pub open spec fn may_be_accepted(data: Seq<u8>) -> bool {
    data.len() > ED25519_SIGNATURE_LEN && data[0] == PACKET_TYPE_PAYLOAD
}

/// The byte form of a packet that is sent unsigned.
pub open spec fn unsigned_bytes(packet: PacketView) -> Result<Seq<u8>, PacketError> {
    match packet {
        PacketView::ServerHello(hello) => Ok(
            seq![PACKET_TYPE_SERVER_HELLO] + hello_bytes(hello),
        ),
        PacketView::RequestServerPubkey => Ok(seq![PACKET_TYPE_REQUEST_SERVER_PUBKEY]),
        PacketView::ServerPubkey(key) => Ok(seq![PACKET_TYPE_SERVER_PUBKEY] + key),
        PacketView::ServerComplete(signature) => Ok(seq![PACKET_TYPE_SERVER_COMPLETE] + signature),
        PacketView::ClientHello(_) => Err(PacketError::NeedsConnSign),
        PacketView::Payload(_) => Err(PacketError::NeedsPacketSign),
    }
}

/// The name and the fields of a hello.
pub open spec fn hello_description(name: Seq<char>, hello: HelloView) -> Seq<char> {
    name + " { unique: "@ + text::decimal(hello.unique as nat)
        + ", conn_sign_public_key_sha256: ["@ + text::decimal_list(hello.digest)
        + "], packet_sign_public_key: ["@ + text::decimal_list(hello.packet_key) + "] }"@
}

/// The name and the fields of a packet.
pub open spec fn description(packet: PacketView) -> Seq<char> {
    match packet {
        PacketView::ServerHello(hello) => "ServerHello("@ + hello_description(
            "ServerHello"@,
            hello,
        ) + ")"@,
        PacketView::RequestServerPubkey => "RequestServerPubkey"@,
        PacketView::ServerPubkey(key) => "ServerPubkey(ServerPubkey(["@ + text::decimal_list(key)
            + "]))"@,
        PacketView::ClientHello(hello) => "ClientHello("@ + hello_description(
            "ClientHello"@,
            hello,
        ) + ")"@,
        PacketView::ServerComplete(signature) => "ServerComplete(ServerComplete { signature: ["@
            + text::decimal_list(signature) + "] })"@,
        PacketView::Payload(data) => "Payload(["@ + text::decimal_list(data) + "])"@,
    }
}

/// A hello is read back from its body.
pub proof fn law_hello_round_trip(hello: HelloView, trailing: PacketError)
    requires
        hello.valid(),
    ensures
        parsed_hello(hello_bytes(hello), trailing) == Ok::<HelloView, PacketError>(hello),
{
    let data = hello_bytes(hello);
    bytes::lemma_widths();
    bytes::lemma_be_bytes_len(hello.unique as nat, 8);
    bytes::law_be_bytes_round_trip(hello.unique as nat, 8);
    assert(data.take(8) =~= bytes::be_bytes(hello.unique as nat, 8));
    assert(data.subrange(8, 40) =~= hello.digest);
    assert(data.skip(40) =~= hello.packet_key);
}

/// The layout of every hello body: 72 bytes, of which the first eight are the challenge with the
/// most significant byte first, the next 32 the digest and the last 32 the packet key.
pub proof fn law_hello_layout(hello: HelloView)
    requires
        hello.digest.len() == 32,
        hello.packet_key.len() == 32,
    ensures
        hello_bytes(hello).len() == 72,
        hello_bytes(hello)[0] == hello.unique / 0x100_0000_0000_0000,
        hello_bytes(hello)[1] == hello.unique / 0x1_0000_0000_0000 % 256,
        hello_bytes(hello)[2] == hello.unique / 0x100_0000_0000 % 256,
        hello_bytes(hello)[3] == hello.unique / 0x1_0000_0000 % 256,
        hello_bytes(hello)[4] == hello.unique / 0x100_0000 % 256,
        hello_bytes(hello)[5] == hello.unique / 0x1_0000 % 256,
        hello_bytes(hello)[6] == hello.unique / 256 % 256,
        hello_bytes(hello)[7] == hello.unique % 256,
        hello_bytes(hello).subrange(8, 40) == hello.digest,
        hello_bytes(hello).subrange(40, 72) == hello.packet_key,
{
    bytes::law_be_bytes_of_eight(hello.unique);
}

/// Every 72 bytes are a hello body, and its three fields are read from their places whatever they
/// hold.
pub proof fn law_hello_is_read_by_place(data: Seq<u8>, trailing: PacketError)
    requires
        data.len() == 72,
    ensures
        parsed_hello(data, trailing) matches Ok(hello) && {
            &&& hello.valid()
            &&& hello.unique == data[0] * 0x100_0000_0000_0000 + data[1] * 0x1_0000_0000_0000
                + data[2] * 0x100_0000_0000 + data[3] * 0x1_0000_0000 + data[4] * 0x100_0000
                + data[5] * 0x1_0000 + data[6] * 256 + data[7]
            &&& hello.digest == data.subrange(8, 40)
            &&& hello.packet_key == data.subrange(40, 72)
        },
{
    bytes::law_be_value_of_eight(data.take(8));
    assert(data.skip(40) =~= data.subrange(40, 72));
}

/// Bytes of another length are no hello body: the first field that they cut short is named, or
/// what follows the last field is refused.
pub proof fn law_hello_of_another_length(data: Seq<u8>, trailing: PacketError)
    ensures
        data.len() < 8 ==> parsed_hello(data, trailing) == Err::<HelloView, PacketError>(
            PacketError::Truncated { needed: 8, got: data.len() as usize },
        ),
        8 <= data.len() < 40 ==> parsed_hello(data, trailing) == Err::<HelloView, PacketError>(
            PacketError::Truncated { needed: 32, got: (data.len() - 8) as usize },
        ),
        40 <= data.len() < 72 ==> parsed_hello(data, trailing) == Err::<HelloView, PacketError>(
            PacketError::Truncated { needed: 32, got: (data.len() - 40) as usize },
        ),
        data.len() > 72 ==> parsed_hello(data, trailing) == Err::<HelloView, PacketError>(trailing),
{
}

/// The bytes of each packet that is sent unsigned: its type and what it holds.
pub proof fn law_unsigned_packet_layout(hello: HelloView, data: Seq<u8>)
    ensures
        unsigned_bytes(PacketView::ServerHello(hello)) == Ok::<Seq<u8>, PacketError>(
            seq![0u8] + hello_bytes(hello),
        ),
        unsigned_bytes(PacketView::RequestServerPubkey) == Ok::<Seq<u8>, PacketError>(seq![1u8]),
        unsigned_bytes(PacketView::ServerPubkey(data)) == Ok::<Seq<u8>, PacketError>(
            seq![2u8] + data,
        ),
        unsigned_bytes(PacketView::ServerComplete(data)) == Ok::<Seq<u8>, PacketError>(
            seq![4u8] + data,
        ),
        unsigned_bytes(PacketView::ClientHello(hello)) == Err::<Seq<u8>, PacketError>(
            PacketError::NeedsConnSign,
        ),
        unsigned_bytes(PacketView::Payload(data)) == Err::<Seq<u8>, PacketError>(
            PacketError::NeedsPacketSign,
        ),
{
}

/// The first byte decides which packet the rest is read as, and each type of packet is accepted
/// for exactly the bytes that it allows, whatever the reader knows of the others.
pub proof fn law_packet_is_read_by_type(
    data: Seq<u8>,
    server_unique: Option<u64>,
    conn_key: Option<Seq<u8>>,
    packet_key: Option<(Seq<u8>, nat)>,
)
    ensures
        ({
            let read = parsed(data, server_unique, conn_key, packet_key);
            let rest = data.subrange(1, data.len() as int);
            &&& data.len() == 0 ==> read == Err::<PacketView, PacketError>(PacketError::Empty)
            &&& data.len() > 0 ==> {
                &&& data[0] == 0 ==> match parsed_hello(rest, PacketError::ServerHelloTrailing) {
                    Ok(hello) => read == Ok::<PacketView, PacketError>(
                        PacketView::ServerHello(hello),
                    ),
                    Err(e) => read == Err::<PacketView, PacketError>(e),
                }
                &&& data[0] == 1 && data.len() == 1 ==> read == Ok::<PacketView, PacketError>(
                    PacketView::RequestServerPubkey,
                )
                &&& data[0] == 1 && data.len() > 1 ==> read == Err::<PacketView, PacketError>(
                    PacketError::RequestTrailing,
                )
                &&& data[0] == 2 ==> read == Ok::<PacketView, PacketError>(
                    PacketView::ServerPubkey(rest),
                )
                &&& data[0] == 4 && data.len() == 2485 ==> read == Ok::<PacketView, PacketError>(
                    PacketView::ServerComplete(rest),
                )
                &&& data[0] == 4 && data.len() != 2485 ==> read == Err::<PacketView, PacketError>(
                    PacketError::CompleteLength { got: rest.len() as usize, needed: 2484 },
                )
                &&& data[0] > 5 ==> read == Err::<PacketView, PacketError>(
                    PacketError::UnknownType(data[0]),
                )
            }
        }),
{
    if data.len() > 0 {
        assert(data.skip(1) =~= data.subrange(1, data.len() as int));
    }
}

/// A `Payload` is accepted exactly where the reader knows a packet key and that key accepts the
/// bytes behind the type for the number of packets accepted before; its data stands behind the
/// type and a signature of 64 bytes.
pub proof fn law_payload_needs_its_signature(
    data: Seq<u8>,
    server_unique: Option<u64>,
    conn_key: Option<Seq<u8>>,
    key: Seq<u8>,
    counter: nat,
)
    requires
        data.len() > 0,
        data[0] == 5,
    ensures
        parsed(data, server_unique, conn_key, None) == Err::<PacketView, PacketError>(
            PacketError::MissingPacketVerifier,
        ),
        keys::packet_accepted(key, counter, data.subrange(1, data.len() as int)) ==> parsed(
            data,
            server_unique,
            conn_key,
            Some((key, counter)),
        ) == Ok::<PacketView, PacketError>(
            PacketView::Payload(data.subrange(65, data.len() as int)),
        ),
        !keys::packet_accepted(key, counter, data.subrange(1, data.len() as int)) ==> parsed(
            data,
            server_unique,
            conn_key,
            Some((key, counter)),
        ) == Err::<PacketView, PacketError>(PacketError::SignatureRejected),
{
    let rest = data.subrange(1, data.len() as int);
    assert(data.skip(1) =~= rest);
    if keys::packet_accepted(key, counter, rest) {
        assert(rest.skip(64) =~= data.subrange(65, data.len() as int));
    }
}

/// A `ClientHello` carries its hello behind the type and signatures of 2484 bytes. It is accepted
/// exactly where that hello can be read, the reader knows both the challenge and the key bundle,
/// and the bundle accepts the signatures for the challenge.
pub proof fn law_client_hello_needs_its_signatures(
    data: Seq<u8>,
    unique: u64,
    key: Seq<u8>,
    packet_key: Option<(Seq<u8>, nat)>,
)
    requires
        data.len() >= 2485,
        data[0] == 3,
    ensures
        peeked_client_hello(data) == parsed_hello(
            data.subrange(2485, data.len() as int),
            PacketError::ClientHelloTrailing,
        ),
        peeked_client_hello(data) matches Ok(hello) ==> {
            &&& data.len() == 2557
            &&& parsed(data, None, Some(key), packet_key) == Err::<PacketView, PacketError>(
                PacketError::MissingServerUnique,
            )
            &&& parsed(data, Some(unique), None, packet_key) == Err::<PacketView, PacketError>(
                PacketError::MissingConnVerifier,
            )
            &&& keys::conn_accepted(
                key,
                bytes::be_bytes(unique as nat, 8),
                data.subrange(1, 2557),
            ) ==> parsed(data, Some(unique), Some(key), packet_key) == Ok::<
                PacketView,
                PacketError,
            >(PacketView::ClientHello(hello))
            &&& !keys::conn_accepted(
                key,
                bytes::be_bytes(unique as nat, 8),
                data.subrange(1, 2557),
            ) ==> parsed(data, Some(unique), Some(key), packet_key) == Err::<
                PacketView,
                PacketError,
            >(PacketError::SignatureRejected)
        },
        peeked_client_hello(data) matches Err(e) ==> parsed(
            data,
            Some(unique),
            Some(key),
            packet_key,
        ) == Err::<PacketView, PacketError>(e),
{
    assert(data.skip(1) =~= data.subrange(1, data.len() as int));
    assert(data.skip(2485) =~= data.subrange(2485, data.len() as int));
}

/// A `ClientHello` whose hello cannot be read is refused for that, whatever the reader knows; one
/// that can be read is refused for want of the challenge before it is refused for want of the key.
pub proof fn law_client_hello_is_read_first(
    data: Seq<u8>,
    server_unique: Option<u64>,
    conn_key: Option<Seq<u8>>,
    packet_key: Option<(Seq<u8>, nat)>,
)
    requires
        data.len() > 0,
        data[0] == 3,
    ensures
        ({
            let read = parsed(data, server_unique, conn_key, packet_key);
            match peeked_client_hello(data) {
                Err(e) => read == Err::<PacketView, PacketError>(e),
                Ok(_) => {
                    &&& server_unique is None ==> read == Err::<PacketView, PacketError>(
                        PacketError::MissingServerUnique,
                    )
                    &&& server_unique is Some && conn_key is None ==> read == Err::<
                        PacketView,
                        PacketError,
                    >(PacketError::MissingConnVerifier)
                },
            }
        }),
{
}

/// What a packet is described as.
pub proof fn law_description(hello: HelloView, data: Seq<u8>)
    ensures
        description(PacketView::ServerHello(hello)) == "ServerHello(ServerHello { unique: "@
            + text::decimal(hello.unique as nat) + ", conn_sign_public_key_sha256: ["@
            + text::decimal_list(hello.digest) + "], packet_sign_public_key: ["@
            + text::decimal_list(hello.packet_key) + "] })"@,
        description(PacketView::ClientHello(hello)) == "ClientHello(ClientHello { unique: "@
            + text::decimal(hello.unique as nat) + ", conn_sign_public_key_sha256: ["@
            + text::decimal_list(hello.digest) + "], packet_sign_public_key: ["@
            + text::decimal_list(hello.packet_key) + "] })"@,
        description(PacketView::RequestServerPubkey) == "RequestServerPubkey"@,
        description(PacketView::ServerPubkey(data)) == "ServerPubkey(ServerPubkey(["@
            + text::decimal_list(data) + "]))"@,
        description(PacketView::ServerComplete(data))
            == "ServerComplete(ServerComplete { signature: ["@ + text::decimal_list(data)
            + "] })"@,
        description(PacketView::Payload(data)) == "Payload(["@ + text::decimal_list(data) + "])"@,
{
    reveal_strlit("ServerHello(");
    reveal_strlit("ServerHello");
    reveal_strlit("ClientHello(");
    reveal_strlit("ClientHello");
    reveal_strlit(" { unique: ");
    reveal_strlit("] }");
    reveal_strlit(")");
    reveal_strlit("ServerHello(ServerHello { unique: ");
    reveal_strlit("ClientHello(ClientHello { unique: ");
    reveal_strlit("] })");
    let number = text::decimal(hello.unique as nat);
    let digest = ", conn_sign_public_key_sha256: ["@ + text::decimal_list(hello.digest);
    let key = "], packet_sign_public_key: ["@ + text::decimal_list(hello.packet_key);
    assert("ServerHello("@ + "ServerHello"@ + " { unique: "@
        =~= "ServerHello(ServerHello { unique: "@);
    assert("ClientHello("@ + "ClientHello"@ + " { unique: "@
        =~= "ClientHello(ClientHello { unique: "@);
    assert("] }"@ + ")"@ =~= "] })"@);
    assert(description(PacketView::ServerHello(hello)) =~= ("ServerHello("@ + "ServerHello"@
        + " { unique: "@) + number + digest + key + ("] }"@ + ")"@));
    assert(description(PacketView::ClientHello(hello)) =~= ("ClientHello("@ + "ClientHello"@
        + " { unique: "@) + number + digest + key + ("] }"@ + ")"@));
    assert(("ServerHello(ServerHello { unique: "@ + number + digest + key + "] })"@)
        =~= "ServerHello(ServerHello { unique: "@ + number + ", conn_sign_public_key_sha256: ["@
        + text::decimal_list(hello.digest) + "], packet_sign_public_key: ["@ + text::decimal_list(
        hello.packet_key,
    ) + "] })"@);
    assert(("ClientHello(ClientHello { unique: "@ + number + digest + key + "] })"@)
        =~= "ClientHello(ClientHello { unique: "@ + number + ", conn_sign_public_key_sha256: ["@
        + text::decimal_list(hello.digest) + "], packet_sign_public_key: ["@ + text::decimal_list(
        hello.packet_key,
    ) + "] })"@);
}

/// What is said of a packet that is refused for a number names that number: the type, or how many
/// bytes there are and how many there should be.
pub proof fn law_packet_error_names_its_numbers(kind: u8, needed: usize, got: usize)
    ensures
        PacketError::UnknownType(kind).text() == "unknown packet type "@ + text::decimal(
            kind as nat,
        ),
        PacketError::ExpectedClientHello(kind).text()
            == "expected ClientHello, got packet type "@ + text::decimal(kind as nat),
        (PacketError::Truncated { needed, got }).text() == "expected at least "@ + text::decimal(
            needed as nat,
        ) + " bytes, got "@ + text::decimal(got as nat),
        (PacketError::SignedTruncated { got, needed }).text() == "signed packet truncated: "@
            + text::decimal(got as nat) + " < "@ + text::decimal(needed as nat),
        (PacketError::CompleteLength { got, needed }).text()
            == "server complete signature length "@ + text::decimal(got as nat) + " != "@
            + text::decimal(needed as nat),
{
}

/// Bytes that are no `ClientHello`, or one that is cut short within its signatures, show no
/// hello.
pub proof fn law_no_client_hello(data: Seq<u8>)
    ensures
        data.len() == 0 ==> peeked_client_hello(data) == Err::<HelloView, PacketError>(
            PacketError::Empty,
        ),
        data.len() > 0 && data[0] != 3 ==> peeked_client_hello(data) == Err::<
            HelloView,
            PacketError,
        >(PacketError::ExpectedClientHello(data[0])),
        0 < data.len() < 2485 && data[0] == 3 ==> peeked_client_hello(data) == Err::<
            HelloView,
            PacketError,
        >(PacketError::SignedTruncated { got: (data.len() - 1) as usize, needed: 2484 }),
{
}

/// A packet that is sent unsigned is read back from its bytes, whatever challenge and keys the
/// reader knows.
pub proof fn law_unsigned_packet_round_trip(
    packet: PacketView,
    server_unique: Option<u64>,
    conn_key: Option<Seq<u8>>,
    packet_key: Option<(Seq<u8>, nat)>,
)
    requires
        packet.valid(),
        unsigned_bytes(packet) is Ok,
    ensures
        parsed(unsigned_bytes(packet)->Ok_0, server_unique, conn_key, packet_key) == Ok::<
            PacketView,
            PacketError,
        >(packet),
{
    let data = unsigned_bytes(packet)->Ok_0;
    match packet {
        PacketView::ServerHello(hello) => {
            law_hello_round_trip(hello, PacketError::ServerHelloTrailing);
            assert(data.skip(1) =~= hello_bytes(hello));
        },
        PacketView::RequestServerPubkey => {},
        PacketView::ServerPubkey(key) => {
            assert(data.skip(1) =~= key);
        },
        PacketView::ServerComplete(signature) => {
            assert(data.skip(1) =~= signature);
        },
        _ => {},
    }
}

/// A packet that is sent unsigned has one byte form: bytes that are read as such a packet are the
/// bytes that it is sent as.
pub proof fn law_unsigned_packet_has_one_form(
    data: Seq<u8>,
    server_unique: Option<u64>,
    conn_key: Option<Seq<u8>>,
    packet_key: Option<(Seq<u8>, nat)>,
)
    requires
        parsed(data, server_unique, conn_key, packet_key) matches Ok(packet)
            && unsigned_bytes(packet) is Ok,
    ensures
        unsigned_bytes(parsed(data, server_unique, conn_key, packet_key)->Ok_0) == Ok::<
            Seq<u8>,
            PacketError,
        >(data),
{
    let packet = parsed(data, server_unique, conn_key, packet_key)->Ok_0;
    let rest = data.skip(1);
    assert(data =~= seq![data[0]] + rest);
    match packet {
        PacketView::ServerHello(hello) => {
            let head = rest.take(8);
            bytes::lemma_widths();
            bytes::lemma_be_value_bound(head);
            bytes::law_be_value_round_trip(head);
            assert(rest =~= head + rest.subrange(8, 40) + rest.skip(40));
            assert(hello_bytes(hello) == rest);
        },
        PacketView::RequestServerPubkey => {
            assert(rest =~= Seq::empty());
            assert(data =~= seq![PACKET_TYPE_REQUEST_SERVER_PUBKEY]);
        },
        _ => {},
    }
}

/// A `ClientHello` is read back from its bytes by whoever knows the challenge that it was signed
/// for and the key that it was signed with.
pub proof fn law_client_hello_round_trip(
    hello: HelloView,
    signed: Seq<u8>,
    server_unique: u64,
    conn_key: Seq<u8>,
    packet_key: Option<(Seq<u8>, nat)>,
)
    requires
        hello.valid(),
        keys::conn_accepted(conn_key, bytes::be_bytes(server_unique as nat, 8), signed),
        signed.skip(CONN_SIGNATURE_LEN as int) == hello_bytes(hello),
    ensures
        peeked_client_hello(seq![PACKET_TYPE_CLIENT_HELLO] + signed) == Ok::<
            HelloView,
            PacketError,
        >(hello),
        parsed(
            seq![PACKET_TYPE_CLIENT_HELLO] + signed,
            Some(server_unique),
            Some(conn_key),
            packet_key,
        ) == Ok::<PacketView, PacketError>(PacketView::ClientHello(hello)),
{
    let data = seq![PACKET_TYPE_CLIENT_HELLO] + signed;
    law_hello_round_trip(hello, PacketError::ClientHelloTrailing);
    assert(data.skip(1) =~= signed);
    assert(data.skip(1 + CONN_SIGNATURE_LEN) =~= hello_bytes(hello));
}

/// A `Payload` is read back from its bytes by whoever knows the key that it was signed with and
/// has accepted as many packets as were signed before it.
pub proof fn law_payload_round_trip(
    signed: Seq<u8>,
    key: Seq<u8>,
    counter: nat,
    server_unique: Option<u64>,
    conn_key: Option<Seq<u8>>,
)
    requires
        keys::packet_accepted(key, counter, signed),
    ensures
        parsed(
            seq![PACKET_TYPE_PAYLOAD] + signed,
            server_unique,
            conn_key,
            Some((key, counter)),
        ) == Ok::<PacketView, PacketError>(
            PacketView::Payload(signed.skip(ED25519_SIGNATURE_LEN as int)),
        ),
{
    let data = seq![PACKET_TYPE_PAYLOAD] + signed;
    assert(data.skip(1) =~= signed);
}

/// Two hellos with the same body, signed for two challenges, are the same hello signed for the
/// same challenge. So a `ClientHello` that is replayed in another connection is held against
/// bytes that its signatures were not made for.
pub proof fn law_client_hello_input_injective(
    server_unique: u64,
    hello: HelloView,
    other_unique: u64,
    other: HelloView,
)
    requires
        hello.valid(),
        other.valid(),
        bytes::be_bytes(server_unique as nat, 8) + hello_bytes(hello) == bytes::be_bytes(
            other_unique as nat,
            8,
        ) + hello_bytes(other),
    ensures
        server_unique == other_unique,
        hello == other,
{
    keys::law_packet_input_injective(
        server_unique,
        hello_bytes(hello),
        other_unique,
        hello_bytes(other),
    );
    law_hello_round_trip(hello, PacketError::Empty);
    law_hello_round_trip(other, PacketError::Empty);
}

/// The server's parameters.
#[derive(Clone, Debug, PartialEq, Eq)]
pub struct ServerHello {
    unique: u64,
    conn_sign_public_key_sha256: [u8; SHA256_DIGEST_LEN],
    packet_sign_public_key: [u8; ED25519_PUBLIC_KEY_LEN],
}

impl View for ServerHello {
    type V = HelloView;

    closed spec fn view(&self) -> HelloView {
        HelloView {
            unique: self.unique,
            digest: self.conn_sign_public_key_sha256@,
            packet_key: self.packet_sign_public_key@,
        }
    }
}

impl ServerHello {
    /// Create a server hello with a connection-unique identifier, a server key digest, and a
    /// packet key.
    pub fn new(
        unique: u64,
        conn_sign_public_key_sha256: [u8; SHA256_DIGEST_LEN],
        packet_sign_public_key: [u8; ED25519_PUBLIC_KEY_LEN],
    ) -> (hello: Self)
        ensures
            hello@.unique == unique,
            hello@.digest == conn_sign_public_key_sha256@,
            hello@.packet_key == packet_sign_public_key@,
    {
        ServerHello { unique, conn_sign_public_key_sha256, packet_sign_public_key }
    }

    /// Return the server's connection-unique identifier.
    pub fn unique(&self) -> (unique: u64)
        ensures
            unique == self@.unique,
    {
        self.unique
    }

    /// Return the SHA-256 digest of the server's bundled public key bytes.
    pub fn conn_sign_public_key_sha256(&self) -> (digest: [u8; SHA256_DIGEST_LEN])
        ensures
            digest@ == self@.digest,
    {
        self.conn_sign_public_key_sha256
    }

    /// Return the server's Ed25519 public key bytes.
    pub fn packet_sign_public_key(&self) -> (key: [u8; ED25519_PUBLIC_KEY_LEN])
        ensures
            key@ == self@.packet_key,
    {
        self.packet_sign_public_key
    }
}

/// The server's public key bundle.
#[derive(Clone, Debug, PartialEq, Eq)]
pub struct ServerPubkey(Vec<u8>);

impl View for ServerPubkey {
    type V = Seq<u8>;

    closed spec fn view(&self) -> Seq<u8> {
        self.0@
    }
}

impl ServerPubkey {
    /// Create a server public key packet body from a public key bundle.
    pub fn new(conn_sign_public_key: Vec<u8>) -> (key: Self)
        ensures
            key@ == conn_sign_public_key@,
    {
        ServerPubkey(conn_sign_public_key)
    }

    /// Return the public key bundle.
    pub fn conn_sign_public_key(&self) -> (key: &[u8])
        ensures
            key@ == self@,
    {
        self.0.as_slice()
    }
}

/// The client's parameters.
#[derive(Clone, Debug, PartialEq, Eq)]
pub struct ClientHello {
    unique: u64,
    conn_sign_public_key_sha256: [u8; SHA256_DIGEST_LEN],
    packet_sign_public_key: [u8; ED25519_PUBLIC_KEY_LEN],
}

impl View for ClientHello {
    type V = HelloView;

    closed spec fn view(&self) -> HelloView {
        HelloView {
            unique: self.unique,
            digest: self.conn_sign_public_key_sha256@,
            packet_key: self.packet_sign_public_key@,
        }
    }
}

impl ClientHello {
    /// Create a client hello with a client challenge, a client key digest, and a packet key.
    pub fn new(
        unique: u64,
        conn_sign_public_key_sha256: [u8; SHA256_DIGEST_LEN],
        packet_sign_public_key: [u8; ED25519_PUBLIC_KEY_LEN],
    ) -> (hello: Self)
        ensures
            hello@.unique == unique,
            hello@.digest == conn_sign_public_key_sha256@,
            hello@.packet_key == packet_sign_public_key@,
    {
        ClientHello { unique, conn_sign_public_key_sha256, packet_sign_public_key }
    }

    /// Return the client's fresh challenge value.
    pub fn unique(&self) -> (unique: u64)
        ensures
            unique == self@.unique,
    {
        self.unique
    }

    /// Return the SHA-256 digest of the client's bundled public key bytes.
    pub fn conn_sign_public_key_sha256(&self) -> (digest: [u8; SHA256_DIGEST_LEN])
        ensures
            digest@ == self@.digest,
    {
        self.conn_sign_public_key_sha256
    }

    /// Return the client's Ed25519 public key bytes.
    pub fn packet_sign_public_key(&self) -> (key: [u8; ED25519_PUBLIC_KEY_LEN])
        ensures
            key@ == self@.packet_key,
    {
        self.packet_sign_public_key
    }
}

/// The server's signature of the handshake.
#[derive(Clone, Debug, PartialEq, Eq)]
pub struct ServerComplete {
    signature: Vec<u8>,
}

impl View for ServerComplete {
    type V = Seq<u8>;

    closed spec fn view(&self) -> Seq<u8> {
        self.signature@
    }
}

impl ServerComplete {
    /// Create a server-complete packet body from a detached transcript signature.
    pub fn new(signature: Vec<u8>) -> (complete: Self)
        ensures
            complete@ == signature@,
    {
        ServerComplete { signature }
    }

    /// Return the detached server transcript signature.
    pub fn signature(&self) -> (signature: &[u8])
        ensures
            signature@ == self@,
    {
        self.signature.as_slice()
    }
}

/// A packet.
#[derive(Clone, Debug, PartialEq, Eq)]
pub enum Packet {
    /// Server gives parameters, but unsigned.
    ServerHello(ServerHello),
    /// Client requests the server's full public key bundle, unsigned.
    RequestServerPubkey,
    /// Server provides its full public key bundle, unsigned.
    ServerPubkey(ServerPubkey),
    /// Client gives parameters, signed.
    ///
    /// Signed with connection signer.
    ClientHello(ClientHello),
    /// Server completes the handshake with a detached signature over the concatenated
    /// `ServerHello` and `ClientHello` packet bytes.
    ServerComplete(ServerComplete),
    /// User payload in either direction.
    ///
    /// Signed with the packet key.
    Payload(Vec<u8>),
}

impl View for Packet {
    type V = PacketView;

    open spec fn view(&self) -> PacketView {
        match self {
            Packet::ServerHello(hello) => PacketView::ServerHello(hello@),
            Packet::RequestServerPubkey => PacketView::RequestServerPubkey,
            Packet::ServerPubkey(key) => PacketView::ServerPubkey(key@),
            Packet::ClientHello(hello) => PacketView::ClientHello(hello@),
            Packet::ServerComplete(complete) => PacketView::ServerComplete(complete@),
            Packet::Payload(data) => PacketView::Payload(data@),
        }
    }
}

impl Packet {
    /// Serialize an unsigned packet into the wire format.
    ///
    /// `ServerHello`, `RequestServerPubkey`, `ServerPubkey`, and `ServerComplete` are emitted
    /// unsigned.
    ///
    /// `ServerComplete` contains a signature, but its byte contents are not signed.
    pub fn serialize_unsigned(&self) -> (r: Result<Vec<u8>, PacketError>)
        ensures
            match r {
                Ok(out) => unsigned_bytes(self@) == Ok::<Seq<u8>, PacketError>(out@),
                Err(e) => unsigned_bytes(self@) == Err::<Seq<u8>, PacketError>(e),
            },
    {
        match self {
            Packet::ServerHello(hello) => {
                let body = encode_server_hello(hello);
                Ok(with_type(PACKET_TYPE_SERVER_HELLO, body.as_slice()))
            },
            Packet::RequestServerPubkey => {
                let none: [u8; 0] = [];
                let out = with_type(PACKET_TYPE_REQUEST_SERVER_PUBKEY, none.as_slice());
                assert(out@ =~= seq![PACKET_TYPE_REQUEST_SERVER_PUBKEY]);
                Ok(out)
            },
            Packet::ServerPubkey(key) => Ok(
                with_type(PACKET_TYPE_SERVER_PUBKEY, key.conn_sign_public_key()),
            ),
            Packet::ServerComplete(complete) => Ok(
                with_type(PACKET_TYPE_SERVER_COMPLETE, complete.signature()),
            ),
            Packet::ClientHello(_) => Err(PacketError::NeedsConnSign),
            Packet::Payload(_) => Err(PacketError::NeedsPacketSign),
        }
    }

    /// Serialize a `ClientHello` with a connection signer and an implicit server challenge.
    ///
    /// ML-DSA signs with random numbers, and may fail by chance. The bytes are read back by whoever
    /// knows the challenge and the signer's public key.
    pub fn serialize_conn_signed(&self, signer: &ConnSign, server_unique: u64) -> (r: Result<
        Vec<u8>,
        PacketError,
    >)
        ensures
            match (self@, r) {
                (PacketView::ClientHello(hello), Ok(out)) => {
                    &&& out@.len() == 1 + CONN_SIGNATURE_LEN + 72
                    &&& out@[0] == PACKET_TYPE_CLIENT_HELLO
                    &&& out@.skip(1 + CONN_SIGNATURE_LEN) == hello_bytes(hello)
                    &&& parsed(out@, Some(server_unique), Some(signer.public_key()), None) == Ok::<
                        PacketView,
                        PacketError,
                    >(self@)
                },
                (PacketView::ClientHello(_), Err(e)) => e == PacketError::Sign(
                    SignError::Unspecified,
                ),
                (_, Ok(_)) => false,
                (_, Err(e)) => e == PacketError::OnlyClientHello,
            },
    {
        match self {
            Packet::ClientHello(hello) => {
                let body = encode_client_hello(hello);
                let prefix: [u8; 8] = bytes::u64_to_be_bytes(server_unique);
                match signer.sign_prefixed(prefix.as_slice(), body.as_slice()) {
                    Err(e) => Err(PacketError::Sign(e)),
                    Ok(signed) => {
                        proof {
                            bytes::lemma_be_bytes_len(hello@.unique as nat, 8);
                            law_client_hello_round_trip(
                                hello@,
                                signed@,
                                server_unique,
                                signer.public_key(),
                                None,
                            );
                        }
                        let out = with_type(PACKET_TYPE_CLIENT_HELLO, signed.as_slice());
                        assert(out@.skip(1 + CONN_SIGNATURE_LEN) =~= signed@.skip(
                            CONN_SIGNATURE_LEN as int,
                        ));
                        Ok(out)
                    },
                }
            },
            _ => Err(PacketError::OnlyClientHello),
        }
    }

    /// Serialize a `Payload` with a packet signer.
    ///
    /// The bytes are read back by whoever knows the signer's public key and has accepted as many
    /// packets as were signed before.
    pub fn serialize_packet_signed(&self, signer: &mut PacketSign) -> (r: Result<
        Vec<u8>,
        PacketError,
    >)
        requires
            self@ is Payload ==> old(signer).sign_count() < u64::MAX,
        ensures
            final(signer).private_key() == old(signer).private_key(),
            final(signer).public_key() == old(signer).public_key(),
            final(signer).verify_count() == old(signer).verify_count(),
            final(signer).sign_count() == old(signer).sign_count() + if r is Ok {
                1nat
            } else {
                0nat
            },
            match (self@, r) {
                (PacketView::Payload(data), Ok(out)) => {
                    &&& out@ == seq![PACKET_TYPE_PAYLOAD] + keys::signed_packet(
                        old(signer).private_key(),
                        old(signer).sign_count(),
                        data,
                    )
                    &&& parsed(
                        out@,
                        None,
                        None,
                        Some((old(signer).public_key(), old(signer).sign_count())),
                    ) == Ok::<PacketView, PacketError>(self@)
                },
                (PacketView::Payload(_), Err(_)) => false,
                (_, Ok(_)) => false,
                (_, Err(e)) => e == PacketError::OnlyPayload,
            },
    {
        match self {
            Packet::Payload(data) => {
                let ghost key = signer.public_key();
                let ghost counter = signer.sign_count();
                match signer.sign(data.as_slice()) {
                    Err(e) => Err(PacketError::Sign(e)),
                    Ok(signed) => {
                        proof {
                            law_payload_round_trip(signed@, key, counter, None, None);
                        }
                        Ok(with_type(PACKET_TYPE_PAYLOAD, signed.as_slice()))
                    },
                }
            },
            _ => Err(PacketError::OnlyPayload),
        }
    }

    /// Parse a packet whose signatures have been looked at already: `has_server_unique` tells
    /// whether there is a server challenge, and each verdict what the verifier said of the
    /// signatures, if there is a verifier.
    pub fn deserialize_with(
        data: &[u8],
        has_server_unique: bool,
        conn_verdict: Option<bool>,
        packet_verdict: Option<bool>,
    ) -> (r: Result<Self, PacketError>)
        ensures
            match r {
                Ok(packet) => parsed_with(data@, has_server_unique, conn_verdict, packet_verdict)
                    == Ok::<PacketView, PacketError>(packet@) && packet@.valid(),
                Err(e) => parsed_with(data@, has_server_unique, conn_verdict, packet_verdict)
                    == Err::<PacketView, PacketError>(e),
            },
    {
        if data.len() == 0 {
            return Err(PacketError::Empty);
        }
        let packet_type: u8 = data[0];
        let rest = slice_subrange(data, 1, data.len());
        assert(rest@ =~= data@.skip(1));
        if packet_type == PACKET_TYPE_SERVER_HELLO {
            match decode_server_hello(rest) {
                Ok(hello) => Ok(Packet::ServerHello(hello)),
                Err(e) => Err(e),
            }
        } else if packet_type == PACKET_TYPE_REQUEST_SERVER_PUBKEY {
            if rest.len() != 0 {
                Err(PacketError::RequestTrailing)
            } else {
                Ok(Packet::RequestServerPubkey)
            }
        } else if packet_type == PACKET_TYPE_SERVER_PUBKEY {
            Ok(Packet::ServerPubkey(ServerPubkey(slice_to_vec(rest))))
        } else if packet_type == PACKET_TYPE_CLIENT_HELLO {
            let hello = match Packet::peek_client_hello(data) {
                Ok(hello) => hello,
                Err(e) => return Err(e),
            };
            if !has_server_unique {
                return Err(PacketError::MissingServerUnique);
            }
            match conn_verdict {
                None => Err(PacketError::MissingConnVerifier),
                Some(accepted) => if accepted {
                    Ok(Packet::ClientHello(hello))
                } else {
                    Err(PacketError::SignatureRejected)
                },
            }
        } else if packet_type == PACKET_TYPE_SERVER_COMPLETE {
            match decode_server_complete(rest) {
                Ok(complete) => Ok(Packet::ServerComplete(complete)),
                Err(e) => Err(e),
            }
        } else if packet_type == PACKET_TYPE_PAYLOAD {
            match packet_verdict {
                None => Err(PacketError::MissingPacketVerifier),
                Some(accepted) => if accepted && rest.len() >= ED25519_SIGNATURE_LEN {
                    let body = slice_subrange(rest, ED25519_SIGNATURE_LEN, rest.len());
                    assert(body@ =~= rest@.skip(ED25519_SIGNATURE_LEN as int));
                    Ok(Packet::Payload(slice_to_vec(body)))
                } else {
                    Err(PacketError::SignatureRejected)
                },
            }
        } else {
            Err(PacketError::UnknownType(packet_type))
        }
    }

    /// Parse a packet from the wire format, using external verifiers when the packet does not
    /// carry its own verification key.
    ///
    /// The packet verifier counts a `Payload` that it accepts, and nothing else.
    pub fn deserialize(
        data: &[u8],
        client_hello_server_unique: Option<u64>,
        conn_verifier: Option<&ConnVerify>,
        packet_verifier: Option<&mut PacketVerify>,
    ) -> (r: Result<Self, PacketError>)
        requires
            packet_verifier matches Some(v) ==> may_be_accepted(data@) ==> v.verify_count()
                < u64::MAX,
        ensures
            packet_verifier matches Some(v) ==> {
                &&& final(v).public_key() == v.public_key()
                &&& final(v).verify_count() == v.verify_count() + if r matches Ok(packet)
                    && packet@ is Payload {
                    1nat
                } else {
                    0nat
                }
            },
            ({
                let conn_key = match conn_verifier {
                    Some(v) => Some(v.public_key()),
                    None => None,
                };
                let packet_key = match packet_verifier {
                    Some(v) => Some((v.public_key(), v.verify_count())),
                    None => None,
                };
                match r {
                    Ok(packet) => parsed(data@, client_hello_server_unique, conn_key, packet_key)
                        == Ok::<PacketView, PacketError>(packet@) && packet@.valid(),
                    Err(e) => parsed(data@, client_hello_server_unique, conn_key, packet_key)
                        == Err::<PacketView, PacketError>(e),
                }
            }),
    {
        if data.len() == 0 {
            return Err(PacketError::Empty);
        }
        let packet_type: u8 = data[0];
        let rest = slice_subrange(data, 1, data.len());
        assert(rest@ =~= data@.skip(1));
        let mut conn_verdict: Option<bool> = None;
        let mut packet_verdict: Option<bool> = None;
        if packet_type == PACKET_TYPE_CLIENT_HELLO {
            match (client_hello_server_unique, conn_verifier) {
                (Some(server_unique), Some(v)) => {
                    let prefix: [u8; 8] = bytes::u64_to_be_bytes(server_unique);
                    conn_verdict = Some(v.verify_prefixed(prefix.as_slice(), rest).is_some());
                },
                _ => {},
            }
        } else if packet_type == PACKET_TYPE_PAYLOAD {
            match packet_verifier {
                Some(v) => {
                    packet_verdict = Some(v.verify(rest).is_some());
                },
                None => {},
            }
        }
        Packet::deserialize_with(
            data,
            client_hello_server_unique.is_some(),
            conn_verdict,
            packet_verdict,
        )
    }

    /// Parse a `ClientHello` from wire bytes without verifying its signature.
    pub fn peek_client_hello(data: &[u8]) -> (r: Result<ClientHello, PacketError>)
        ensures
            match r {
                Ok(hello) => peeked_client_hello(data@) == Ok::<HelloView, PacketError>(hello@)
                    && hello@.valid(),
                Err(e) => peeked_client_hello(data@) == Err::<HelloView, PacketError>(e),
            },
    {
        if data.len() == 0 {
            return Err(PacketError::Empty);
        }
        let packet_type: u8 = data[0];
        if packet_type != PACKET_TYPE_CLIENT_HELLO {
            return Err(PacketError::ExpectedClientHello(packet_type));
        }
        let rest = slice_subrange(data, 1, data.len());
        match signed_message(rest, conn_signature_len()) {
            Err(e) => Err(e),
            Ok(body) => {
                assert(body@ =~= data@.skip(1 + CONN_SIGNATURE_LEN));
                decode_client_hello(body)
            },
        }
    }

    /// Return the packet type byte from wire bytes.
    pub fn peek_type(data: &[u8]) -> (r: Result<u8, PacketError>)
        ensures
            data@.len() > 0 ==> r == Ok::<u8, PacketError>(data@[0]),
            data@.len() == 0 ==> r == Err::<u8, PacketError>(PacketError::Empty),
    {
        if data.len() == 0 {
            Err(PacketError::Empty)
        } else {
            Ok(data[0])
        }
    }

    /// Name the packet and its fields.
    pub fn describe(&self) -> (out: String)
        ensures
            out@ == description(self@),
    {
        match self {
            Packet::ServerHello(hello) => {
                let mut out = String::from_str("ServerHello(");
                push_hello(
                    &mut out,
                    "ServerHello",
                    hello.unique,
                    hello.conn_sign_public_key_sha256.as_slice(),
                    hello.packet_sign_public_key.as_slice(),
                );
                out.append(")");
                out
            },
            Packet::RequestServerPubkey => String::from_str("RequestServerPubkey"),
            Packet::ServerPubkey(key) => {
                let mut out = String::from_str("ServerPubkey(ServerPubkey([");
                text::push_decimal_list(&mut out, key.0.as_slice());
                out.append("]))");
                out
            },
            Packet::ClientHello(hello) => {
                let mut out = String::from_str("ClientHello(");
                push_hello(
                    &mut out,
                    "ClientHello",
                    hello.unique,
                    hello.conn_sign_public_key_sha256.as_slice(),
                    hello.packet_sign_public_key.as_slice(),
                );
                out.append(")");
                out
            },
            Packet::ServerComplete(complete) => {
                let mut out = String::from_str("ServerComplete(ServerComplete { signature: [");
                text::push_decimal_list(&mut out, complete.signature.as_slice());
                out.append("] })");
                out
            },
            Packet::Payload(data) => {
                let mut out = String::from_str("Payload([");
                text::push_decimal_list(&mut out, data.as_slice());
                out.append("])");
                out
            },
        }
    }
}

/// Append the name and the fields of a hello.
fn push_hello(out: &mut String, name: &str, unique: u64, digest: &[u8], packet_key: &[u8])
    ensures
        final(out)@ == old(out)@ + hello_description(
            name@,
            (HelloView { unique, digest: digest@, packet_key: packet_key@ }),
        ),
{
    let ghost before = out@;
    out.append(name);
    out.append(" { unique: ");
    text::push_decimal(out, unique);
    out.append(", conn_sign_public_key_sha256: [");
    text::push_decimal_list(out, digest);
    out.append("], packet_sign_public_key: [");
    text::push_decimal_list(out, packet_key);
    out.append("] }");
    assert(out@ =~= before + hello_description(
        name@,
        HelloView { unique, digest: digest@, packet_key: packet_key@ },
    ));
}

/// Put the packet type byte before a packet body.
pub fn with_type(packet_type: u8, body: &[u8]) -> (out: Vec<u8>)
    ensures
        out@ == seq![packet_type] + body@,
{
    let mut out: Vec<u8> = Vec::new();
    out.push(packet_type);
    bytes::extend(&mut out, body);
    assert(out@ =~= seq![packet_type] + body@);
    out
}

/// Return the signed message portion after a fixed-width signature.
fn signed_message(data: &[u8], signature_len: usize) -> (r: Result<&[u8], PacketError>)
    ensures
        match r {
            Ok(message) => data@.len() >= signature_len && message@ == data@.skip(
                signature_len as int,
            ),
            Err(e) => {
                &&& data@.len() < signature_len
                &&& e == PacketError::SignedTruncated {
                    got: data@.len() as usize,
                    needed: signature_len,
                }
            },
        },
{
    if data.len() < signature_len {
        return Err(PacketError::SignedTruncated { got: data.len(), needed: signature_len });
    }
    let message = slice_subrange(data, signature_len, data.len());
    assert(message@ =~= data@.skip(signature_len as int));
    Ok(message)
}

/// Write the body of a hello.
fn encode_hello(unique: u64, digest: &[u8], packet_key: &[u8]) -> (out: Vec<u8>)
    ensures
        out@ == hello_bytes((HelloView { unique, digest: digest@, packet_key: packet_key@ })),
{
    let head: [u8; 8] = bytes::u64_to_be_bytes(unique);
    let mut out: Vec<u8> = Vec::new();
    bytes::extend(&mut out, head.as_slice());
    bytes::extend(&mut out, digest);
    bytes::extend(&mut out, packet_key);
    assert(out@ =~= hello_bytes(HelloView { unique, digest: digest@, packet_key: packet_key@ }));
    out
}

/// Read the body of a hello; `trailing` is the error if bytes follow it.
fn decode_hello(data: &[u8], trailing: PacketError) -> (r: Result<
    (u64, [u8; SHA256_DIGEST_LEN], [u8; ED25519_PUBLIC_KEY_LEN]),
    PacketError,
>)
    ensures
        match r {
            Ok((unique, digest, packet_key)) => parsed_hello(data@, trailing) == Ok::<
                HelloView,
                PacketError,
            >(HelloView { unique, digest: digest@, packet_key: packet_key@ }),
            Err(e) => parsed_hello(data@, trailing) == Err::<HelloView, PacketError>(e),
        },
{
    let (unique, rest) = match take_u64(data) {
        Ok(taken) => taken,
        Err(e) => return Err(e),
    };
    let ghost after_unique = rest@;
    let (digest, rest): ([u8; SHA256_DIGEST_LEN], &[u8]) = match take_fixed(rest) {
        Ok(taken) => taken,
        Err(e) => return Err(e),
    };
    let (packet_key, rest): ([u8; ED25519_PUBLIC_KEY_LEN], &[u8]) = match take_fixed(rest) {
        Ok(taken) => taken,
        Err(e) => return Err(e),
    };
    if rest.len() != 0 {
        return Err(trailing);
    }
    assert(digest@ =~= data@.subrange(8, 40));
    assert(packet_key@ =~= data@.skip(40));
    Ok((unique, digest, packet_key))
}

/// Encode a server hello body with the server challenge and both public keys.
pub fn encode_server_hello(hello: &ServerHello) -> (out: Vec<u8>)
    ensures
        out@ == hello_bytes(hello@),
{
    encode_hello(
        hello.unique,
        hello.conn_sign_public_key_sha256.as_slice(),
        hello.packet_sign_public_key.as_slice(),
    )
}

/// Decode a server hello body.
pub fn decode_server_hello(data: &[u8]) -> (r: Result<ServerHello, PacketError>)
    ensures
        match r {
            Ok(hello) => parsed_hello(data@, PacketError::ServerHelloTrailing) == Ok::<
                HelloView,
                PacketError,
            >(hello@) && hello@.valid(),
            Err(e) => parsed_hello(data@, PacketError::ServerHelloTrailing) == Err::<
                HelloView,
                PacketError,
            >(e),
        },
{
    match decode_hello(data, PacketError::ServerHelloTrailing) {
        Ok((unique, digest, packet_key)) => Ok(ServerHello::new(unique, digest, packet_key)),
        Err(e) => Err(e),
    }
}

/// Encode a client hello body with the client challenge and both public keys.
pub fn encode_client_hello(hello: &ClientHello) -> (out: Vec<u8>)
    ensures
        out@ == hello_bytes(hello@),
{
    encode_hello(
        hello.unique,
        hello.conn_sign_public_key_sha256.as_slice(),
        hello.packet_sign_public_key.as_slice(),
    )
}

/// Decode a client hello body.
pub fn decode_client_hello(data: &[u8]) -> (r: Result<ClientHello, PacketError>)
    ensures
        match r {
            Ok(hello) => parsed_hello(data@, PacketError::ClientHelloTrailing) == Ok::<
                HelloView,
                PacketError,
            >(hello@) && hello@.valid(),
            Err(e) => parsed_hello(data@, PacketError::ClientHelloTrailing) == Err::<
                HelloView,
                PacketError,
            >(e),
        },
{
    match decode_hello(data, PacketError::ClientHelloTrailing) {
        Ok((unique, digest, packet_key)) => Ok(ClientHello::new(unique, digest, packet_key)),
        Err(e) => Err(e),
    }
}

/// Decode a detached server-complete signature payload.
fn decode_server_complete(data: &[u8]) -> (r: Result<ServerComplete, PacketError>)
    ensures
        match r {
            Ok(complete) => data@.len() == CONN_SIGNATURE_LEN && complete@ == data@,
            Err(e) => {
                &&& data@.len() != CONN_SIGNATURE_LEN
                &&& e == PacketError::CompleteLength {
                    got: data@.len() as usize,
                    needed: CONN_SIGNATURE_LEN,
                }
            },
        },
{
    if data.len() != conn_signature_len() {
        return Err(
            PacketError::CompleteLength { got: data.len(), needed: conn_signature_len() },
        );
    }
    Ok(ServerComplete::new(slice_to_vec(data)))
}

/// Decode a fixed-width, big-endian `u64` and return the remaining bytes.
fn take_u64(data: &[u8]) -> (r: Result<(u64, &[u8]), PacketError>)
    ensures
        match r {
            Ok((x, rest)) => {
                &&& data@.len() >= 8
                &&& x as nat == bytes::be_value(data@.take(8))
                &&& rest@ == data@.skip(8)
            },
            Err(e) => {
                &&& data@.len() < 8
                &&& e == PacketError::Truncated { needed: 8, got: data@.len() as usize }
            },
        },
{
    if data.len() < 8 {
        return Err(PacketError::Truncated { needed: 8, got: data.len() });
    }
    let head = slice_subrange(data, 0, 8);
    let rest = slice_subrange(data, 8, data.len());
    assert(head@ =~= data@.take(8));
    assert(rest@ =~= data@.skip(8));
    Ok((bytes::be_bytes_to_u64(head), rest))
}

/// Take a fixed-width byte array and return the remaining bytes.
fn take_fixed<const N: usize>(data: &[u8]) -> (r: Result<([u8; N], &[u8]), PacketError>)
    ensures
        match r {
            Ok((head, rest)) => {
                &&& data@.len() >= N
                &&& head@ == data@.take(N as int)
                &&& rest@ == data@.skip(N as int)
            },
            Err(e) => {
                &&& data@.len() < N
                &&& e == PacketError::Truncated { needed: N, got: data@.len() as usize }
            },
        },
{
    if data.len() < N {
        return Err(PacketError::Truncated { needed: N, got: data.len() });
    }
    let head: [u8; N] = bytes::to_array(data);
    let rest = slice_subrange(data, N, data.len());
    assert(rest@ =~= data@.skip(N as int));
    Ok((head, rest))
}

} // verus!
