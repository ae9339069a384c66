//! Signers and verifiers: one pair for whole connections, one for payload packets.
//!
//! A connection key is an ML-DSA key together with an Ed25519 key; what it signs carries both
//! signatures in front, and both must verify. A packet key is an Ed25519 key; what it signs is
//! bound to a counter that both sides keep and that is never sent.

use vstd::prelude::*;
use vstd::slice::{slice_subrange, slice_to_vec};
use vstd::string::StringExecFns;

use crate::bundle;
use crate::bundle::{
    decode_conn_private_key_bundle, decode_conn_public_key, encode_conn_private_key_bundle,
    encode_conn_public_key, BundleError,
};
use crate::bytes;
use crate::crypto;
use crate::crypto::{ED25519_PUBLIC_KEY_LEN, ED25519_SIGNATURE_LEN, ML_DSA_SIGNATURE_LEN};

verus! {

/// How many bytes the two signatures of a connection key take.
pub const CONN_SIGNATURE_LEN: usize = 2484;

/// Why nothing was signed, or no key was made.
#[derive(Clone, Copy, Debug, PartialEq, Eq, Structural)]
pub enum SignError {
    /// The cryptographic library failed.
    Unspecified,
    /// An Ed25519 verifier holds no private key.
    PublicOnlyEd25519,
    /// A connection verifier holds no private key.
    PublicOnlyConnSign,
}

impl SignError {
    /// What `message` says.
    pub open spec fn text(&self) -> Seq<char> {
        match self {
            SignError::Unspecified => "Unspecified"@,
            SignError::PublicOnlyEd25519 => "public-only Ed25519 verifier cannot sign"@,
            SignError::PublicOnlyConnSign => "public-only ConnSign verifier cannot sign"@,
        }
    }

    /// Describe the error in words.
    pub fn message(&self) -> (out: String)
        ensures
            out@ == self.text(),
    {
        match self {
            SignError::Unspecified => String::from_str("Unspecified"),
            SignError::PublicOnlyEd25519 => String::from_str(
                "public-only Ed25519 verifier cannot sign",
            ),
            SignError::PublicOnlyConnSign => String::from_str(
                "public-only ConnSign verifier cannot sign",
            ),
        }
    }
}

/// Why a private key bundle holds no usable connection key.
#[derive(Debug)]
pub enum LoadError {
    /// The bundle cannot be taken apart.
    Bundle(BundleError),
    /// The cryptographic library rejects a key in it, for the reason given.
    Rejected(String),
}

impl LoadError {
    /// What `message` says.
    pub open spec fn text(&self) -> Seq<char> {
        match self {
            LoadError::Bundle(e) => e.text(),
            LoadError::Rejected(reason) => reason@,
        }
    }

    /// Describe the error in words.
    pub fn message(&self) -> (out: String)
        ensures
            out@ == self.text(),
    {
        match self {
            LoadError::Bundle(e) => e.message(),
            LoadError::Rejected(reason) => String::from_str(reason.as_str()),
        }
    }
}

/// What a packet signature signs: the counter, as eight big-endian bytes, and the message.
pub open spec fn packet_input(counter: nat, message: Seq<u8>) -> Seq<u8> {
    bytes::be_bytes(counter, 8) + message
}

/// `message` as it is sent when it is packet number `counter` under the private key `pkcs8`.
pub open spec fn signed_packet(pkcs8: Seq<u8>, counter: nat, message: Seq<u8>) -> Seq<u8> {
    crypto::ed25519_signature(pkcs8, packet_input(counter, message)) + message
}

/// Whether `data` is a signed packet under `public_key` with the number `counter`.
pub open spec fn packet_accepted(public_key: Seq<u8>, counter: nat, data: Seq<u8>) -> bool {
    &&& data.len() >= ED25519_SIGNATURE_LEN
    &&& crypto::ed25519_verifies(
        public_key,
        packet_input(counter, data.skip(ED25519_SIGNATURE_LEN as int)),
        data.take(ED25519_SIGNATURE_LEN as int),
    )
}

/// What a receiver that has accepted `counter` packets makes of the packets `sent`, one after the
/// other: what comes out of each, and how many it has accepted in the end.
pub open spec fn received(public_key: Seq<u8>, counter: nat, sent: Seq<Seq<u8>>) -> (
    Seq<Option<Seq<u8>>>,
    nat,
)
    decreases sent.len(),
{
    if sent.len() == 0 {
        (Seq::empty(), counter)
    } else {
        let (before, count) = received(public_key, counter, sent.drop_last());
        if packet_accepted(public_key, count, sent.last()) {
            (before.push(Some(sent.last().skip(ED25519_SIGNATURE_LEN as int))), count + 1)
        } else {
            (before.push(None), count)
        }
    }
}

/// Whether `data` starts with both signatures, under the two public keys, of `prefix` and the
/// message behind them.
pub open spec fn conn_accepted_by(
    ml_dsa: Seq<u8>,
    ed25519: Seq<u8>,
    prefix: Seq<u8>,
    data: Seq<u8>,
) -> bool {
    let message = prefix + data.skip(CONN_SIGNATURE_LEN as int);
    &&& data.len() >= CONN_SIGNATURE_LEN
    &&& crypto::ml_dsa_verifies(ml_dsa, message, data.take(ML_DSA_SIGNATURE_LEN as int))
    &&& crypto::ed25519_verifies(
        ed25519,
        message,
        data.subrange(ML_DSA_SIGNATURE_LEN as int, CONN_SIGNATURE_LEN as int),
    )
}

/// Whether `data` starts with both signatures, under the keys in a public key bundle, of `prefix`
/// and the message behind them.
pub open spec fn conn_accepted(public_key: Seq<u8>, prefix: Seq<u8>, data: Seq<u8>) -> bool {
    match bundle::public_bundle_parts(public_key) {
        Ok((ml_dsa, ed25519)) => conn_accepted_by(ml_dsa, ed25519, prefix, data),
        Err(_) => false,
    }
}

/// Packets with different numbers, or with different messages, have different signature inputs.
/// So a packet that is repeated, or comes out of turn, is held against bytes that its signature
/// was not made for.
pub proof fn law_packet_input_injective(
    counter: u64,
    message: Seq<u8>,
    other_counter: u64,
    other_message: Seq<u8>,
)
    requires
        packet_input(counter as nat, message) == packet_input(other_counter as nat, other_message),
    ensures
        counter == other_counter,
        message == other_message,
{
    let a = packet_input(counter as nat, message);
    bytes::lemma_widths();
    bytes::lemma_be_bytes_len(counter as nat, 8);
    bytes::lemma_be_bytes_len(other_counter as nat, 8);
    assert(a.take(8) =~= bytes::be_bytes(counter as nat, 8));
    assert(a.take(8) =~= bytes::be_bytes(other_counter as nat, 8));
    bytes::lemma_be_bytes_injective(counter as nat, other_counter as nat, 8);
    assert(a.skip(8) =~= message);
    assert(a.skip(8) =~= other_message);
}

/// Packets that are signed with successive numbers and come in that order are all accepted, and
/// their messages come out in order.
pub proof fn law_packets_in_order_are_received(
    public_key: Seq<u8>,
    counter: nat,
    sent: Seq<Seq<u8>>,
)
    requires
        forall|i: int|
            0 <= i < sent.len() ==> #[trigger] packet_accepted(
                public_key,
                (counter + i) as nat,
                sent[i],
            ),
    ensures
        received(public_key, counter, sent).1 == counter + sent.len(),
        received(public_key, counter, sent).0 == Seq::new(
            sent.len(),
            |i: int| Some(sent[i].skip(ED25519_SIGNATURE_LEN as int)),
        ),
    decreases sent.len(),
{
    if sent.len() > 0 {
        let before = sent.drop_last();
        assert forall|i: int| 0 <= i < before.len() implies #[trigger] packet_accepted(
            public_key,
            (counter + i) as nat,
            before[i],
        ) by {
            assert(packet_accepted(public_key, (counter + i) as nat, sent[i]));
        }
        law_packets_in_order_are_received(public_key, counter, before);
        assert(packet_accepted(public_key, (counter + (sent.len() - 1)) as nat, sent.last()));
    }
    assert(received(public_key, counter, sent).0 =~= Seq::new(
        sent.len(),
        |i: int| Some(sent[i].skip(ED25519_SIGNATURE_LEN as int)),
    ));
}

/// A connection key that was written out as a private key bundle is loaded from it: the bundle
/// comes apart into the same two private keys, and both are accepted.
pub proof fn law_saved_key_is_loaded(signer: ConnSign)
    requires
        signer.keys_match(),
        bundle::private_bundle(signer.ml_dsa_private_key(), signer.ed25519_private_key()) is Ok,
    ensures
        ({
            let saved = bundle::private_bundle(
                signer.ml_dsa_private_key(),
                signer.ed25519_private_key(),
            )->Ok_0;
            &&& bundle::private_bundle_parts(saved) == Ok::<(Seq<u8>, Seq<u8>), BundleError>(
                (signer.ml_dsa_private_key(), signer.ed25519_private_key()),
            )
            &&& crypto::ml_dsa_public_key(signer.ml_dsa_private_key()) is Ok
            &&& crypto::ed25519_public_key(signer.ed25519_private_key()) is Ok
        }),
{
    bundle::law_private_bundle_round_trip(
        signer.ml_dsa_private_key(),
        signer.ed25519_private_key(),
    );
}

/// What carries only one good signature of the two is not accepted.
pub proof fn law_both_signatures_are_needed(
    ml_dsa: Seq<u8>,
    ed25519: Seq<u8>,
    prefix: Seq<u8>,
    data: Seq<u8>,
)
    requires
        ml_dsa.len() >= 1,
        ed25519.len() == ED25519_PUBLIC_KEY_LEN,
        ({
            let message = prefix + data.skip(CONN_SIGNATURE_LEN as int);
            ||| !crypto::ml_dsa_verifies(ml_dsa, message, data.take(ML_DSA_SIGNATURE_LEN as int))
            ||| !crypto::ed25519_verifies(
                ed25519,
                message,
                data.subrange(ML_DSA_SIGNATURE_LEN as int, CONN_SIGNATURE_LEN as int),
            )
        }),
    ensures
        !conn_accepted(bundle::public_bundle(ml_dsa, ed25519), prefix, data),
{
    bundle::law_public_bundle_round_trip(ml_dsa, ed25519);
}

/// What a packet signature signs: eight bytes of the counter, the most significant first, and the
/// message.
pub proof fn law_packet_input_layout(counter: u64, message: Seq<u8>)
    ensures
        ({
            let input = packet_input(counter as nat, message);
            &&& input.len() == 8 + message.len()
            &&& counter == input[0] * 0x100_0000_0000_0000 + input[1] * 0x1_0000_0000_0000
                + input[2] * 0x100_0000_0000 + input[3] * 0x1_0000_0000 + input[4] * 0x100_0000
                + input[5] * 0x1_0000 + input[6] * 256 + input[7]
            &&& input.subrange(8, input.len() as int) == message
        }),
{
    let head = bytes::be_bytes(counter as nat, 8);
    let input = packet_input(counter as nat, message);
    bytes::lemma_widths();
    bytes::lemma_be_bytes_len(counter as nat, 8);
    bytes::law_be_bytes_round_trip(counter as nat, 8);
    bytes::law_be_value_of_eight(head);
    assert(input.take(8) =~= head);
    assert(input[0] == head[0] && input[1] == head[1] && input[2] == head[2] && input[3] == head[3]
        && input[4] == head[4] && input[5] == head[5] && input[6] == head[6] && input[7]
        == head[7]);
    assert(input.subrange(8, input.len() as int) =~= message);
}

/// A signed packet is a signature and the message; what the signature is made of is the counter in
/// eight bytes, the most significant first, and the message behind them.
pub proof fn law_signed_packet_layout(
    pkcs8: Seq<u8>,
    counter: u64,
    message: Seq<u8>,
    input: Seq<u8>,
)
    requires
        input.len() == 8 + message.len(),
        counter == input[0] * 0x100_0000_0000_0000 + input[1] * 0x1_0000_0000_0000 + input[2]
            * 0x100_0000_0000 + input[3] * 0x1_0000_0000 + input[4] * 0x100_0000 + input[5]
            * 0x1_0000 + input[6] * 256 + input[7],
        input.subrange(8, input.len() as int) == message,
    ensures
        signed_packet(pkcs8, counter as nat, message) == crypto::ed25519_signature(pkcs8, input)
            + message,
{
    let head = input.take(8);
    bytes::law_be_value_of_eight(head);
    bytes::law_be_value_round_trip(head);
    assert(bytes::be_value(head) == counter);
    assert(head + message =~= input);
}

/// A packet is accepted exactly where its first 64 bytes are a signature, under the key, of the
/// counter and of all bytes behind them; a shorter one never is.
pub proof fn law_packet_is_accepted_by_its_signature(
    public_key: Seq<u8>,
    counter: nat,
    signature: Seq<u8>,
    message: Seq<u8>,
)
    ensures
        signature.len() < 64 ==> !packet_accepted(public_key, counter, signature),
        signature.len() == 64 ==> (packet_accepted(public_key, counter, signature + message)
            <==> crypto::ed25519_verifies(
            public_key,
            packet_input(counter, message),
            signature,
        )),
{
    if signature.len() == 64 {
        let data = signature + message;
        assert(data.skip(64) =~= message);
        assert(data.take(64) =~= signature);
    }
}

/// A receiver takes packets one by one: an accepted one counts and hands out its message, and a
/// refused one changes nothing.
pub proof fn law_received_one_by_one(
    public_key: Seq<u8>,
    counter: nat,
    sent: Seq<Seq<u8>>,
    packet: Seq<u8>,
)
    ensures
        received(public_key, counter, Seq::empty()) == (Seq::<Option<Seq<u8>>>::empty(), counter),
        ({
            let (before, count) = received(public_key, counter, sent);
            let (after, last) = received(public_key, counter, sent.push(packet));
            &&& packet_accepted(public_key, count, packet) ==> last == count + 1 && after
                == before.push(Some(packet.subrange(64, packet.len() as int)))
            &&& !packet_accepted(public_key, count, packet) ==> last == count && after
                == before.push(None)
        }),
{
    assert(sent.push(packet).drop_last() =~= sent);
    if packet.len() >= 64 {
        assert(packet.skip(64) =~= packet.subrange(64, packet.len() as int));
    }
}

/// What is signed with a connection key is accepted exactly where its first 2420 bytes are an
/// ML-DSA signature and its next 64 bytes an Ed25519 signature, each under its own key of the
/// bundle, and both of the prefix followed by all bytes behind them.
pub proof fn law_both_signatures_decide(
    ml_dsa: Seq<u8>,
    ed25519: Seq<u8>,
    prefix: Seq<u8>,
    first: Seq<u8>,
    second: Seq<u8>,
    message: Seq<u8>,
)
    requires
        ml_dsa.len() >= 1,
        ed25519.len() == 32,
        first.len() == 2420,
        second.len() == 64,
    ensures
        conn_accepted(bundle::public_bundle(ml_dsa, ed25519), prefix, first + second + message)
            <==> crypto::ml_dsa_verifies(ml_dsa, prefix + message, first)
            && crypto::ed25519_verifies(ed25519, prefix + message, second),
{
    let data = first + second + message;
    bundle::law_public_bundle_round_trip(ml_dsa, ed25519);
    assert(data.skip(2484) =~= message);
    assert(data.take(2420) =~= first);
    assert(data.subrange(2420, 2484) =~= second);
}

/// Nothing is accepted that is too short for both signatures, or under a key that is no bundle.
pub proof fn law_nothing_else_is_accepted(public_key: Seq<u8>, prefix: Seq<u8>, data: Seq<u8>)
    requires
        data.len() < 2484 || public_key.len() < 34 || public_key[0] != 1,
    ensures
        !conn_accepted(public_key, prefix, data),
{
}

/// How many bytes the two signatures of a connection key take.
pub fn conn_signature_len() -> (len: usize)
    ensures
        len == CONN_SIGNATURE_LEN,
{
    crypto::ml_dsa_signature_len() + ED25519_SIGNATURE_LEN
}

/// Put the packet counter before a message, for signing.
pub fn packet_signature_input(counter: u64, data: &[u8]) -> (input: Vec<u8>)
    ensures
        input@ == packet_input(counter as nat, data@),
{
    let head: [u8; 8] = bytes::u64_to_be_bytes(counter);
    let mut input: Vec<u8> = Vec::new();
    bytes::extend(&mut input, head.as_slice());
    bytes::extend(&mut input, data);
    assert(input@ =~= packet_input(counter as nat, data@));
    input
}

/// Put a signature in front of the message that it signs.
pub fn attach_signature(signature: &[u8], data: &[u8]) -> (signed: Vec<u8>)
    ensures
        signed@ == signature@ + data@,
{
    let mut signed = slice_to_vec(signature);
    bytes::extend(&mut signed, data);
    signed
}

/// Put the signatures of a connection key in front of the message that they sign.
pub fn attach_conn_signatures(ml_dsa: &[u8], ed25519: &[u8], data: &[u8]) -> (signed: Vec<u8>)
    ensures
        signed@ == ml_dsa@ + ed25519@ + data@,
{
    let mut signed = slice_to_vec(ml_dsa);
    bytes::extend(&mut signed, ed25519);
    bytes::extend(&mut signed, data);
    signed
}

/// Split a signed packet into its signature and its message.
pub fn split_signed_packet(data: &[u8]) -> (r: Option<(&[u8], &[u8])>)
    ensures
        match r {
            Some((signature, message)) => {
                &&& data@.len() >= ED25519_SIGNATURE_LEN
                &&& signature@ == data@.take(ED25519_SIGNATURE_LEN as int)
                &&& message@ == data@.skip(ED25519_SIGNATURE_LEN as int)
            },
            None => data@.len() < ED25519_SIGNATURE_LEN,
        },
{
    if data.len() < ED25519_SIGNATURE_LEN {
        return None;
    }
    let signature = slice_subrange(data, 0, ED25519_SIGNATURE_LEN);
    let message = slice_subrange(data, ED25519_SIGNATURE_LEN, data.len());
    assert(signature@ =~= data@.take(ED25519_SIGNATURE_LEN as int));
    assert(message@ =~= data@.skip(ED25519_SIGNATURE_LEN as int));
    Some((signature, message))
}

/// What a receiver hands out once it knows whether a packet's signature was accepted, and the
/// counter that it goes on with: the message and the next number, or nothing and the same number.
pub fn packet_verdict(message: &[u8], counter: u64, accepted: bool) -> (r: (Option<&[u8]>, u64))
    requires
        counter < u64::MAX,
    ensures
        accepted ==> r == (Some(message), (counter + 1) as u64),
        !accepted ==> r == (None::<&[u8]>, counter),
{
    if accepted {
        (Some(message), counter + 1)
    } else {
        (None, counter)
    }
}

/// Split what a connection key signed into the ML-DSA signature, the Ed25519 signature and the
/// message.
pub fn split_conn_signed(data: &[u8]) -> (r: Option<(&[u8], &[u8], &[u8])>)
    ensures
        match r {
            Some((ml_dsa, ed25519, message)) => {
                &&& data@.len() >= CONN_SIGNATURE_LEN
                &&& ml_dsa@ == data@.take(ML_DSA_SIGNATURE_LEN as int)
                &&& ed25519@ == data@.subrange(
                    ML_DSA_SIGNATURE_LEN as int,
                    CONN_SIGNATURE_LEN as int,
                )
                &&& message@ == data@.skip(CONN_SIGNATURE_LEN as int)
            },
            None => data@.len() < CONN_SIGNATURE_LEN,
        },
{
    let ml_dsa_len: usize = crypto::ml_dsa_signature_len();
    let total_len: usize = conn_signature_len();
    if data.len() < total_len {
        return None;
    }
    let ml_dsa = slice_subrange(data, 0, ml_dsa_len);
    let ed25519 = slice_subrange(data, ml_dsa_len, total_len);
    let message = slice_subrange(data, total_len, data.len());
    assert(ml_dsa@ =~= data@.take(ML_DSA_SIGNATURE_LEN as int));
    assert(message@ =~= data@.skip(CONN_SIGNATURE_LEN as int));
    Some((ml_dsa, ed25519, message))
}

/// The message, if both of its signatures were accepted.
pub fn conn_verdict(message: &[u8], ml_dsa_accepted: bool, ed25519_accepted: bool) -> (r: Option<
    &[u8],
>)
    ensures
        ml_dsa_accepted && ed25519_accepted ==> r == Some(message),
        !(ml_dsa_accepted && ed25519_accepted) ==> r is None,
{
    if ml_dsa_accepted && ed25519_accepted {
        Some(message)
    } else {
        None
    }
}

/// The public keys that were read from two private keys, or why the first bad one was rejected.
pub fn both_public_keys(
    ml_dsa: Result<Vec<u8>, String>,
    ed25519: Result<[u8; ED25519_PUBLIC_KEY_LEN], String>,
) -> (r: Result<(Vec<u8>, [u8; ED25519_PUBLIC_KEY_LEN]), LoadError>)
    ensures
        match r {
            Ok((m, e)) => ml_dsa == Ok::<Vec<u8>, String>(m) && ed25519 == Ok::<
                [u8; ED25519_PUBLIC_KEY_LEN],
                String,
            >(e),
            Err(LoadError::Rejected(reason)) => match ml_dsa {
                Err(text) => reason == text,
                Ok(_) => ed25519 == Err::<[u8; ED25519_PUBLIC_KEY_LEN], String>(reason),
            },
            Err(LoadError::Bundle(_)) => false,
        },
{
    match ml_dsa {
        Err(text) => Err(LoadError::Rejected(text)),
        Ok(m) => match ed25519 {
            Err(text) => Err(LoadError::Rejected(text)),
            Ok(e) => Ok((m, e)),
        },
    }
}

/// Verify both signatures of `prefix` and the message in `data`.
fn verify_both<'a>(ml_dsa_key: &[u8], ed25519_key: &[u8], prefix: &[u8], data: &'a [u8]) -> (r:
    Option<&'a [u8]>)
    ensures
        match r {
            Some(message) => {
                &&& conn_accepted_by(ml_dsa_key@, ed25519_key@, prefix@, data@)
                &&& message@ == data@.skip(CONN_SIGNATURE_LEN as int)
            },
            None => !conn_accepted_by(ml_dsa_key@, ed25519_key@, prefix@, data@),
        },
{
    match split_conn_signed(data) {
        None => None,
        Some((ml_dsa, ed25519, message)) => {
            let input = attach_signature(prefix, message);
            let ml_dsa_accepted: bool = crypto::ml_dsa_verify(
                ml_dsa_key,
                input.as_slice(),
                ml_dsa,
            );
            let ed25519_accepted: bool = crypto::ed25519_verify(
                ed25519_key,
                input.as_slice(),
                ed25519,
            );
            conn_verdict(message, ml_dsa_accepted, ed25519_accepted)
        },
    }
}

/// Signs payload packets, and verifies those that it has signed.
pub struct PacketSign {
    pkcs8: Vec<u8>,
    public_key: [u8; ED25519_PUBLIC_KEY_LEN],
    sign_counter: u64,
    verify_counter: u64,
}

impl PacketSign {
    #[verifier::type_invariant]
    spec fn inv(self) -> bool {
        crypto::ed25519_public_key(self.pkcs8@) == Ok::<Seq<u8>, Seq<char>>(self.public_key@)
    }

    /// The private key, as a PKCS#8 document.
    pub closed spec fn private_key(&self) -> Seq<u8> {
        self.pkcs8@
    }

    /// The public key.
    pub closed spec fn public_key(&self) -> Seq<u8> {
        self.public_key@
    }

    /// How many packets have been signed.
    pub closed spec fn sign_count(&self) -> nat {
        self.sign_counter as nat
    }

    /// How many packets have been accepted.
    pub closed spec fn verify_count(&self) -> nat {
        self.verify_counter as nat
    }

    /// Generate a fresh Ed25519 key for payload packets.
    ///
    /// Whether that succeeds is up to the machine's source of randomness.
    pub fn new() -> (r: Result<Self, SignError>)
        ensures
            match r {
                Ok(signer) => {
                    &&& crypto::ed25519_public_key(signer.private_key()) == Ok::<
                        Seq<u8>,
                        Seq<char>,
                    >(signer.public_key())
                    &&& signer.public_key().len() == ED25519_PUBLIC_KEY_LEN
                    &&& signer.sign_count() == 0
                    &&& signer.verify_count() == 0
                },
                Err(e) => e == SignError::Unspecified,
            },
    {
        let pkcs8 = match crypto::ed25519_generate() {
            Ok(pkcs8) => pkcs8,
            Err(_) => return Err(SignError::Unspecified),
        };
        match PacketSign::from_pkcs8(pkcs8) {
            Ok(signer) => Ok(signer),
            Err(_) => Err(SignError::Unspecified),
        }
    }

    /// Make a signer that has signed and accepted nothing yet of an Ed25519 private key in a
    /// PKCS#8 document.
    pub fn from_pkcs8(pkcs8: Vec<u8>) -> (r: Result<Self, LoadError>)
        ensures
            match crypto::ed25519_public_key(pkcs8@) {
                Ok(key) => {
                    &&& r matches Ok(signer)
                    &&& signer.private_key() == pkcs8@
                    &&& signer.public_key() == key
                    &&& key.len() == ED25519_PUBLIC_KEY_LEN
                    &&& signer.sign_count() == 0
                    &&& signer.verify_count() == 0
                },
                Err(text) => r matches Err(LoadError::Rejected(reason)) && reason@ == text,
            },
    {
        match crypto::ed25519_public_key_of(pkcs8.as_slice()) {
            Ok(public_key) => Ok(
                PacketSign { pkcs8, public_key, sign_counter: 0, verify_counter: 0 },
            ),
            Err(text) => Err(LoadError::Rejected(text)),
        }
    }

    /// Return the Ed25519 public key bytes for this signer.
    pub fn public_key_bytes(&self) -> (key: [u8; ED25519_PUBLIC_KEY_LEN])
        ensures
            key@ == self.public_key(),
            crypto::ed25519_public_key(self.private_key()) == Ok::<Seq<u8>, Seq<char>>(key@),
    {
        proof {
            use_type_invariant(self);
        }
        self.public_key
    }

    /// Return how many packets have been signed.
    pub fn signed(&self) -> (n: u64)
        ensures
            n == self.sign_count(),
    {
        self.sign_counter
    }

    /// Return how many packets have been accepted.
    pub fn verified(&self) -> (n: u64)
        ensures
            n == self.verify_count(),
    {
        self.verify_counter
    }

    /// Return a verifier that has accepted nothing yet.
    pub fn to_verifier(&self) -> (v: PacketVerify)
        ensures
            v.public_key() == self.public_key(),
            v.verify_count() == 0,
    {
        PacketVerify::new(self.public_key)
    }

    /// Prepend the Ed25519 signature over the next implicit counter and the message bytes.
    ///
    /// What was signed is accepted by a verifier for the same key that has accepted as many packets
    /// as were signed before.
    pub fn sign(&mut self, data: &[u8]) -> (r: Result<Vec<u8>, SignError>)
        requires
            old(self).sign_count() < u64::MAX,
        ensures
            final(self).private_key() == old(self).private_key(),
            final(self).public_key() == old(self).public_key(),
            final(self).verify_count() == old(self).verify_count(),
            final(self).sign_count() == old(self).sign_count() + 1,
            r matches Ok(signed) && {
                &&& signed@ == signed_packet(
                    old(self).private_key(),
                    old(self).sign_count(),
                    data@,
                )
                &&& signed@.len() == ED25519_SIGNATURE_LEN + data@.len()
                &&& signed@.skip(ED25519_SIGNATURE_LEN as int) == data@
                &&& packet_accepted(old(self).public_key(), old(self).sign_count(), signed@)
            },
    {
        proof {
            use_type_invariant(&*self);
        }
        let input = packet_signature_input(self.sign_counter, data);
        match crypto::ed25519_sign(self.pkcs8.as_slice(), input.as_slice()) {
            Err(_) => Err(SignError::Unspecified),
            Ok(signature) => {
                let signed = attach_signature(signature.as_slice(), data);
                self.sign_counter = self.sign_counter + 1;
                assert(signed@.skip(ED25519_SIGNATURE_LEN as int) =~= data@);
                assert(signed@.take(ED25519_SIGNATURE_LEN as int) =~= signature@);
                Ok(signed)
            },
        }
    }

    /// Split the signature back off the wire bytes and verify it with the next implicit counter.
    pub fn verify<'a>(&mut self, data: &'a [u8]) -> (r: Option<&'a [u8]>)
        requires
            data@.len() >= ED25519_SIGNATURE_LEN ==> old(self).verify_count() < u64::MAX,
        ensures
            final(self).private_key() == old(self).private_key(),
            final(self).public_key() == old(self).public_key(),
            final(self).sign_count() == old(self).sign_count(),
            match r {
                Some(message) => {
                    &&& packet_accepted(old(self).public_key(), old(self).verify_count(), data@)
                    &&& message@ == data@.skip(ED25519_SIGNATURE_LEN as int)
                    &&& final(self).verify_count() == old(self).verify_count() + 1
                },
                None => {
                    &&& !packet_accepted(old(self).public_key(), old(self).verify_count(), data@)
                    &&& final(self).verify_count() == old(self).verify_count()
                },
            },
    {
        proof {
            use_type_invariant(&*self);
        }
        match split_signed_packet(data) {
            None => None,
            Some((signature, message)) => {
                let input = packet_signature_input(self.verify_counter, message);
                let accepted: bool = crypto::ed25519_verify(
                    self.public_key.as_slice(),
                    input.as_slice(),
                    signature,
                );
                let (out, counter) = packet_verdict(message, self.verify_counter, accepted);
                self.verify_counter = counter;
                out
            },
        }
    }
}

/// Verifies payload packets of one peer.
pub struct PacketVerify {
    public_key: [u8; ED25519_PUBLIC_KEY_LEN],
    verify_counter: u64,
}

impl PacketVerify {
    /// The public key.
    pub closed spec fn public_key(&self) -> Seq<u8> {
        self.public_key@
    }

    /// How many packets have been accepted.
    pub closed spec fn verify_count(&self) -> nat {
        self.verify_counter as nat
    }

    /// Create an Ed25519 verifier from a public key.
    pub fn new(public_key: [u8; ED25519_PUBLIC_KEY_LEN]) -> (v: Self)
        ensures
            v.public_key() == public_key@,
            v.verify_count() == 0,
    {
        PacketVerify { public_key, verify_counter: 0 }
    }

    /// Return how many packets have been accepted.
    pub fn verified(&self) -> (n: u64)
        ensures
            n == self.verify_count(),
    {
        self.verify_counter
    }

    /// Reject signing attempts: a verifier holds no private key.
    pub fn sign(&self, data: &[u8]) -> (r: Result<Vec<u8>, SignError>)
        ensures
            r == Err::<Vec<u8>, SignError>(SignError::PublicOnlyEd25519),
    {
        Err(SignError::PublicOnlyEd25519)
    }

    /// Verify signed bytes with the stored Ed25519 public key and the next implicit counter.
    pub fn verify<'a>(&mut self, data: &'a [u8]) -> (r: Option<&'a [u8]>)
        requires
            data@.len() >= ED25519_SIGNATURE_LEN ==> old(self).verify_count() < u64::MAX,
        ensures
            final(self).public_key() == old(self).public_key(),
            match r {
                Some(message) => {
                    &&& packet_accepted(old(self).public_key(), old(self).verify_count(), data@)
                    &&& message@ == data@.skip(ED25519_SIGNATURE_LEN as int)
                    &&& final(self).verify_count() == old(self).verify_count() + 1
                },
                None => {
                    &&& !packet_accepted(old(self).public_key(), old(self).verify_count(), data@)
                    &&& final(self).verify_count() == old(self).verify_count()
                },
            },
    {
        match split_signed_packet(data) {
            None => None,
            Some((signature, message)) => {
                let input = packet_signature_input(self.verify_counter, message);
                let accepted: bool = crypto::ed25519_verify(
                    self.public_key.as_slice(),
                    input.as_slice(),
                    signature,
                );
                let (out, counter) = packet_verdict(message, self.verify_counter, accepted);
                self.verify_counter = counter;
                out
            },
        }
    }
}

/// Signs for a whole connection, with ML-DSA and with Ed25519.
pub struct ConnSign {
    ml_dsa_pkcs8: Vec<u8>,
    ed25519_pkcs8: Vec<u8>,
    ml_dsa_public_key: Vec<u8>,
    ed25519_public_key: [u8; ED25519_PUBLIC_KEY_LEN],
}

impl ConnSign {
    #[verifier::type_invariant]
    spec fn inv(self) -> bool {
        &&& crypto::ml_dsa_public_key(self.ml_dsa_pkcs8@) == Ok::<Seq<u8>, Seq<char>>(
            self.ml_dsa_public_key@,
        )
        &&& crypto::ed25519_public_key(self.ed25519_pkcs8@) == Ok::<Seq<u8>, Seq<char>>(
            self.ed25519_public_key@,
        )
        &&& self.ml_dsa_public_key@.len() == crypto::ML_DSA_PUBLIC_KEY_DER_LEN
    }

    /// The ML-DSA private key, as a PKCS#8 document.
    pub closed spec fn ml_dsa_private_key(&self) -> Seq<u8> {
        self.ml_dsa_pkcs8@
    }

    /// The Ed25519 private key, as a PKCS#8 document.
    pub closed spec fn ed25519_private_key(&self) -> Seq<u8> {
        self.ed25519_pkcs8@
    }

    /// The public key bundle.
    pub closed spec fn public_key(&self) -> Seq<u8> {
        bundle::public_bundle(self.ml_dsa_public_key@, self.ed25519_public_key@)
    }

    /// Whether the public key bundle holds the public keys of the two private keys.
    pub open spec fn keys_match(&self) -> bool {
        match (
            crypto::ml_dsa_public_key(self.ml_dsa_private_key()),
            crypto::ed25519_public_key(self.ed25519_private_key()),
        ) {
            (Ok(ml_dsa), Ok(ed25519)) => self.public_key() == bundle::public_bundle(
                ml_dsa,
                ed25519,
            ),
            _ => false,
        }
    }

    /// Generate a fresh connection key with independent ML-DSA and Ed25519 keys.
    ///
    /// Whether that succeeds is up to the machine's source of randomness.
    pub fn new() -> (r: Result<Self, SignError>)
        ensures
            match r {
                Ok(signer) => signer.keys_match(),
                Err(e) => e == SignError::Unspecified,
            },
    {
        let ml_dsa_pkcs8 = match crypto::ml_dsa_generate() {
            Ok(pkcs8) => pkcs8,
            Err(_) => return Err(SignError::Unspecified),
        };
        let ed25519_pkcs8 = match crypto::ed25519_generate() {
            Ok(pkcs8) => pkcs8,
            Err(_) => return Err(SignError::Unspecified),
        };
        match ConnSign::from_pkcs8(ml_dsa_pkcs8, ed25519_pkcs8) {
            Ok(signer) => Ok(signer),
            Err(_) => Err(SignError::Unspecified),
        }
    }

    /// Make a signer of an ML-DSA and an Ed25519 private key, each in a PKCS#8 document.
    pub fn from_pkcs8(ml_dsa_pkcs8: Vec<u8>, ed25519_pkcs8: Vec<u8>) -> (r: Result<Self, LoadError>)
        ensures
            match (
                crypto::ml_dsa_public_key(ml_dsa_pkcs8@),
                crypto::ed25519_public_key(ed25519_pkcs8@),
            ) {
                (Err(text), _) => r matches Err(LoadError::Rejected(reason)) && reason@ == text,
                (Ok(_), Err(text)) => r matches Err(LoadError::Rejected(reason)) && reason@
                    == text,
                (Ok(ml_dsa), Ok(ed25519)) => {
                    &&& r matches Ok(signer)
                    &&& signer.ml_dsa_private_key() == ml_dsa_pkcs8@
                    &&& signer.ed25519_private_key() == ed25519_pkcs8@
                    &&& signer.public_key() == bundle::public_bundle(ml_dsa, ed25519)
                },
            },
    {
        match both_public_keys(
            crypto::ml_dsa_public_key_of(ml_dsa_pkcs8.as_slice()),
            crypto::ed25519_public_key_of(ed25519_pkcs8.as_slice()),
        ) {
            Ok((ml_dsa_public_key, ed25519_public_key)) => Ok(
                ConnSign { ml_dsa_pkcs8, ed25519_pkcs8, ml_dsa_public_key, ed25519_public_key },
            ),
            Err(e) => Err(e),
        }
    }

    /// Load a connection key from a private key bundle.
    pub fn from_bytes(data: &[u8]) -> (r: Result<Self, LoadError>)
        ensures
            match bundle::private_bundle_parts(data@) {
                Err(e) => r == Err::<Self, LoadError>(LoadError::Bundle(e)),
                Ok((ml_dsa, ed25519)) => match (
                    crypto::ml_dsa_public_key(ml_dsa),
                    crypto::ed25519_public_key(ed25519),
                ) {
                    (Err(text), _) => r matches Err(LoadError::Rejected(reason)) && reason@ == text,
                    (Ok(_), Err(text)) => r matches Err(LoadError::Rejected(reason)) && reason@
                        == text,
                    (Ok(_), Ok(_)) => {
                        &&& r matches Ok(signer)
                        &&& signer.ml_dsa_private_key() == ml_dsa
                        &&& signer.ed25519_private_key() == ed25519
                        &&& signer.keys_match()
                    },
                },
            },
    {
        match decode_conn_private_key_bundle(data) {
            Ok((ml_dsa_pkcs8, ed25519_pkcs8)) => ConnSign::from_pkcs8(ml_dsa_pkcs8, ed25519_pkcs8),
            Err(e) => Err(LoadError::Bundle(e)),
        }
    }

    /// Return the private key bundle that `from_bytes` loads.
    pub fn to_bytes(&self) -> (r: Result<Vec<u8>, BundleError>)
        ensures
            match r {
                Ok(out) => bundle::private_bundle(
                    self.ml_dsa_private_key(),
                    self.ed25519_private_key(),
                ) == Ok::<Seq<u8>, BundleError>(out@),
                Err(e) => bundle::private_bundle(
                    self.ml_dsa_private_key(),
                    self.ed25519_private_key(),
                ) == Err::<Seq<u8>, BundleError>(e),
            },
            self.keys_match(),
    {
        proof {
            use_type_invariant(self);
        }
        encode_conn_private_key_bundle(self.ml_dsa_pkcs8.as_slice(), self.ed25519_pkcs8.as_slice())
    }

    /// Return the bundled ML-DSA and Ed25519 public key bytes for this signer.
    pub fn public_key_bytes(&self) -> (r: Result<Vec<u8>, SignError>)
        ensures
            r matches Ok(key) && key@ == self.public_key(),
            self.keys_match(),
    {
        proof {
            use_type_invariant(self);
        }
        Ok(encode_conn_public_key(self.ml_dsa_public_key.as_slice(), self.ed25519_public_key))
    }

    /// Return a verifier for what this signer signs.
    pub fn to_verifier(&self) -> (r: Result<ConnVerify, SignError>)
        ensures
            r matches Ok(v) && v.public_key() == self.public_key(),
    {
        match self.public_key_bytes() {
            Ok(key) => Ok(ConnVerify::new(key)),
            Err(e) => Err(e),
        }
    }

    /// Prepend the ML-DSA and Ed25519 signatures over `prefix` and the message to the message.
    ///
    /// The prefix is signed but not sent. ML-DSA signs with random numbers, and may fail by chance.
    /// What was signed is accepted by a verifier that is given the same prefix.
    pub fn sign_prefixed(&self, prefix: &[u8], data: &[u8]) -> (r: Result<Vec<u8>, SignError>)
        ensures
            match r {
                Ok(signed) => {
                    &&& signed@.len() == CONN_SIGNATURE_LEN + data@.len()
                    &&& signed@.skip(CONN_SIGNATURE_LEN as int) == data@
                    &&& signed@.subrange(ML_DSA_SIGNATURE_LEN as int, CONN_SIGNATURE_LEN as int)
                        == crypto::ed25519_signature(self.ed25519_private_key(), prefix@ + data@)
                    &&& conn_accepted(self.public_key(), prefix@, signed@)
                },
                Err(e) => e == SignError::Unspecified,
            },
    {
        proof {
            use_type_invariant(self);
            bundle::law_public_bundle_round_trip(
                self.ml_dsa_public_key@,
                self.ed25519_public_key@,
            );
        }
        let input = attach_signature(prefix, data);
        let ml_dsa = match crypto::ml_dsa_sign(self.ml_dsa_pkcs8.as_slice(), input.as_slice()) {
            Ok(signature) => signature,
            Err(_) => return Err(SignError::Unspecified),
        };
        let ed25519 = match crypto::ed25519_sign(self.ed25519_pkcs8.as_slice(), input.as_slice()) {
            Ok(signature) => signature,
            Err(_) => return Err(SignError::Unspecified),
        };
        let signed = attach_conn_signatures(ml_dsa.as_slice(), ed25519.as_slice(), data);
        assert(signed@.skip(CONN_SIGNATURE_LEN as int) =~= data@);
        assert(signed@.take(ML_DSA_SIGNATURE_LEN as int) =~= ml_dsa@);
        assert(signed@.subrange(ML_DSA_SIGNATURE_LEN as int, CONN_SIGNATURE_LEN as int)
            =~= ed25519@);
        Ok(signed)
    }

    /// Prepend the ML-DSA and Ed25519 signatures to the message bytes.
    pub fn sign(&self, data: &[u8]) -> (r: Result<Vec<u8>, SignError>)
        ensures
            match r {
                Ok(signed) => {
                    &&& signed@.len() == CONN_SIGNATURE_LEN + data@.len()
                    &&& signed@.skip(CONN_SIGNATURE_LEN as int) == data@
                    &&& signed@.subrange(ML_DSA_SIGNATURE_LEN as int, CONN_SIGNATURE_LEN as int)
                        == crypto::ed25519_signature(self.ed25519_private_key(), data@)
                    &&& conn_accepted(self.public_key(), Seq::empty(), signed@)
                },
                Err(e) => e == SignError::Unspecified,
            },
    {
        let none: [u8; 0] = [];
        assert(none@ =~= Seq::empty());
        assert(none@ + data@ =~= data@);
        self.sign_prefixed(none.as_slice(), data)
    }

    /// Produce a detached ML-DSA and Ed25519 signature bundle for `data`.
    pub fn sign_detached(&self, data: &[u8]) -> (r: Result<Vec<u8>, SignError>)
        ensures
            match r {
                Ok(signature) => {
                    &&& signature@.len() == CONN_SIGNATURE_LEN
                    &&& signature@.skip(ML_DSA_SIGNATURE_LEN as int) == crypto::ed25519_signature(
                        self.ed25519_private_key(),
                        data@,
                    )
                    &&& conn_accepted(self.public_key(), Seq::empty(), signature@ + data@)
                },
                Err(e) => e == SignError::Unspecified,
            },
    {
        match self.sign(data) {
            Err(e) => Err(e),
            Ok(signed) => {
                let signature = slice_to_vec(
                    slice_subrange(signed.as_slice(), 0, conn_signature_len()),
                );
                assert(signature@ + data@ =~= signed@);
                assert(signature@.skip(ML_DSA_SIGNATURE_LEN as int) =~= signed@.subrange(
                    ML_DSA_SIGNATURE_LEN as int,
                    CONN_SIGNATURE_LEN as int,
                ));
                Ok(signature)
            },
        }
    }

    /// Split the signature bundle back off the wire bytes and verify it.
    pub fn verify<'a>(&self, data: &'a [u8]) -> (r: Option<&'a [u8]>)
        ensures
            match r {
                Some(message) => {
                    &&& conn_accepted(self.public_key(), Seq::empty(), data@)
                    &&& message@ == data@.skip(CONN_SIGNATURE_LEN as int)
                },
                None => !conn_accepted(self.public_key(), Seq::empty(), data@),
            },
    {
        proof {
            use_type_invariant(self);
            bundle::law_public_bundle_round_trip(
                self.ml_dsa_public_key@,
                self.ed25519_public_key@,
            );
        }
        let none: [u8; 0] = [];
        assert(none@ =~= Seq::empty());
        verify_both(
            self.ml_dsa_public_key.as_slice(),
            self.ed25519_public_key.as_slice(),
            none.as_slice(),
            data,
        )
    }
}

/// Verifies what a peer's connection key signed.
pub struct ConnVerify {
    public_key_bundle: Vec<u8>,
}

impl ConnVerify {
    /// The public key bundle.
    pub closed spec fn public_key(&self) -> Seq<u8> {
        self.public_key_bundle@
    }

    /// Create a verifier from bundled ML-DSA and Ed25519 public key bytes.
    pub fn new(public_key_bundle: Vec<u8>) -> (v: Self)
        ensures
            v.public_key() == public_key_bundle@,
    {
        ConnVerify { public_key_bundle }
    }

    /// Reject signing attempts: a verifier holds no private key.
    pub fn sign(&self, data: &[u8]) -> (r: Result<Vec<u8>, SignError>)
        ensures
            r == Err::<Vec<u8>, SignError>(SignError::PublicOnlyConnSign),
    {
        Err(SignError::PublicOnlyConnSign)
    }

    /// Verify signed bytes, of which `prefix` was signed but not sent.
    pub fn verify_prefixed<'a>(&self, prefix: &[u8], data: &'a [u8]) -> (r: Option<&'a [u8]>)
        ensures
            match r {
                Some(message) => {
                    &&& conn_accepted(self.public_key(), prefix@, data@)
                    &&& message@ == data@.skip(CONN_SIGNATURE_LEN as int)
                },
                None => !conn_accepted(self.public_key(), prefix@, data@),
            },
    {
        match decode_conn_public_key(self.public_key_bundle.as_slice()) {
            Err(_) => None,
            Ok((ml_dsa, ed25519)) => verify_both(
                ml_dsa.as_slice(),
                ed25519.as_slice(),
                prefix,
                data,
            ),
        }
    }

    /// Verify signed bytes with the stored ML-DSA and Ed25519 public keys.
    pub fn verify<'a>(&self, data: &'a [u8]) -> (r: Option<&'a [u8]>)
        ensures
            match r {
                Some(message) => {
                    &&& conn_accepted(self.public_key(), Seq::empty(), data@)
                    &&& message@ == data@.skip(CONN_SIGNATURE_LEN as int)
                },
                None => !conn_accepted(self.public_key(), Seq::empty(), data@),
            },
    {
        let none: [u8; 0] = [];
        assert(none@ =~= Seq::empty());
        self.verify_prefixed(none.as_slice(), data)
    }

    /// Verify a detached ML-DSA and Ed25519 signature bundle against `data`.
    pub fn verify_detached(&self, signature: &[u8], data: &[u8]) -> (accepted: bool)
        ensures
            accepted == conn_accepted(self.public_key(), Seq::empty(), signature@ + data@),
    {
        let signed = attach_signature(signature, data);
        self.verify(signed.as_slice()).is_some()
    }
}

} // verus!
