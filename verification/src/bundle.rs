//! The byte form of connection keys: one bundle for a public key pair, one for a private one.

use vstd::prelude::*;
use vstd::slice::{slice_subrange, slice_to_vec};
use vstd::string::StringExecFns;

use crate::bytes;
use crate::crypto::ED25519_PUBLIC_KEY_LEN;
use crate::text;

verus! {

/// The first byte of a public key bundle.
pub const CONN_PUBLIC_KEY_VERSION: u8 = 1;

/// What is wrong with a key bundle.
#[derive(Clone, Copy, Debug, PartialEq, Eq, Structural)]
pub enum BundleError {
    /// A public key bundle has no room for a version, an ML-DSA key and an Ed25519 key.
    PublicTooShort,
    /// A public key bundle has another version.
    PublicVersion(u8),
    /// A private key bundle has no room for its header.
    PrivateTooShort,
    /// A private key bundle starts with another magic.
    PrivateFormat,
    /// A private key bundle does not hold the keys that its header announces.
    PrivateTruncated,
    /// An ML-DSA private key is too long for its length field.
    MlDsaTooLarge,
    /// An Ed25519 private key is too long for its length field.
    Ed25519TooLarge,
}

impl BundleError {
    /// What `message` says.
    pub open spec fn text(&self) -> Seq<char> {
        match self {
            BundleError::PublicTooShort => "ConnSign public key bundle is too short"@,
            BundleError::PublicVersion(version) => "unsupported ConnSign public key bundle version "@
                + text::decimal(*version as nat),
            BundleError::PrivateTooShort => "ConnSign private key bundle is too short"@,
            BundleError::PrivateFormat => "unsupported ConnSign private key bundle format"@,
            BundleError::PrivateTruncated => "ConnSign private key bundle is truncated"@,
            BundleError::MlDsaTooLarge => "ML-DSA PKCS#8 is too large"@,
            BundleError::Ed25519TooLarge => "Ed25519 PKCS#8 is too large"@,
        }
    }

    /// Describe the error in words.
    pub fn message(&self) -> (out: String)
        ensures
            out@ == self.text(),
    {
        match self {
            BundleError::PublicTooShort => String::from_str(
                "ConnSign public key bundle is too short",
            ),
            BundleError::PublicVersion(version) => {
                let mut out = String::from_str("unsupported ConnSign public key bundle version ");
                text::push_decimal(&mut out, *version as u64);
                out
            },
            BundleError::PrivateTooShort => String::from_str(
                "ConnSign private key bundle is too short",
            ),
            BundleError::PrivateFormat => String::from_str(
                "unsupported ConnSign private key bundle format",
            ),
            BundleError::PrivateTruncated => String::from_str(
                "ConnSign private key bundle is truncated",
            ),
            BundleError::MlDsaTooLarge => String::from_str("ML-DSA PKCS#8 is too large"),
            BundleError::Ed25519TooLarge => String::from_str("Ed25519 PKCS#8 is too large"),
        }
    }
}

/// The bundle of an ML-DSA public key and an Ed25519 public key.
pub open spec fn public_bundle(ml_dsa: Seq<u8>, ed25519: Seq<u8>) -> Seq<u8> {
    seq![CONN_PUBLIC_KEY_VERSION] + ml_dsa + ed25519
}

/// The ML-DSA public key and the Ed25519 public key in a bundle. The Ed25519 key is the last 32
/// bytes.
pub open spec fn public_bundle_parts(data: Seq<u8>) -> Result<(Seq<u8>, Seq<u8>), BundleError> {
    if data.len() < 1 + 1 + ED25519_PUBLIC_KEY_LEN {
        Err(BundleError::PublicTooShort)
    } else if data[0] != CONN_PUBLIC_KEY_VERSION {
        Err(BundleError::PublicVersion(data[0]))
    } else {
        let split = data.len() - ED25519_PUBLIC_KEY_LEN;
        Ok((data.subrange(1, split), data.skip(split)))
    }
}

/// The first eight bytes of a private key bundle, `AXSHCK02` in ASCII.
pub open spec fn private_bundle_magic() -> Seq<u8> {
    seq![0x41, 0x58, 0x53, 0x48, 0x43, 0x4b, 0x30, 0x32]
}

/// The bundle of an ML-DSA private key and an Ed25519 private key: the magic, both lengths as
/// big-endian numbers of four bytes, and both keys.
pub open spec fn private_bundle(ml_dsa: Seq<u8>, ed25519: Seq<u8>) -> Result<Seq<u8>, BundleError> {
    if ml_dsa.len() > u32::MAX {
        Err(BundleError::MlDsaTooLarge)
    } else if ed25519.len() > u32::MAX {
        Err(BundleError::Ed25519TooLarge)
    } else {
        Ok(
            private_bundle_magic() + bytes::be_bytes(ml_dsa.len(), 4) + bytes::be_bytes(
                ed25519.len(),
                4,
            ) + ml_dsa + ed25519,
        )
    }
}

/// The ML-DSA private key and the Ed25519 private key in a bundle.
pub open spec fn private_bundle_parts(data: Seq<u8>) -> Result<(Seq<u8>, Seq<u8>), BundleError> {
    if data.len() < 16 {
        Err(BundleError::PrivateTooShort)
    } else if data.take(8) != private_bundle_magic() {
        Err(BundleError::PrivateFormat)
    } else {
        let ml_dsa_len = bytes::be_value(data.subrange(8, 12));
        let ed25519_len = bytes::be_value(data.subrange(12, 16));
        let rest = data.skip(16);
        if rest.len() != ml_dsa_len + ed25519_len {
            Err(BundleError::PrivateTruncated)
        } else {
            Ok((rest.take(ml_dsa_len as int), rest.skip(ml_dsa_len as int)))
        }
    }
}

/// Taking a public key bundle apart gives the keys that it was made of.
pub proof fn law_public_bundle_round_trip(ml_dsa: Seq<u8>, ed25519: Seq<u8>)
    requires
        ml_dsa.len() >= 1,
        ed25519.len() == ED25519_PUBLIC_KEY_LEN,
    ensures
        public_bundle_parts(public_bundle(ml_dsa, ed25519)) == Ok::<
            (Seq<u8>, Seq<u8>),
            BundleError,
        >((ml_dsa, ed25519)),
{
    let data = public_bundle(ml_dsa, ed25519);
    let split = data.len() - ED25519_PUBLIC_KEY_LEN;
    assert(data.subrange(1, split) =~= ml_dsa);
    assert(data.skip(split) =~= ed25519);
}

/// A public key bundle that can be taken apart is the bundle of its parts.
pub proof fn law_public_bundle_parts_round_trip(data: Seq<u8>)
    requires
        public_bundle_parts(data) is Ok,
    ensures
        ({
            let (ml_dsa, ed25519) = public_bundle_parts(data)->Ok_0;
            public_bundle(ml_dsa, ed25519) == data
        }),
{
    let (ml_dsa, ed25519) = public_bundle_parts(data)->Ok_0;
    assert(public_bundle(ml_dsa, ed25519) =~= data);
}

/// Taking a private key bundle apart gives the keys that it was made of.
pub proof fn law_private_bundle_round_trip(ml_dsa: Seq<u8>, ed25519: Seq<u8>)
    requires
        private_bundle(ml_dsa, ed25519) is Ok,
    ensures
        private_bundle_parts(private_bundle(ml_dsa, ed25519)->Ok_0) == Ok::<
            (Seq<u8>, Seq<u8>),
            BundleError,
        >((ml_dsa, ed25519)),
{
    let data = private_bundle(ml_dsa, ed25519)->Ok_0;
    let a = bytes::be_bytes(ml_dsa.len(), 4);
    let b = bytes::be_bytes(ed25519.len(), 4);
    bytes::lemma_widths();
    bytes::lemma_be_bytes_len(ml_dsa.len(), 4);
    bytes::lemma_be_bytes_len(ed25519.len(), 4);
    bytes::law_be_bytes_round_trip(ml_dsa.len(), 4);
    bytes::law_be_bytes_round_trip(ed25519.len(), 4);
    assert(data.take(8) =~= private_bundle_magic());
    assert(data.subrange(8, 12) =~= a);
    assert(data.subrange(12, 16) =~= b);
    assert(data.skip(16) =~= ml_dsa + ed25519);
    assert((ml_dsa + ed25519).take(ml_dsa.len() as int) =~= ml_dsa);
    assert((ml_dsa + ed25519).skip(ml_dsa.len() as int) =~= ed25519);
}

/// A private key bundle that can be taken apart is the bundle of its parts.
pub proof fn law_private_bundle_parts_round_trip(data: Seq<u8>)
    requires
        private_bundle_parts(data) is Ok,
    ensures
        ({
            let (ml_dsa, ed25519) = private_bundle_parts(data)->Ok_0;
            private_bundle(ml_dsa, ed25519) == Ok::<Seq<u8>, BundleError>(data)
        }),
{
    let (ml_dsa, ed25519) = private_bundle_parts(data)->Ok_0;
    bytes::lemma_widths();
    bytes::lemma_be_value_bound(data.subrange(8, 12));
    bytes::lemma_be_value_bound(data.subrange(12, 16));
    bytes::law_be_value_round_trip(data.subrange(8, 12));
    bytes::law_be_value_round_trip(data.subrange(12, 16));
    assert(private_bundle(ml_dsa, ed25519)->Ok_0 =~= data);
}

/// The layout of a public key bundle: the version 1, the ML-DSA key and the Ed25519 key.
pub proof fn law_public_bundle_layout(ml_dsa: Seq<u8>, ed25519: Seq<u8>)
    ensures
        ({
            let data = public_bundle(ml_dsa, ed25519);
            let split = 1 + ml_dsa.len() as int;
            &&& data.len() == split + ed25519.len()
            &&& data[0] == 1
            &&& data.subrange(1, split) == ml_dsa
            &&& data.subrange(split, data.len() as int) == ed25519
        }),
{
}

/// A public key bundle is taken apart wherever it is long enough for its version, a byte and an
/// Ed25519 key, and has the version 1: the last 32 bytes are the Ed25519 key, and all between the
/// version and them is the ML-DSA key.
pub proof fn law_public_bundle_is_read_by_place(data: Seq<u8>)
    ensures
        data.len() < 34 ==> public_bundle_parts(data) == Err::<(Seq<u8>, Seq<u8>), BundleError>(
            BundleError::PublicTooShort,
        ),
        data.len() >= 34 && data[0] != 1 ==> public_bundle_parts(data) == Err::<
            (Seq<u8>, Seq<u8>),
            BundleError,
        >(BundleError::PublicVersion(data[0])),
        data.len() >= 34 && data[0] == 1 ==> public_bundle_parts(data) == Ok::<
            (Seq<u8>, Seq<u8>),
            BundleError,
        >((data.subrange(1, data.len() - 32), data.subrange(data.len() - 32, data.len() as int))),
{
    if data.len() >= 34 {
        assert(data.skip(data.len() - 32) =~= data.subrange(data.len() - 32, data.len() as int));
    }
}

/// The layout of a private key bundle: eight characters, the lengths of both keys with the most
/// significant byte first, and both keys.
pub proof fn law_private_bundle_layout(ml_dsa: Seq<u8>, ed25519: Seq<u8>)
    requires
        ml_dsa.len() <= u32::MAX,
        ed25519.len() <= u32::MAX,
    ensures
        private_bundle(ml_dsa, ed25519) matches Ok(data) && {
            let split = 16 + ml_dsa.len() as int;
            &&& data.len() == split + ed25519.len()
            &&& forall|i: int| 0 <= i < 8 ==> #[trigger] data[i] == "AXSHCK02"@[i] as u8
            &&& ml_dsa.len() == data[8] * 0x100_0000 + data[9] * 0x1_0000 + data[10] * 256
                + data[11]
            &&& ed25519.len() == data[12] * 0x100_0000 + data[13] * 0x1_0000 + data[14] * 256
                + data[15]
            &&& data.subrange(16, split) == ml_dsa
            &&& data.subrange(split, data.len() as int) == ed25519
        },
{
    let data = private_bundle(ml_dsa, ed25519)->Ok_0;
    let a = bytes::be_bytes(ml_dsa.len(), 4);
    let b = bytes::be_bytes(ed25519.len(), 4);
    reveal_strlit("AXSHCK02");
    bytes::lemma_widths();
    bytes::lemma_be_bytes_len(ml_dsa.len(), 4);
    bytes::lemma_be_bytes_len(ed25519.len(), 4);
    bytes::law_be_bytes_round_trip(ml_dsa.len(), 4);
    bytes::law_be_bytes_round_trip(ed25519.len(), 4);
    bytes::law_be_value_of_four(a);
    bytes::law_be_value_of_four(b);
    assert(data[8] == a[0] && data[9] == a[1] && data[10] == a[2] && data[11] == a[3]);
    assert(data[12] == b[0] && data[13] == b[1] && data[14] == b[2] && data[15] == b[3]);
    assert forall|i: int| 0 <= i < 8 implies #[trigger] data[i] == "AXSHCK02"@[i] as u8 by {
        assert(data[i] == private_bundle_magic()[i]);
        assert(i == 0 || i == 1 || i == 2 || i == 3 || i == 4 || i == 5 || i == 6 || i == 7);
    }
}

/// A key that is too long for its length field is refused, and the first such key is named.
pub proof fn law_long_private_key_is_refused(ml_dsa: Seq<u8>, ed25519: Seq<u8>)
    ensures
        ml_dsa.len() > 0xffff_ffff ==> private_bundle(ml_dsa, ed25519) == Err::<
            Seq<u8>,
            BundleError,
        >(BundleError::MlDsaTooLarge),
        ml_dsa.len() <= 0xffff_ffff && ed25519.len() > 0xffff_ffff ==> private_bundle(
            ml_dsa,
            ed25519,
        ) == Err::<Seq<u8>, BundleError>(BundleError::Ed25519TooLarge),
{
}

/// A private key bundle is taken apart wherever it has a whole header with the right characters
/// and as many bytes behind it as the header announces.
pub proof fn law_private_bundle_is_read_by_place(data: Seq<u8>)
    ensures
        data.len() < 16 ==> private_bundle_parts(data) == Err::<(Seq<u8>, Seq<u8>), BundleError>(
            BundleError::PrivateTooShort,
        ),
        data.len() >= 16 && (exists|i: int| 0 <= i < 8 && data[i] != #[trigger] "AXSHCK02"@[i] as u8)
            ==> private_bundle_parts(data) == Err::<(Seq<u8>, Seq<u8>), BundleError>(
            BundleError::PrivateFormat,
        ),
        data.len() >= 16 && (forall|i: int|
            0 <= i < 8 ==> data[i] == #[trigger] "AXSHCK02"@[i] as u8) ==> {
            let first = data[8] * 0x100_0000 + data[9] * 0x1_0000 + data[10] * 256 + data[11];
            let second = data[12] * 0x100_0000 + data[13] * 0x1_0000 + data[14] * 256 + data[15];
            &&& data.len() != 16 + first + second ==> private_bundle_parts(data) == Err::<
                (Seq<u8>, Seq<u8>),
                BundleError,
            >(BundleError::PrivateTruncated)
            &&& data.len() == 16 + first + second ==> private_bundle_parts(data) == Ok::<
                (Seq<u8>, Seq<u8>),
                BundleError,
            >((data.subrange(16, 16 + first), data.subrange(16 + first, data.len() as int)))
        },
{
    reveal_strlit("AXSHCK02");
    let name = "AXSHCK02"@;
    if data.len() >= 16 {
        let magic = private_bundle_magic();
        let a = data.subrange(8, 12);
        let b = data.subrange(12, 16);
        bytes::law_be_value_of_four(a);
        bytes::law_be_value_of_four(b);
        assert(a[0] == data[8] && a[1] == data[9] && a[2] == data[10] && a[3] == data[11]);
        assert(b[0] == data[12] && b[1] == data[13] && b[2] == data[14] && b[3] == data[15]);
        assert forall|i: int| 0 <= i < 8 implies magic[i] == #[trigger] name[i] as u8 by {
            assert(i == 0 || i == 1 || i == 2 || i == 3 || i == 4 || i == 5 || i == 6 || i == 7);
        }
        if forall|i: int| 0 <= i < 8 ==> data[i] == #[trigger] name[i] as u8 {
            assert forall|i: int| 0 <= i < 8 implies data.take(8)[i] == magic[i] by {
                assert(data[i] == name[i] as u8);
            }
            assert(data.take(8) =~= magic);
            let first = bytes::be_value(a) as int;
            if data.len() == 16 + first + bytes::be_value(b) {
                assert(data.skip(16).take(first) =~= data.subrange(16, 16 + first));
                assert(data.skip(16).skip(first) =~= data.subrange(
                    16 + first,
                    data.len() as int,
                ));
            }
        } else {
            let k = choose|k: int| 0 <= k < 8 && data[k] != #[trigger] name[k] as u8;
            assert(data.take(8)[k] != magic[k]);
        }
    }
}

/// Bundle an ML-DSA public key and an Ed25519 public key.
pub fn encode_conn_public_key(
    ml_dsa_public_key_der: &[u8],
    ed25519_public_key: [u8; ED25519_PUBLIC_KEY_LEN],
) -> (out: Vec<u8>)
    ensures
        out@ == public_bundle(ml_dsa_public_key_der@, ed25519_public_key@),
{
    let mut out: Vec<u8> = Vec::new();
    out.push(CONN_PUBLIC_KEY_VERSION);
    bytes::extend(&mut out, ml_dsa_public_key_der);
    bytes::extend(&mut out, ed25519_public_key.as_slice());
    assert(out@ =~= public_bundle(ml_dsa_public_key_der@, ed25519_public_key@));
    out
}

/// Take a public key bundle apart.
pub fn decode_conn_public_key(data: &[u8]) -> (r: Result<
    (Vec<u8>, [u8; ED25519_PUBLIC_KEY_LEN]),
    BundleError,
>)
    ensures
        match r {
            Ok((ml_dsa, ed25519)) => public_bundle_parts(data@) == Ok::<
                (Seq<u8>, Seq<u8>),
                BundleError,
            >((ml_dsa@, ed25519@)),
            Err(e) => public_bundle_parts(data@) == Err::<(Seq<u8>, Seq<u8>), BundleError>(e),
        },
{
    if data.len() < 1 + 1 + ED25519_PUBLIC_KEY_LEN {
        return Err(BundleError::PublicTooShort);
    }
    let version: u8 = data[0];
    if version != CONN_PUBLIC_KEY_VERSION {
        return Err(BundleError::PublicVersion(version));
    }
    let split: usize = data.len() - ED25519_PUBLIC_KEY_LEN;
    let ml_dsa = slice_to_vec(slice_subrange(data, 1, split));
    let tail = slice_subrange(data, split, data.len());
    let ed25519: [u8; ED25519_PUBLIC_KEY_LEN] = bytes::to_array(tail);
    assert(ed25519@ =~= data@.skip(split as int));
    Ok((ml_dsa, ed25519))
}

/// Bundle an ML-DSA private key and an Ed25519 private key.
pub fn encode_conn_private_key_bundle(ml_dsa_pkcs8: &[u8], ed25519_pkcs8: &[u8]) -> (r: Result<
    Vec<u8>,
    BundleError,
>)
    ensures
        match r {
            Ok(out) => private_bundle(ml_dsa_pkcs8@, ed25519_pkcs8@) == Ok::<Seq<u8>, BundleError>(
                out@,
            ),
            Err(e) => private_bundle(ml_dsa_pkcs8@, ed25519_pkcs8@) == Err::<Seq<u8>, BundleError>(
                e,
            ),
        },
{
    if ml_dsa_pkcs8.len() as u64 > u32::MAX as u64 {
        return Err(BundleError::MlDsaTooLarge);
    }
    if ed25519_pkcs8.len() as u64 > u32::MAX as u64 {
        return Err(BundleError::Ed25519TooLarge);
    }
    let magic: [u8; 8] = [0x41, 0x58, 0x53, 0x48, 0x43, 0x4b, 0x30, 0x32];
    let ml_dsa_len: [u8; 4] = bytes::u32_to_be_bytes(ml_dsa_pkcs8.len() as u32);
    let ed25519_len: [u8; 4] = bytes::u32_to_be_bytes(ed25519_pkcs8.len() as u32);
    let mut out: Vec<u8> = Vec::new();
    bytes::extend(&mut out, magic.as_slice());
    bytes::extend(&mut out, ml_dsa_len.as_slice());
    bytes::extend(&mut out, ed25519_len.as_slice());
    bytes::extend(&mut out, ml_dsa_pkcs8);
    bytes::extend(&mut out, ed25519_pkcs8);
    assert(magic@ =~= private_bundle_magic());
    assert(out@ =~= private_bundle(ml_dsa_pkcs8@, ed25519_pkcs8@)->Ok_0);
    Ok(out)
}

/// Take a private key bundle apart.
pub fn decode_conn_private_key_bundle(data: &[u8]) -> (r: Result<(Vec<u8>, Vec<u8>), BundleError>)
    ensures
        match r {
            Ok((ml_dsa, ed25519)) => private_bundle_parts(data@) == Ok::<
                (Seq<u8>, Seq<u8>),
                BundleError,
            >((ml_dsa@, ed25519@)),
            Err(e) => private_bundle_parts(data@) == Err::<(Seq<u8>, Seq<u8>), BundleError>(e),
        },
{
    if data.len() < 16 {
        return Err(BundleError::PrivateTooShort);
    }
    let magic: [u8; 8] = [0x41, 0x58, 0x53, 0x48, 0x43, 0x4b, 0x30, 0x32];
    let head = slice_subrange(data, 0, 8);
    assert(magic@ =~= private_bundle_magic());
    assert(head@ =~= data@.take(8));
    if !bytes::same(head, magic.as_slice()) {
        return Err(BundleError::PrivateFormat);
    }
    let ml_dsa_len: u64 = bytes::be_bytes_to_u64(slice_subrange(data, 8, 12));
    let ed25519_len: u64 = bytes::be_bytes_to_u64(slice_subrange(data, 12, 16));
    proof {
        bytes::lemma_widths();
        bytes::lemma_be_value_bound(data@.subrange(8, 12));
        bytes::lemma_be_value_bound(data@.subrange(12, 16));
    }
    let rest = slice_subrange(data, 16, data.len());
    assert(rest@ =~= data@.skip(16));
    if rest.len() as u64 != ml_dsa_len + ed25519_len {
        return Err(BundleError::PrivateTruncated);
    }
    let split: usize = ml_dsa_len as usize;
    let ml_dsa = slice_to_vec(slice_subrange(rest, 0, split));
    let ed25519 = slice_to_vec(slice_subrange(rest, split, rest.len()));
    assert(ml_dsa@ =~= rest@.take(split as int));
    assert(ed25519@ =~= rest@.skip(split as int));
    Ok((ml_dsa, ed25519))
}

} // verus!
