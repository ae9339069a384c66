//! Base64 with the standard alphabet and `=` padding.

use vstd::prelude::*;
use vstd::string::StringExecFns;
use vstd::utf8::*;

verus! {

/// Why a text is not base64.
#[derive(Clone, Copy, Debug, PartialEq, Eq, Structural)]
pub enum Base64Error {
    /// The length in bytes is not a multiple of four.
    Length,
    /// A character is not in the alphabet.
    InvalidCharacter,
    /// Padding stands before the final group.
    EarlyPadding,
    /// A group has padding only in its third place.
    InvalidPadding,
}

impl Base64Error {
    /// What `message` says.
    pub open spec fn text(&self) -> Seq<char> {
        match self {
            Base64Error::Length => "base64 length must be a multiple of 4"@,
            Base64Error::InvalidCharacter => "invalid base64 character"@,
            Base64Error::EarlyPadding => "padding must appear only in the final chunk"@,
            Base64Error::InvalidPadding => "invalid base64 padding"@,
        }
    }

    /// Describe the error in words.
    pub fn message(&self) -> (out: String)
        ensures
            out@ == self.text(),
    {
        match self {
            Base64Error::Length => String::from_str("base64 length must be a multiple of 4"),
            Base64Error::InvalidCharacter => String::from_str("invalid base64 character"),
            Base64Error::EarlyPadding => String::from_str(
                "padding must appear only in the final chunk",
            ),
            Base64Error::InvalidPadding => String::from_str("invalid base64 padding"),
        }
    }
}

/// The character that stands for the six-bit value `v`.
pub open spec fn sextet_char(v: int) -> char {
    if v < 26 {
        (65 + v) as char
    } else if v < 52 {
        (97 + (v - 26)) as char
    } else if v < 62 {
        (48 + (v - 52)) as char
    } else if v == 62 {
        '+'
    } else {
        '/'
    }
}

/// The six-bit value that the byte `b` stands for.
pub open spec fn sextet_value(b: u8) -> Option<int> {
    if 65 <= b <= 90 {
        Some(b - 65)
    } else if 97 <= b <= 122 {
        Some(b - 97 + 26)
    } else if 48 <= b <= 57 {
        Some(b - 48 + 52)
    } else if b == 43 {
        Some(62)
    } else if b == 47 {
        Some(63)
    } else {
        None
    }
}

/// The base64 text of `data`: four characters for every three bytes, the last group padded.
pub open spec fn base64_text(data: Seq<u8>) -> Seq<char>
    decreases data.len(),
{
    if data.len() == 0 {
        Seq::empty()
    } else if data.len() == 1 {
        seq![sextet_char(data[0] as int / 4), sextet_char(data[0] as int % 4 * 16), '=', '=']
    } else if data.len() == 2 {
        seq![
            sextet_char(data[0] as int / 4),
            sextet_char(data[0] % 4 * 16 + data[1] / 16),
            sextet_char(data[1] % 16 * 4),
            '=',
        ]
    } else {
        seq![
            sextet_char(data[0] as int / 4),
            sextet_char(data[0] % 4 * 16 + data[1] / 16),
            sextet_char(data[1] % 16 * 4 + data[2] / 64),
            sextet_char(data[2] as int % 64),
        ] + base64_text(data.skip(3))
    }
}

/// The bytes that one group of four base64 bytes stands for.
pub open spec fn decode_group(group: Seq<u8>, is_last: bool) -> Result<Seq<u8>, Base64Error> {
    match (sextet_value(group[0]), sextet_value(group[1])) {
        (Some(a), Some(b)) => {
            let first = (a * 4 + b / 16) as u8;
            if group[2] == 61 && group[3] == 61 {
                if is_last {
                    Ok(seq![first])
                } else {
                    Err(Base64Error::EarlyPadding)
                }
            } else if group[2] == 61 {
                Err(Base64Error::InvalidPadding)
            } else if group[3] == 61 {
                if !is_last {
                    Err(Base64Error::EarlyPadding)
                } else {
                    match sextet_value(group[2]) {
                        Some(c) => Ok(seq![first, (b % 16 * 16 + c / 4) as u8]),
                        None => Err(Base64Error::InvalidCharacter),
                    }
                }
            } else {
                match (sextet_value(group[2]), sextet_value(group[3])) {
                    (Some(c), Some(d)) => Ok(
                        seq![first, (b % 16 * 16 + c / 4) as u8, (c % 4 * 64 + d) as u8],
                    ),
                    _ => Err(Base64Error::InvalidCharacter),
                }
            }
        },
        _ => Err(Base64Error::InvalidCharacter),
    }
}

/// The bytes that whole groups of base64 bytes stand for, or what is wrong with the first bad
/// group.
pub open spec fn decode_groups(bytes: Seq<u8>) -> Result<Seq<u8>, Base64Error>
    decreases bytes.len(),
{
    if bytes.len() < 4 {
        Ok(Seq::empty())
    } else {
        match decode_group(bytes.take(4), bytes.len() == 4) {
            Err(e) => Err(e),
            Ok(head) => match decode_groups(bytes.skip(4)) {
                Err(e) => Err(e),
                Ok(tail) => Ok(head + tail),
            },
        }
    }
}

/// The bytes that the base64 text `text` stands for.
pub open spec fn decode_text(text: Seq<char>) -> Result<Seq<u8>, Base64Error> {
    let bytes = encode_utf8(text);
    if bytes.len() % 4 != 0 {
        Err(Base64Error::Length)
    } else {
        decode_groups(bytes)
    }
}

/// The characters of an ASCII text as bytes.
spec fn ascii_bytes(text: Seq<char>) -> Seq<u8> {
    Seq::new(text.len(), |i: int| text[i] as u8)
}

/// A six-bit value is read back from the character that stands for it.
proof fn lemma_sextet_round_trip(v: int)
    requires
        0 <= v < 64,
    ensures
        sextet_char(v) as u8 != 61,
        sextet_char(v) as u32 <= 127,
        sextet_value(sextet_char(v) as u8) == Some(v),
{
}

/// The alphabet is the standard one: the character for a six-bit value is the one at that place of
/// the literal below.
pub proof fn law_alphabet(v: int)
    requires
        0 <= v < 64,
    ensures
        "ABCDEFGHIJKLMNOPQRSTUVWXYZabcdefghijklmnopqrstuvwxyz0123456789+/"@.len() == 64,
        sextet_char(v)
            == "ABCDEFGHIJKLMNOPQRSTUVWXYZabcdefghijklmnopqrstuvwxyz0123456789+/"@[v],
{
    reveal_strlit("ABCDEFGHIJKLMNOPQRSTUVWXYZabcdefghijklmnopqrstuvwxyz0123456789+/");
}

/// A byte stands for the value `v` exactly where it is the character at place `v` of the standard
/// alphabet; a byte that is at no place of it stands for no value.
pub proof fn law_alphabet_value(byte: u8)
    ensures
        forall|v: int|
            sextet_value(byte) == Some(v) <==> 0 <= v < 64 && byte as char
                == #[trigger] "ABCDEFGHIJKLMNOPQRSTUVWXYZabcdefghijklmnopqrstuvwxyz0123456789+/"@[v],
        sextet_value(byte) is None
            <==> !"ABCDEFGHIJKLMNOPQRSTUVWXYZabcdefghijklmnopqrstuvwxyz0123456789+/"@.contains(
            byte as char,
        ),
{
    let alphabet = "ABCDEFGHIJKLMNOPQRSTUVWXYZabcdefghijklmnopqrstuvwxyz0123456789+/"@;
    law_alphabet(0);
    assert forall|v: int| sextet_value(byte) == Some(v) <==> 0 <= v < 64 && byte as char
        == #[trigger] alphabet[v] by {
        if 0 <= v < 64 {
            law_alphabet(v);
            lemma_sextet_round_trip(v);
            if byte as char == alphabet[v] {
                assert(byte == sextet_char(v) as u8);
            }
        }
        if sextet_value(byte) == Some(v) {
            assert(0 <= v < 64);
            assert(sextet_char(v) == byte as char);
        }
    }
    if sextet_value(byte) is Some {
        let v = sextet_value(byte)->Some_0;
        assert(sextet_value(byte) == Some(v));
        assert(byte as char == alphabet[v]);
        assert(alphabet.contains(byte as char));
    }
    if alphabet.contains(byte as char) {
        let v = choose|v: int| 0 <= v < alphabet.len() && alphabet[v] == byte as char;
        assert(sextet_value(byte) == Some(v));
    }
}

/// The base64 text of bytes has four characters for every three bytes begun, all of them ASCII.
pub proof fn law_base64_text_shape(data: Seq<u8>)
    ensures
        is_ascii_chars(base64_text(data)),
        base64_text(data).len() == (data.len() + 2) / 3 * 4,
    decreases data.len(),
{
    let text = base64_text(data);
    if data.len() >= 1 {
        lemma_sextet_round_trip(data[0] as int / 4);
        if data.len() == 1 {
            lemma_sextet_round_trip(data[0] as int % 4 * 16);
        } else {
            lemma_sextet_round_trip(data[0] as int % 4 * 16 + data[1] as int / 16);
            if data.len() == 2 {
                lemma_sextet_round_trip(data[1] as int % 16 * 4);
            } else {
                lemma_sextet_round_trip(data[1] as int % 16 * 4 + data[2] as int / 64);
                lemma_sextet_round_trip(data[2] as int % 64);
                let rest = base64_text(data.skip(3));
                law_base64_text_shape(data.skip(3));
                assert forall|i: int| 0 <= i < text.len() implies '\0' <= #[trigger] text[i]
                    <= '\u{7f}' by {
                    if i >= 4 {
                        assert(text[i] == rest[i - 4]);
                    }
                }
            }
        }
    }
}

/// Every three bytes, taken as one number of three base-256 digits, are the same number as their
/// four characters, taken as base-64 digits.
pub proof fn law_base64_whole_group(data: Seq<u8>, i: int)
    requires
        0 <= i,
        3 * i + 3 <= data.len(),
    ensures
        base64_text(data).len() >= 4 * i + 4,
        ({
            let a = sextet_value(base64_text(data)[4 * i] as u8);
            let b = sextet_value(base64_text(data)[4 * i + 1] as u8);
            let c = sextet_value(base64_text(data)[4 * i + 2] as u8);
            let d = sextet_value(base64_text(data)[4 * i + 3] as u8);
            &&& a is Some && b is Some && c is Some && d is Some
            &&& ((a->Some_0 * 64 + b->Some_0) * 64 + c->Some_0) * 64 + d->Some_0 == (data[3 * i]
                * 256 + data[3 * i + 1]) * 256 + data[3 * i + 2]
        }),
    decreases data.len(),
{
    if i == 0 {
        lemma_sextet_round_trip(data[0] as int / 4);
        lemma_sextet_round_trip(data[0] as int % 4 * 16 + data[1] as int / 16);
        lemma_sextet_round_trip(data[1] as int % 16 * 4 + data[2] as int / 64);
        lemma_sextet_round_trip(data[2] as int % 64);
    } else {
        let rest = data.skip(3);
        law_base64_whole_group(rest, i - 1);
        assert(base64_text(data).skip(4) =~= base64_text(rest));
        assert(base64_text(data).len() == base64_text(rest).len() + 4);
        assert forall|k: int| 4 <= k < base64_text(data).len() implies base64_text(data)[k]
            == #[trigger] base64_text(rest)[k - 4] by {}
        assert(base64_text(data)[4 * i] == base64_text(rest)[4 * (i - 1)]);
        assert(base64_text(data)[4 * i + 1] == base64_text(rest)[4 * (i - 1) + 1]);
        assert(base64_text(data)[4 * i + 2] == base64_text(rest)[4 * (i - 1) + 2]);
        assert(base64_text(data)[4 * i + 3] == base64_text(rest)[4 * (i - 1) + 3]);
    }
}

/// One or two bytes left over behind the whole groups are written as the upper bits of two or
/// three characters, the lower bits being zero, and `=` fills the group.
pub proof fn law_base64_last_group(data: Seq<u8>)
    requires
        data.len() % 3 != 0,
    ensures
        ({
            let n = data.len() as int;
            let t = base64_text(data);
            let m = t.len() as int;
            let a = sextet_value(t[m - 4] as u8);
            let b = sextet_value(t[m - 3] as u8);
            let c = sextet_value(t[m - 2] as u8);
            &&& m >= 4
            &&& a is Some && b is Some
            &&& t[m - 1] == '='
            &&& n % 3 == 1 ==> t[m - 2] == '=' && a->Some_0 * 64 + b->Some_0 == data[n - 1] * 16
            &&& n % 3 == 2 ==> c is Some && (a->Some_0 * 64 + b->Some_0) * 64 + c->Some_0 == (
            data[n - 2] * 256 + data[n - 1]) * 4
        }),
    decreases data.len(),
{
    if data.len() == 1 {
        lemma_sextet_round_trip(data[0] as int / 4);
        lemma_sextet_round_trip(data[0] as int % 4 * 16);
    } else if data.len() == 2 {
        lemma_sextet_round_trip(data[0] as int / 4);
        lemma_sextet_round_trip(data[0] as int % 4 * 16 + data[1] as int / 16);
        lemma_sextet_round_trip(data[1] as int % 16 * 4);
    } else {
        let rest = data.skip(3);
        law_base64_last_group(rest);
        let t = base64_text(data);
        let u = base64_text(rest);
        assert(t.skip(4) =~= u);
        assert(t[t.len() - 4] == u[u.len() - 4]);
        assert(t[t.len() - 3] == u[u.len() - 3]);
        assert(t[t.len() - 2] == u[u.len() - 2]);
        assert(t[t.len() - 1] == u[u.len() - 1]);
    }
}

/// Groups are accepted exactly where every byte is of the alphabet, but for one or two `=` at the
/// very end.
pub proof fn law_base64_accepted(bytes: Seq<u8>)
    requires
        bytes.len() % 4 == 0,
    ensures
        decode_groups(bytes) is Ok <==> {
            let n = bytes.len() as int;
            &&& forall|i: int| 0 <= i < n - 2 ==> sextet_value(#[trigger] bytes[i]) is Some
            &&& n > 0 ==> {
                ||| bytes[n - 2] == '=' as u8 && bytes[n - 1] == '=' as u8
                ||| sextet_value(bytes[n - 2]) is Some && bytes[n - 1] == '=' as u8
                ||| sextet_value(bytes[n - 2]) is Some && sextet_value(bytes[n - 1]) is Some
            }
        },
    decreases bytes.len(),
{
    let n = bytes.len() as int;
    if n >= 4 {
        let head = bytes.take(4);
        let tail = bytes.skip(4);
        law_base64_accepted(tail);
        assert(decode_groups(bytes) is Ok <==> decode_group(head, n == 4) is Ok && decode_groups(
            tail,
        ) is Ok);
        assert(head[0] == bytes[0] && head[1] == bytes[1] && head[2] == bytes[2] && head[3]
            == bytes[3]);
        if n == 4 {
            assert(tail.len() == 0);
            assert(decode_groups(tail) is Ok);
            if decode_groups(bytes) is Ok {
                assert forall|i: int| 0 <= i < n - 2 implies sextet_value(
                    #[trigger] bytes[i],
                ) is Some by {
                    assert(i == 0 || i == 1);
                }
            }
        } else {
            assert(tail[n - 6] == bytes[n - 2] && tail[n - 5] == bytes[n - 1]);
            if decode_groups(bytes) is Ok {
                assert forall|i: int| 0 <= i < n - 2 implies sextet_value(
                    #[trigger] bytes[i],
                ) is Some by {
                    if i >= 4 {
                        assert(bytes[i] == tail[i - 4]);
                    } else {
                        assert(i == 0 || i == 1 || i == 2 || i == 3);
                    }
                }
            } else if forall|i: int| 0 <= i < n - 2 ==> sextet_value(#[trigger] bytes[i]) is Some {
                assert(sextet_value(bytes[0]) is Some && sextet_value(bytes[1]) is Some
                    && sextet_value(bytes[2]) is Some && sextet_value(bytes[3]) is Some);
                assert(decode_group(head, false) is Ok);
                assert forall|i: int| 0 <= i < tail.len() - 2 implies sextet_value(
                    #[trigger] tail[i],
                ) is Some by {
                    assert(tail[i] == bytes[i + 4]);
                }
            }
        }
    }
}

/// The first bad group decides: behind groups of the alphabet, what is wrong with a group is what
/// is wrong with the whole.
pub proof fn law_base64_first_bad_group(good: Seq<u8>, group: Seq<u8>, rest: Seq<u8>)
    requires
        good.len() % 4 == 0,
        forall|i: int| 0 <= i < good.len() ==> sextet_value(#[trigger] good[i]) is Some,
        group.len() == 4,
        decode_group(group, rest.len() == 0) is Err,
    ensures
        decode_groups(good + group + rest) == decode_group(group, rest.len() == 0),
    decreases good.len(),
{
    let all = good + group + rest;
    if good.len() == 0 {
        assert(all.take(4) =~= group);
    } else {
        assert(good[0] == all[0] && good[1] == all[1] && good[2] == all[2] && good[3] == all[3]);
        assert(decode_group(all.take(4), false) is Ok);
        assert(all.skip(4) =~= good.skip(4) + group + rest);
        assert forall|i: int| 0 <= i < good.skip(4).len() implies sextet_value(
            #[trigger] good.skip(4)[i],
        ) is Some by {
            assert(good.skip(4)[i] == good[i + 4]);
        }
        law_base64_first_bad_group(good.skip(4), group, rest);
    }
}

/// What is wrong with one group: a padding sign where it may not stand, or a byte that is neither
/// of the alphabet nor such a sign.
pub proof fn law_base64_bad_group(group: Seq<u8>, is_last: bool)
    requires
        group.len() == 4,
    ensures
        sextet_value(group[0]) is None || sextet_value(group[1]) is None ==> decode_group(
            group,
            is_last,
        ) == Err::<Seq<u8>, Base64Error>(Base64Error::InvalidCharacter),
        sextet_value(group[0]) is Some && sextet_value(group[1]) is Some ==> {
            &&& group[2] == '=' as u8 && group[3] != '=' as u8 ==> decode_group(group, is_last)
                == Err::<Seq<u8>, Base64Error>(Base64Error::InvalidPadding)
            &&& group[3] == '=' as u8 && !is_last && (group[2] == '=' as u8 || sextet_value(
                group[2],
            ) is Some) ==> decode_group(group, is_last) == Err::<Seq<u8>, Base64Error>(
                Base64Error::EarlyPadding,
            )
            &&& group[2] != '=' as u8 && group[3] != '=' as u8 && (sextet_value(group[2]) is None
                || sextet_value(group[3]) is None) ==> decode_group(group, is_last) == Err::<
                Seq<u8>,
                Base64Error,
            >(Base64Error::InvalidCharacter)
        },
{
}

/// The bytes that an accepted group stands for are the bits of its characters, eight at a time;
/// what is left over of them below the last byte is dropped.
pub proof fn law_base64_decoded_group(group: Seq<u8>, is_last: bool)
    requires
        group.len() == 4,
        decode_group(group, is_last) is Ok,
    ensures
        ({
            let out = decode_group(group, is_last)->Ok_0;
            let a = sextet_value(group[0])->Some_0;
            let b = sextet_value(group[1])->Some_0;
            let c = sextet_value(group[2])->Some_0;
            let d = sextet_value(group[3])->Some_0;
            &&& out.len() == (if group[3] != '=' as u8 {
                3int
            } else if group[2] != '=' as u8 {
                2
            } else {
                1
            })
            &&& out.len() == 3 ==> (out[0] * 256 + out[1]) * 256 + out[2] == ((a * 64 + b) * 64 + c)
                * 64 + d
            &&& out.len() == 2 ==> out[0] * 256 + out[1] == ((a * 64 + b) * 64 + c) / 4
            &&& out.len() == 1 ==> out[0] == (a * 64 + b) / 16
        }),
{
    law_alphabet_value(group[0]);
    law_alphabet_value(group[1]);
    law_alphabet_value(group[2]);
    law_alphabet_value(group[3]);
}

/// Decoding the groups of a base64 text gives the bytes that it was made from.
#[verifier::rlimit(40)]
proof fn lemma_groups_round_trip(data: Seq<u8>)
    ensures
        decode_groups(ascii_bytes(base64_text(data))) == Ok::<Seq<u8>, Base64Error>(data),
    decreases data.len(),
{
    let text = base64_text(data);
    let bytes = ascii_bytes(text);
    law_base64_text_shape(data);
    if data.len() == 0 {
        assert(data =~= Seq::empty());
    } else {
        lemma_sextet_round_trip(data[0] as int / 4);
        let group = bytes.take(4);
        if data.len() == 1 {
            lemma_sextet_round_trip(data[0] as int % 4 * 16);
            assert(decode_group(group, true) matches Ok(g) && g =~= data);
            assert(decode_groups(bytes.skip(4)) matches Ok(t) && t.len() == 0);
            assert(decode_groups(bytes)->Ok_0 =~= data);
        } else if data.len() == 2 {
            lemma_sextet_round_trip(data[0] as int % 4 * 16 + data[1] as int / 16);
            lemma_sextet_round_trip(data[1] as int % 16 * 4);
            assert(decode_group(group, true) matches Ok(g) && g =~= data);
            assert(decode_groups(bytes.skip(4)) matches Ok(t) && t.len() == 0);
            assert(decode_groups(bytes)->Ok_0 =~= data);
        } else {
            lemma_sextet_round_trip(data[0] as int % 4 * 16 + data[1] as int / 16);
            lemma_sextet_round_trip(data[1] as int % 16 * 4 + data[2] as int / 64);
            lemma_sextet_round_trip(data[2] as int % 64);
            law_base64_text_shape(data.skip(3));
            lemma_groups_round_trip(data.skip(3));
            assert(bytes.skip(4) =~= ascii_bytes(base64_text(data.skip(3))));
            assert(decode_group(group, bytes.len() == 4) matches Ok(g) && g =~= data.take(3));
            assert(data.take(3) + data.skip(3) =~= data);
        }
    }
}

/// Decoding the base64 text of bytes gives the bytes back.
pub proof fn law_base64_round_trip(data: Seq<u8>)
    ensures
        decode_text(base64_text(data)) == Ok::<Seq<u8>, Base64Error>(data),
{
    let text = base64_text(data);
    law_base64_text_shape(data);
    is_ascii_chars_encode_utf8(text);
    assert(encode_utf8(text) =~= ascii_bytes(text));
    lemma_groups_round_trip(data);
}

/// Groups of the alphabet are decoded by themselves: their bytes stand in front of the bytes of
/// what follows. A single group is decoded as the last one.
pub proof fn law_base64_groups_add_up(good: Seq<u8>, rest: Seq<u8>)
    requires
        good.len() % 4 == 0,
        forall|i: int| 0 <= i < good.len() ==> sextet_value(#[trigger] good[i]) is Some,
    ensures
        decode_groups(good) is Ok,
        match decode_groups(rest) {
            Ok(tail) => decode_groups(good + rest) == Ok::<Seq<u8>, Base64Error>(
                decode_groups(good)->Ok_0 + tail,
            ),
            Err(e) => decode_groups(good + rest) == Err::<Seq<u8>, Base64Error>(e),
        },
        rest.len() == 4 ==> decode_groups(rest) == decode_group(rest, true),
        rest.len() == 0 ==> decode_groups(rest) == Ok::<Seq<u8>, Base64Error>(Seq::empty()),
    decreases good.len(),
{
    if rest.len() == 4 {
        assert(rest.take(4) =~= rest);
        assert(decode_groups(rest.skip(4)) == Ok::<Seq<u8>, Base64Error>(Seq::empty()));
        if let Ok(head) = decode_group(rest, true) {
            assert(head + Seq::empty() =~= head);
        }
    }
    if good.len() == 0 {
        assert(good + rest =~= rest);
        if let Ok(tail) = decode_groups(rest) {
            assert(Seq::empty() + tail =~= tail);
        }
    } else {
        let all = good + rest;
        let more = good.skip(4);
        assert(sextet_value(good[0]) is Some && sextet_value(good[1]) is Some && sextet_value(
            good[2],
        ) is Some && sextet_value(good[3]) is Some);
        assert(all.take(4) =~= good.take(4));
        assert(all.skip(4) =~= more + rest);
        assert forall|i: int| 0 <= i < more.len() implies sextet_value(
            #[trigger] more[i],
        ) is Some by {
            assert(more[i] == good[i + 4]);
        }
        law_base64_groups_add_up(more, rest);
        let head = decode_group(good.take(4), false)->Ok_0;
        assert(decode_group(good.take(4), true) == decode_group(good.take(4), false));
        if let Ok(tail) = decode_groups(rest) {
            assert(head + (decode_groups(more)->Ok_0 + tail) =~= (head + decode_groups(more)->Ok_0)
                + tail);
        }
    }
}

/// A text is measured by its bytes in UTF-8: it is refused for its length exactly where they are
/// no multiple of four, and is decoded by those bytes otherwise.
pub proof fn law_base64_text_is_decoded_by_bytes(text: Seq<char>)
    ensures
        encode_utf8(text).len() % 4 != 0 <==> decode_text(text) == Err::<Seq<u8>, Base64Error>(
            Base64Error::Length,
        ),
        encode_utf8(text).len() % 4 == 0 ==> decode_text(text) == decode_groups(encode_utf8(text)),
{
    if encode_utf8(text).len() % 4 == 0 {
        lemma_groups_are_not_refused_for_length(encode_utf8(text));
    }
}

/// Whole groups are not refused for their length.
proof fn lemma_groups_are_not_refused_for_length(bytes: Seq<u8>)
    ensures
        decode_groups(bytes) != Err::<Seq<u8>, Base64Error>(Base64Error::Length),
    decreases bytes.len(),
{
    if bytes.len() >= 4 {
        lemma_groups_are_not_refused_for_length(bytes.skip(4));
    }
}

/// Whole groups of three bytes are encoded by themselves: the base64 text of such bytes and of what
/// follows them is both texts one behind the other.
pub proof fn law_base64_text_of_concatenation(a: Seq<u8>, b: Seq<u8>)
    requires
        a.len() % 3 == 0,
    ensures
        base64_text(a + b) == base64_text(a) + base64_text(b),
    decreases a.len(),
{
    if a.len() == 0 {
        assert(a + b =~= b);
        assert(base64_text(a) + base64_text(b) =~= base64_text(b));
    } else {
        assert((a + b).skip(3) =~= a.skip(3) + b);
        law_base64_text_of_concatenation(a.skip(3), b);
        assert(base64_text(a + b) =~= base64_text(a) + base64_text(b));
    }
}

/// Different bytes have different base64 texts.
pub proof fn law_base64_injective(a: Seq<u8>, b: Seq<u8>)
    requires
        base64_text(a) == base64_text(b),
    ensures
        a == b,
{
    law_base64_round_trip(a);
    law_base64_round_trip(b);
}

/// The character that stands for the six-bit value `v`.
fn encode_char(v: u8) -> (c: char)
    requires
        v < 64,
    ensures
        c == sextet_char(v as int),
{
    if v < 26 {
        (65 + v) as char
    } else if v < 52 {
        (97 + (v - 26)) as char
    } else if v < 62 {
        (48 + (v - 52)) as char
    } else if v == 62 {
        '+'
    } else {
        '/'
    }
}

/// The six-bit value that `byte` stands for.
fn decode_char(byte: u8) -> (r: Result<u8, Base64Error>)
    ensures
        match r {
            Ok(v) => sextet_value(byte) == Some(v as int) && v < 64,
            Err(e) => sextet_value(byte) is None && e == Base64Error::InvalidCharacter,
        },
{
    if 65 <= byte && byte <= 90 {
        Ok(byte - 65)
    } else if 97 <= byte && byte <= 122 {
        Ok(byte - 97 + 26)
    } else if 48 <= byte && byte <= 57 {
        Ok(byte - 48 + 52)
    } else if byte == 43 {
        Ok(62)
    } else if byte == 47 {
        Ok(63)
    } else {
        Err(Base64Error::InvalidCharacter)
    }
}

/// Encode bytes as base64 text.
#[verifier::rlimit(40)]
pub fn encode_base64(data: &[u8]) -> (out: String)
    ensures
        out@ == base64_text(data@),
{
    let mut out = String::new();
    let mut i: usize = 0;
    assert(data@.skip(0) =~= data@);
    assert(out@ + base64_text(data@) =~= base64_text(data@));
    while i < data.len()
        invariant
            i <= data@.len(),
            base64_text(data@) == out@ + base64_text(data@.skip(i as int)),
        decreases data@.len() - i,
    {
        let ghost before = out@;
        let ghost rest = data@.skip(i as int);
        let left: usize = data.len() - i;
        let b0: u8 = data[i];
        let b1: u8 = if left > 1 {
            data[i + 1]
        } else {
            0
        };
        let b2: u8 = if left > 2 {
            data[i + 2]
        } else {
            0
        };
        out.push(encode_char(b0 / 4));
        out.push(encode_char(b0 % 4 * 16 + b1 / 16));
        if left >= 2 {
            out.push(encode_char(b1 % 16 * 4 + b2 / 64));
        } else {
            out.push('=');
        }
        if left >= 3 {
            out.push(encode_char(b2 % 64));
            i = i + 3;
            assert(rest.skip(3) =~= data@.skip(i as int));
        } else {
            out.push('=');
            i = data.len();
            assert(data@.skip(i as int) =~= Seq::empty());
        }
        assert(before + base64_text(rest) =~= out@ + base64_text(data@.skip(i as int)));
    }
    assert(data@.skip(i as int) =~= Seq::empty());
    assert(out@ + base64_text(data@.skip(i as int)) =~= out@);
    out
}

/// Append the bytes that the group `[g0, g1, g2, g3]` stands for.
fn decode_group_into(
    g0: u8,
    g1: u8,
    g2: u8,
    g3: u8,
    is_last: bool,
    out: &mut Vec<u8>,
) -> (r: Result<(), Base64Error>)
    ensures
        match r {
            Ok(()) => decode_group(seq![g0, g1, g2, g3], is_last) matches Ok(head) && final(out)@
                == old(out)@ + head,
            Err(e) => decode_group(seq![g0, g1, g2, g3], is_last) == Err::<Seq<u8>, Base64Error>(e),
        },
{
    let ghost before = out@;
    let a = match decode_char(g0) {
        Ok(v) => v,
        Err(e) => return Err(e),
    };
    let b = match decode_char(g1) {
        Ok(v) => v,
        Err(e) => return Err(e),
    };
    out.push(a * 4 + b / 16);
    if g2 == 61 && g3 == 61 {
        if !is_last {
            return Err(Base64Error::EarlyPadding);
        }
        assert(out@ =~= before + seq![(a * 4 + b / 16) as u8]);
    } else if g2 == 61 {
        return Err(Base64Error::InvalidPadding);
    } else if g3 == 61 {
        if !is_last {
            return Err(Base64Error::EarlyPadding);
        }
        let c = match decode_char(g2) {
            Ok(v) => v,
            Err(e) => return Err(e),
        };
        out.push(b % 16 * 16 + c / 4);
        assert(out@ =~= before + seq![(a * 4 + b / 16) as u8, (b % 16 * 16 + c / 4) as u8]);
    } else {
        let c = match decode_char(g2) {
            Ok(v) => v,
            Err(e) => return Err(e),
        };
        let d = match decode_char(g3) {
            Ok(v) => v,
            Err(e) => return Err(e),
        };
        out.push(b % 16 * 16 + c / 4);
        out.push(c % 4 * 64 + d);
        assert(out@ =~= before + seq![
            (a * 4 + b / 16) as u8,
            (b % 16 * 16 + c / 4) as u8,
            (c % 4 * 64 + d) as u8,
        ]);
    }
    Ok(())
}

/// Decode base64 text.
#[verifier::rlimit(40)]
pub fn decode_base64(data: &str) -> (r: Result<Vec<u8>, Base64Error>)
    ensures
        match r {
            Ok(out) => decode_text(data@) == Ok::<Seq<u8>, Base64Error>(out@),
            Err(e) => decode_text(data@) == Err::<Seq<u8>, Base64Error>(e),
        },
{
    let bytes = data.as_bytes();
    if bytes.len() % 4 != 0 {
        return Err(Base64Error::Length);
    }
    let mut out: Vec<u8> = Vec::with_capacity(bytes.len() / 4 * 3);
    let mut i: usize = 0;
    let ghost whole = decode_groups(bytes@);
    assert(bytes@.skip(0) =~= bytes@);
    proof {
        if whole is Ok {
            assert(out@ + whole->Ok_0 =~= whole->Ok_0);
        }
    }
    while i < bytes.len()
        invariant
            i <= bytes@.len(),
            (bytes@.len() - i) % 4 == 0,
            bytes@.len() % 4 == 0,
            bytes@ == encode_utf8(data@),
            whole == decode_groups(bytes@),
            match decode_groups(bytes@.skip(i as int)) {
                Ok(tail) => whole == Ok::<Seq<u8>, Base64Error>(out@ + tail),
                Err(e) => whole == Err::<Seq<u8>, Base64Error>(e),
            },
        decreases bytes@.len() - i,
    {
        let ghost before = out@;
        let ghost rest = bytes@.skip(i as int);
        let is_last: bool = bytes.len() - i == 4;
        assert(rest.take(4) =~= seq![
            bytes@[i as int],
            bytes@[i + 1],
            bytes@[i + 2],
            bytes@[i + 3],
        ]);
        assert(rest.skip(4) =~= bytes@.skip(i + 4));
        match decode_group_into(
            bytes[i],
            bytes[i + 1],
            bytes[i + 2],
            bytes[i + 3],
            is_last,
            &mut out,
        ) {
            Ok(()) => {},
            Err(e) => return Err(e),
        }
        i = i + 4;
        proof {
            let head = decode_group(rest.take(4), is_last)->Ok_0;
            if let Ok(tail) = decode_groups(bytes@.skip(i as int)) {
                assert(before + (head + tail) =~= out@ + tail);
            }
        }
    }
    assert(bytes@.skip(i as int) =~= Seq::empty());
    assert(out@ + Seq::<u8>::empty() =~= out@);
    Ok(out)
}

} // verus!
