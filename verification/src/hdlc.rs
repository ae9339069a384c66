//! HDLC-style framing: flags, byte stuffing and a CRC-16 frame check sequence.

use vstd::prelude::*;
use vstd::slice::{slice_subrange, slice_to_vec};
use vstd::string::StringExecFns;


verus! {

/// The byte that opens and closes a frame.
pub const FLAG: u8 = 0x7e;

/// The byte that announces a stuffed byte.
pub const ESCAPE: u8 = 0x7d;

/// What a stuffed byte is combined with.
pub const ESCAPE_XOR: u8 = 0x20;

/// The CRC register before the first byte.
pub const INITIAL_FCS: u16 = 0xffff;

/// The CRC polynomial, least significant bit first.
pub const FCS_POLY: u16 = 0x8408;

/// Why bytes are not a frame.
#[derive(Clone, Copy, Debug, PartialEq, Eq, Structural)]
pub enum FrameError {
    /// There are fewer than four bytes.
    TooShort,
    /// The first byte is not a flag.
    MissingOpeningFlag,
    /// The last byte is not a flag.
    MissingClosingFlag,
    /// A flag stands unstuffed inside the frame.
    UnexpectedFlag,
    /// An escape byte is followed by the closing flag.
    DanglingEscape,
    /// There is no room for the frame check sequence.
    MissingFcs,
    /// The frame check sequence is not that of the payload.
    FcsMismatch,
}

impl FrameError {
    /// What `message` says.
    pub open spec fn text(&self) -> Seq<char> {
        match self {
            FrameError::TooShort => "frame too short"@,
            FrameError::MissingOpeningFlag => "frame missing opening flag"@,
            FrameError::MissingClosingFlag => "frame missing closing flag"@,
            FrameError::UnexpectedFlag => "unexpected flag inside frame"@,
            FrameError::DanglingEscape => "frame ends with dangling escape"@,
            FrameError::MissingFcs => "frame missing FCS"@,
            FrameError::FcsMismatch => "frame FCS mismatch"@,
        }
    }

    /// Describe the error in words.
    pub fn message(&self) -> (out: String)
        ensures
            out@ == self.text(),
    {
        match self {
            FrameError::TooShort => String::from_str("frame too short"),
            FrameError::MissingOpeningFlag => String::from_str("frame missing opening flag"),
            FrameError::MissingClosingFlag => String::from_str("frame missing closing flag"),
            FrameError::UnexpectedFlag => String::from_str("unexpected flag inside frame"),
            FrameError::DanglingEscape => String::from_str("frame ends with dangling escape"),
            FrameError::MissingFcs => String::from_str("frame missing FCS"),
            FrameError::FcsMismatch => String::from_str("frame FCS mismatch"),
        }
    }
}

/// One bit of the division by the CRC polynomial, least significant bit first.
pub open spec fn fcs_bit(fcs: u16) -> u16 {
    if fcs & 1 != 0 {
        (fcs >> 1) ^ FCS_POLY
    } else {
        fcs >> 1
    }
}

/// `n` bits of the division.
pub open spec fn fcs_bits(fcs: u16, n: nat) -> u16
    decreases n,
{
    if n == 0 {
        fcs
    } else {
        fcs_bit(fcs_bits(fcs, (n - 1) as nat))
    }
}

/// The CRC register after the bytes `data`.
pub open spec fn fcs_register(data: Seq<u8>) -> u16
    decreases data.len(),
{
    if data.len() == 0 {
        INITIAL_FCS
    } else {
        fcs_bits(fcs_register(data.drop_last()) ^ (data.last() as u16), 8)
    }
}

/// The frame check sequence of a payload.
pub open spec fn fcs_of(payload: Seq<u8>) -> u16 {
    !fcs_register(payload)
}

/// The frame check sequence as it is sent, low byte first.
pub open spec fn fcs_bytes(fcs: u16) -> Seq<u8> {
    seq![(fcs % 256) as u8, (fcs / 256) as u8]
}

/// One byte, stuffed if need be.
pub open spec fn escape_byte(b: u8) -> Seq<u8> {
    if b == FLAG || b == ESCAPE {
        seq![ESCAPE, b ^ ESCAPE_XOR]
    } else {
        seq![b]
    }
}

/// The stuffed form of `data`.
pub open spec fn escape(data: Seq<u8>) -> Seq<u8>
    decreases data.len(),
{
    if data.len() == 0 {
        Seq::empty()
    } else {
        escape_byte(data.first()) + escape(data.drop_first())
    }
}

/// `result` with `head` before what it holds.
pub open spec fn prefixed(
    head: Seq<u8>,
    result: Result<Seq<u8>, FrameError>,
) -> Result<Seq<u8>, FrameError> {
    match result {
        Ok(tail) => Ok(head + tail),
        Err(e) => Err(e),
    }
}

/// The bytes of which `data` is the stuffed form; `escaped` tells whether an escape byte stands
/// just before `data`.
pub open spec fn unescape(data: Seq<u8>, escaped: bool) -> Result<Seq<u8>, FrameError>
    decreases data.len(),
{
    if data.len() == 0 {
        if escaped {
            Err(FrameError::DanglingEscape)
        } else {
            Ok(Seq::empty())
        }
    } else if escaped {
        prefixed(seq![data.first() ^ ESCAPE_XOR], unescape(data.drop_first(), false))
    } else if data.first() == ESCAPE {
        unescape(data.drop_first(), true)
    } else if data.first() == FLAG {
        Err(FrameError::UnexpectedFlag)
    } else {
        prefixed(seq![data.first()], unescape(data.drop_first(), false))
    }
}

/// The frame that carries `payload`.
pub open spec fn frame_of(payload: Seq<u8>) -> Seq<u8> {
    seq![FLAG] + escape(payload + fcs_bytes(fcs_of(payload))) + seq![FLAG]
}

/// The payload that unstuffed frame content carries.
pub open spec fn checked_payload(content: Seq<u8>) -> Result<Seq<u8>, FrameError> {
    if content.len() < 2 {
        Err(FrameError::MissingFcs)
    } else {
        let payload = content.take(content.len() - 2);
        if content.skip(content.len() - 2) != fcs_bytes(fcs_of(payload)) {
            Err(FrameError::FcsMismatch)
        } else {
            Ok(payload)
        }
    }
}

/// The payload that `frame` carries, or what is wrong with it.
pub open spec fn payload_of(frame: Seq<u8>) -> Result<Seq<u8>, FrameError> {
    if frame.len() < 4 {
        Err(FrameError::TooShort)
    } else if frame.first() != FLAG {
        Err(FrameError::MissingOpeningFlag)
    } else if frame.last() != FLAG {
        Err(FrameError::MissingClosingFlag)
    } else {
        match unescape(frame.subrange(1, frame.len() - 1), false) {
            Err(e) => Err(e),
            Ok(content) => checked_payload(content),
        }
    }
}

/// The frames that a reader finds in `stream`. `open` holds the bytes of the frame that the
/// reader is in, if it is in one.
pub open spec fn frames_in(open: Option<Seq<u8>>, stream: Seq<u8>) -> Seq<Seq<u8>>
    decreases stream.len(),
{
    if stream.len() == 0 {
        Seq::empty()
    } else {
        let step = read_byte(open, stream.first());
        let rest = frames_in(step.0, stream.drop_first());
        match step.1 {
            Some(frame) => seq![frame] + rest,
            None => rest,
        }
    }
}

/// What a reader does with one byte: the frame that it is in afterwards, and the frame that the
/// byte completes.
pub open spec fn read_byte(open: Option<Seq<u8>>, byte: u8) -> (Option<Seq<u8>>, Option<Seq<u8>>) {
    match open {
        None => if byte == FLAG {
            (Some(seq![FLAG]), None)
        } else {
            (None, None)
        },
        Some(frame) => if byte == FLAG {
            (None, Some(frame.push(FLAG)))
        } else {
            (Some(frame.push(byte)), None)
        },
    }
}

/// The frame that a reader is in behind `stream`, if it is in one. `open` holds the bytes of the
/// frame that it is in before.
pub open spec fn open_after(open: Option<Seq<u8>>, stream: Seq<u8>) -> Option<Seq<u8>>
    decreases stream.len(),
{
    if stream.len() == 0 {
        open
    } else {
        open_after(read_byte(open, stream.first()).0, stream.drop_first())
    }
}

proof fn lemma_stuffed_byte(b: u8)
    ensures
        (b ^ ESCAPE_XOR) ^ ESCAPE_XOR == b,
        b == FLAG || b == ESCAPE ==> b ^ ESCAPE_XOR != FLAG,
{
    assert((b ^ 0x20) ^ 0x20 == b) by (bit_vector);
    assert((b == 0x7e || b == 0x7d) ==> b ^ 0x20 != 0x7e) by (bit_vector);
}

/// Stuffing distributes over concatenation.
proof fn lemma_escape_concat(a: Seq<u8>, b: Seq<u8>)
    ensures
        escape(a + b) == escape(a) + escape(b),
    decreases a.len(),
{
    if a.len() == 0 {
        assert(a + b =~= b);
        assert(escape(a) + escape(b) =~= escape(b));
    } else {
        assert((a + b).drop_first() =~= a.drop_first() + b);
        lemma_escape_concat(a.drop_first(), b);
        assert(escape(a + b) =~= escape(a) + escape(b));
    }
}

/// Unstuffing the stuffed form of bytes gives the bytes back.
pub proof fn law_unescape_escape(data: Seq<u8>)
    ensures
        unescape(escape(data), false) == Ok::<Seq<u8>, FrameError>(data),
    decreases data.len(),
{
    if data.len() == 0 {
        assert(data =~= Seq::empty());
    } else {
        let b = data.first();
        let rest = escape(data.drop_first());
        let stuffed = escape(data);
        law_unescape_escape(data.drop_first());
        lemma_stuffed_byte(b);
        assert(seq![b] + data.drop_first() =~= data);
        if b == FLAG || b == ESCAPE {
            assert(stuffed.drop_first().drop_first() =~= rest);
            assert(unescape(stuffed, false) == unescape(stuffed.drop_first(), true));
        } else {
            assert(stuffed.drop_first() =~= rest);
        }
    }
}

/// The stuffed form of bytes holds no flag.
pub proof fn law_escape_holds_no_flag(data: Seq<u8>)
    ensures
        !escape(data).contains(FLAG),
        data.len() <= escape(data).len() <= 2 * data.len(),
    decreases data.len(),
{
    if data.len() > 0 {
        let b = data.first();
        law_escape_holds_no_flag(data.drop_first());
        lemma_stuffed_byte(b);
        let head = escape_byte(b);
        let rest = escape(data.drop_first());
        assert forall|i: int| 0 <= i < escape(data).len() implies escape(data)[i] != FLAG by {
            if i >= head.len() {
                assert(escape(data)[i] == rest[i - head.len()]);
                assert(rest.contains(rest[i - head.len()]));
            }
        }
    }
}

/// Decoding the frame that carries a payload gives the payload back.
pub proof fn law_frame_round_trip(payload: Seq<u8>)
    ensures
        payload_of(frame_of(payload)) == Ok::<Seq<u8>, FrameError>(payload),
{
    let content = payload + fcs_bytes(fcs_of(payload));
    let frame = frame_of(payload);
    law_unescape_escape(content);
    law_escape_holds_no_flag(content);
    assert(frame.subrange(1, frame.len() - 1) =~= escape(content));
    assert(content.take(content.len() - 2) =~= payload);
    assert(content.skip(content.len() - 2) =~= fcs_bytes(fcs_of(payload)));
}

/// Different payloads travel in different frames.
pub proof fn law_frame_injective(a: Seq<u8>, b: Seq<u8>)
    requires
        frame_of(a) == frame_of(b),
    ensures
        a == b,
{
    law_frame_round_trip(a);
    law_frame_round_trip(b);
}

/// A frame whose check sequence is not that of its payload is refused.
pub proof fn law_wrong_check_is_refused(payload: Seq<u8>, check: Seq<u8>)
    requires
        check.len() == 2,
        check != fcs_bytes(fcs_of(payload)),
    ensures
        payload_of(seq![FLAG] + escape(payload + check) + seq![FLAG]) == Err::<
            Seq<u8>,
            FrameError,
        >(FrameError::FcsMismatch),
{
    let content = payload + check;
    let frame = seq![FLAG] + escape(content) + seq![FLAG];
    law_unescape_escape(content);
    law_escape_holds_no_flag(content);
    assert(frame.subrange(1, frame.len() - 1) =~= escape(content));
    assert(content.take(content.len() - 2) =~= payload);
    assert(content.skip(content.len() - 2) =~= check);
}

/// One bit of the division keeps different registers different.
proof fn lemma_fcs_bit_injective(a: u16, b: u16)
    requires
        fcs_bit(a) == fcs_bit(b),
    ensures
        a == b,
{
    assert((if a & 1 != 0 {
        (a >> 1) ^ 0x8408
    } else {
        a >> 1
    }) == (if b & 1 != 0 {
        (b >> 1) ^ 0x8408
    } else {
        b >> 1
    }) ==> a == b) by (bit_vector);
}

/// The division keeps different registers different.
proof fn lemma_fcs_bits_injective(a: u16, b: u16, n: nat)
    requires
        fcs_bits(a, n) == fcs_bits(b, n),
    ensures
        a == b,
    decreases n,
{
    if n > 0 {
        let m = (n - 1) as nat;
        lemma_fcs_bit_injective(fcs_bits(a, m), fcs_bits(b, m));
        lemma_fcs_bits_injective(a, b, m);
    }
}

/// Two payloads that differ in one byte leave different registers.
proof fn lemma_fcs_register_differs(payload: Seq<u8>, i: int, byte: u8)
    requires
        0 <= i < payload.len(),
        payload[i] != byte,
    ensures
        fcs_register(payload) != fcs_register(payload.update(i, byte)),
    decreases payload.len(),
{
    let other = payload.update(i, byte);
    let a = fcs_register(payload.drop_last());
    let b = fcs_register(other.drop_last());
    let x = payload.last() as u16;
    let y = other.last() as u16;
    if i == payload.len() - 1 {
        assert(payload.drop_last() =~= other.drop_last());
        assert(a ^ x == a ^ y ==> x == y) by (bit_vector);
    } else {
        assert(other.drop_last() =~= payload.drop_last().update(i, byte));
        lemma_fcs_register_differs(payload.drop_last(), i, byte);
        assert(a ^ x == b ^ x ==> a == b) by (bit_vector);
    }
    if fcs_register(payload) == fcs_register(other) {
        lemma_fcs_bits_injective(a ^ x, b ^ y, 8);
    }
}

/// A payload is refused with the check sequence of one that leaves another register.
proof fn lemma_other_register_is_refused(p: Seq<u8>, q: Seq<u8>)
    requires
        fcs_register(p) != fcs_register(q),
    ensures
        fcs_of(p) != fcs_of(q),
        payload_of(seq![FLAG] + escape(q + fcs_bytes(fcs_of(p))) + seq![FLAG]) == Err::<
            Seq<u8>,
            FrameError,
        >(FrameError::FcsMismatch),
{
    let a = fcs_register(p);
    let b = fcs_register(q);
    assert(!a == !b ==> a == b) by (bit_vector);
    let f = fcs_of(p);
    let g = fcs_of(q);
    if fcs_bytes(f) == fcs_bytes(g) {
        assert(fcs_bytes(f)[0] == (f % 256) as u8 && fcs_bytes(f)[1] == (f / 256) as u8);
        assert(fcs_bytes(g)[0] == (g % 256) as u8 && fcs_bytes(g)[1] == (g / 256) as u8);
        assert(f == g);
    }
    law_wrong_check_is_refused(q, fcs_bytes(f));
}

/// A frame in which one payload byte was changed, and nothing else, is refused.
pub proof fn law_changed_byte_is_refused(payload: Seq<u8>, i: int, byte: u8)
    requires
        0 <= i < payload.len(),
        payload[i] != byte,
    ensures
        fcs_of(payload) != fcs_of(payload.update(i, byte)),
        payload_of(
            seq![FLAG] + escape(payload.update(i, byte) + fcs_bytes(fcs_of(payload))) + seq![FLAG],
        ) == Err::<Seq<u8>, FrameError>(FrameError::FcsMismatch),
{
    lemma_fcs_register_differs(payload, i, byte);
    lemma_other_register_is_refused(payload, payload.update(i, byte));
}

/// A bit that the division does not reach yet can be added before one bit of it or, one place
/// lower, behind it.
proof fn lemma_fcs_bit_adds(fcs: u16, x: u16)
    requires
        x < 0x8000,
    ensures
        fcs_bit(fcs ^ (x << 1)) == fcs_bit(fcs) ^ x,
{
    assert((if (fcs ^ (x << 1)) & 1 != 0 {
        ((fcs ^ (x << 1)) >> 1) ^ 0x8408
    } else {
        (fcs ^ (x << 1)) >> 1
    }) == (if fcs & 1 != 0 {
        (fcs >> 1) ^ 0x8408
    } else {
        fcs >> 1
    }) ^ x) by (bit_vector)
        requires
            x < 0x8000,
    ;
}

/// The next byte can be added to the upper half of the register before a byte of the division, in
/// place of the lower half behind it.
proof fn lemma_fcs_byte_adds(fcs: u16, byte: u8)
    ensures
        fcs_bits(fcs ^ ((byte as u16) << 8), 8) == fcs_bits(fcs, 8) ^ (byte as u16),
{
    let x = byte as u16;
    assert({
        &&& x << 8 == (x << 7) << 1
        &&& x << 7 == (x << 6) << 1
        &&& x << 6 == (x << 5) << 1
        &&& x << 5 == (x << 4) << 1
        &&& x << 4 == (x << 3) << 1
        &&& x << 3 == (x << 2) << 1
        &&& x << 2 == (x << 1) << 1
        &&& x << 7 < 0x8000
        &&& x << 6 < 0x8000
        &&& x << 5 < 0x8000
        &&& x << 4 < 0x8000
        &&& x << 3 < 0x8000
        &&& x << 2 < 0x8000
        &&& x << 1 < 0x8000
    }) by (bit_vector)
        requires
            x < 0x100,
    ;
    reveal_with_fuel(fcs_bits, 9);
    lemma_fcs_bit_adds(fcs_bits(fcs, 0), x << 7);
    lemma_fcs_bit_adds(fcs_bits(fcs, 1), x << 6);
    lemma_fcs_bit_adds(fcs_bits(fcs, 2), x << 5);
    lemma_fcs_bit_adds(fcs_bits(fcs, 3), x << 4);
    lemma_fcs_bit_adds(fcs_bits(fcs, 4), x << 3);
    lemma_fcs_bit_adds(fcs_bits(fcs, 5), x << 2);
    lemma_fcs_bit_adds(fcs_bits(fcs, 6), x << 1);
    lemma_fcs_bit_adds(fcs_bits(fcs, 7), x);
}

/// Two different pairs of bytes take the same register to different registers.
proof fn lemma_fcs_pair_injective(fcs: u16, a: u8, b: u8, c: u8, d: u8)
    requires
        fcs_bits(fcs_bits(fcs ^ (a as u16), 8) ^ (b as u16), 8) == fcs_bits(
            fcs_bits(fcs ^ (c as u16), 8) ^ (d as u16),
            8,
        ),
    ensures
        a == c,
        b == d,
{
    let x = fcs ^ (a as u16);
    let y = fcs ^ (c as u16);
    lemma_fcs_byte_adds(x, b);
    lemma_fcs_byte_adds(y, d);
    lemma_fcs_bits_injective(fcs_bits(x, 8) ^ (b as u16), fcs_bits(y, 8) ^ (d as u16), 8);
    lemma_fcs_bits_injective(x ^ ((b as u16) << 8), y ^ ((d as u16) << 8), 8);
    assert((fcs ^ (a as u16)) ^ ((b as u16) << 8) == (fcs ^ (c as u16)) ^ ((d as u16) << 8) ==> a
        == c && b == d) by (bit_vector);
}

/// Two payloads that differ within two adjacent bytes, and nowhere else, leave different
/// registers.
proof fn lemma_fcs_register_differs_in_two(p: Seq<u8>, q: Seq<u8>, i: int)
    requires
        p.len() == q.len(),
        p != q,
        0 <= i < p.len() - 1,
        forall|j: int| 0 <= j < p.len() && j != i && j != i + 1 ==> p[j] == q[j],
    ensures
        fcs_register(p) != fcs_register(q),
    decreases p.len(),
{
    let n = p.len() as int;
    let a = fcs_register(p.drop_last());
    let b = fcs_register(q.drop_last());
    if i + 1 == n - 1 {
        assert(p.drop_last().drop_last() =~= q.drop_last().drop_last());
        let start = fcs_register(p.drop_last().drop_last());
        assert(a == fcs_bits(start ^ (p[i] as u16), 8));
        assert(b == fcs_bits(start ^ (q[i] as u16), 8));
        if fcs_register(p) == fcs_register(q) {
            lemma_fcs_pair_injective(start, p[i], p[i + 1], q[i], q[i + 1]);
            assert(p =~= q);
        }
    } else {
        let x = p.last() as u16;
        assert(p[n - 1] == q[n - 1]);
        if p.drop_last() == q.drop_last() {
            assert(p =~= p.drop_last().push(p[n - 1]));
            assert(q =~= q.drop_last().push(q[n - 1]));
        }
        lemma_fcs_register_differs_in_two(p.drop_last(), q.drop_last(), i);
        assert(a ^ x == b ^ x ==> a == b) by (bit_vector);
        if fcs_register(p) == fcs_register(q) {
            lemma_fcs_bits_injective(a ^ x, b ^ x, 8);
        }
    }
}

/// Two payloads of the same length that differ within two adjacent bytes, and nowhere else, have
/// different frame check sequences. So a frame in which a payload was changed to such another one
/// is refused.
pub proof fn law_changed_adjacent_bytes_are_refused(p: Seq<u8>, q: Seq<u8>, i: int)
    requires
        p.len() == q.len(),
        p != q,
        0 <= i < p.len() - 1,
        forall|j: int| 0 <= j < p.len() && j != i && j != i + 1 ==> p[j] == q[j],
    ensures
        fcs_of(p) != fcs_of(q),
        payload_of(seq![FLAG] + escape(q + fcs_bytes(fcs_of(p))) + seq![FLAG]) == Err::<
            Seq<u8>,
            FrameError,
        >(FrameError::FcsMismatch),
{
    lemma_fcs_register_differs_in_two(p, q, i);
    lemma_other_register_is_refused(p, q);
}

/// The register is one fold of the same step over all bytes: it starts as `0xffff`, and each byte,
/// wherever it stands, is added to the lower half before eight bits of the division.
pub proof fn law_register_is_a_fold(data: Seq<u8>, byte: u8)
    ensures
        fcs_register(Seq::empty()) == 0xffff,
        fcs_register(data.push(byte)) == fcs_bits(fcs_register(data) ^ (byte as u16), 8),
{
    assert(data.push(byte).drop_last() =~= data);
}

/// One bit of the division shifts the register right and, where a one falls out, adds the
/// polynomial of the 16-bit CCITT check, with its terms of degree 0, 5 and 12 in the places that
/// bit reversal gives them. More bits are that step again and again.
pub proof fn law_division_step(fcs: u16, n: nat)
    ensures
        fcs_bits(fcs, 0) == fcs,
        fcs_bits(fcs, n + 1) == fcs_bit(fcs_bits(fcs, n)),
        fcs % 2 == 0 ==> fcs_bit(fcs) == fcs / 2,
        fcs % 2 == 1 ==> fcs_bit(fcs) == (fcs / 2) ^ 0x8408,
{
    assert(fcs & 1 == fcs % 2 && fcs >> 1 == fcs / 2) by (bit_vector);
}

/// The division is linear.
pub proof fn law_division_is_linear(a: u16, b: u16, n: nat)
    ensures
        fcs_bits(a ^ b, n) == fcs_bits(a, n) ^ fcs_bits(b, n),
    decreases n,
{
    if n > 0 {
        let m = (n - 1) as nat;
        law_division_is_linear(a, b, m);
        let x = fcs_bits(a, m);
        let y = fcs_bits(b, m);
        assert((if (x ^ y) & 1 != 0 {
            ((x ^ y) >> 1) ^ 0x8408
        } else {
            (x ^ y) >> 1
        }) == (if x & 1 != 0 {
            (x >> 1) ^ 0x8408
        } else {
            x >> 1
        }) ^ (if y & 1 != 0 {
            (y >> 1) ^ 0x8408
        } else {
            y >> 1
        })) by (bit_vector);
    }
}

/// The sum of three registers is the register of the sum of three equally long payloads.
pub proof fn law_register_of_sum(a: Seq<u8>, b: Seq<u8>, c: Seq<u8>, sum: Seq<u8>)
    requires
        a.len() == b.len() == c.len() == sum.len(),
        forall|i: int| 0 <= i < sum.len() ==> #[trigger] sum[i] == a[i] ^ b[i] ^ c[i],
    ensures
        fcs_register(sum) == fcs_register(a) ^ fcs_register(b) ^ fcs_register(c),
    decreases sum.len(),
{
    if sum.len() == 0 {
        assert(0xffffu16 == 0xffffu16 ^ 0xffffu16 ^ 0xffffu16) by (bit_vector);
    } else {
        let x = fcs_register(a.drop_last());
        let y = fcs_register(b.drop_last());
        let z = fcs_register(c.drop_last());
        let p = a.last();
        let q = b.last();
        let r = c.last();
        assert forall|i: int| 0 <= i < sum.drop_last().len() implies #[trigger] sum.drop_last()[i]
            == a.drop_last()[i] ^ b.drop_last()[i] ^ c.drop_last()[i] by {
            assert(sum.drop_last()[i] == sum[i]);
        }
        law_register_of_sum(a.drop_last(), b.drop_last(), c.drop_last(), sum.drop_last());
        assert(sum.last() == sum[sum.len() - 1]);
        let u = x ^ (p as u16);
        let v = y ^ (q as u16);
        let w = z ^ (r as u16);
        assert((x ^ y ^ z) ^ ((p ^ q ^ r) as u16) == (x ^ (p as u16)) ^ (y ^ (q as u16)) ^ (z ^ (
        r as u16))) by (bit_vector);
        law_division_is_linear(u ^ v, w, 8);
        law_division_is_linear(u, v, 8);
    }
}

/// A register and its own complement, low byte first, leave the constant `0xf0b8`.
proof fn lemma_residue(fcs: u16)
    ensures
        ({
            let check = !fcs;
            fcs_bits(
                fcs_bits(fcs ^ (((check % 256) as u8) as u16), 8) ^ (((check / 256) as u8) as u16),
                8,
            )
        }) == 0xf0b8,
{
    let check = !fcs;
    let low = (check % 256) as u8;
    let high = (check / 256) as u8;
    lemma_fcs_byte_adds(fcs ^ (low as u16), high);
    assert((fcs ^ (((!fcs % 256) as u8) as u16)) ^ ((((!fcs / 256) as u8) as u16) << 8) == 0xffff)
        by (bit_vector);
    assert({
        &&& 0xffffu16 & 1 != 0 && (0xffffu16 >> 1) ^ 0x8408 == 0xfbf7
        &&& 0xfbf7u16 & 1 != 0 && (0xfbf7u16 >> 1) ^ 0x8408 == 0xf9f3
        &&& 0xf9f3u16 & 1 != 0 && (0xf9f3u16 >> 1) ^ 0x8408 == 0xf8f1
        &&& 0xf8f1u16 & 1 != 0 && (0xf8f1u16 >> 1) ^ 0x8408 == 0xf870
        &&& 0xf870u16 & 1 == 0 && 0xf870u16 >> 1 == 0x7c38
        &&& 0x7c38u16 & 1 == 0 && 0x7c38u16 >> 1 == 0x3e1c
        &&& 0x3e1cu16 & 1 == 0 && 0x3e1cu16 >> 1 == 0x1f0e
        &&& 0x1f0eu16 & 1 == 0 && 0x1f0eu16 >> 1 == 0x0f87
        &&& 0x0f87u16 & 1 != 0 && (0x0f87u16 >> 1) ^ 0x8408 == 0x83cb
        &&& 0x83cbu16 & 1 != 0 && (0x83cbu16 >> 1) ^ 0x8408 == 0xc5ed
        &&& 0xc5edu16 & 1 != 0 && (0xc5edu16 >> 1) ^ 0x8408 == 0xe6fe
        &&& 0xe6feu16 & 1 == 0 && 0xe6feu16 >> 1 == 0x737f
        &&& 0x737fu16 & 1 != 0 && (0x737fu16 >> 1) ^ 0x8408 == 0xbdb7
        &&& 0xbdb7u16 & 1 != 0 && (0xbdb7u16 >> 1) ^ 0x8408 == 0xdad3
        &&& 0xdad3u16 & 1 != 0 && (0xdad3u16 >> 1) ^ 0x8408 == 0xe961
        &&& 0xe961u16 & 1 != 0 && (0xe961u16 >> 1) ^ 0x8408 == 0xf0b8
    }) by (bit_vector);
    reveal_with_fuel(fcs_bits, 9);
    assert(fcs_bits(0xffff, 8) == 0x0f87);
    assert(fcs_bits(0x0f87, 8) == 0xf0b8);
}

/// Any payload followed by its own two check bytes leaves the constant register `0xf0b8`.
pub proof fn law_register_residue(payload: Seq<u8>)
    ensures
        fcs_register(payload + fcs_bytes(fcs_of(payload))) == 0xf0b8,
{
    let check = fcs_of(payload);
    let low = (check % 256) as u8;
    let high = (check / 256) as u8;
    law_register_is_a_fold(payload, low);
    law_register_is_a_fold(payload.push(low), high);
    assert(payload + fcs_bytes(check) =~= payload.push(low).push(high));
    lemma_residue(fcs_register(payload));
}

/// The content of a frame is accepted exactly where it is at least two bytes long and leaves the
/// constant register `0xf0b8`; the payload is all of it but the last two bytes.
pub proof fn law_content_is_accepted_by_residue(content: Seq<u8>)
    ensures
        content.len() < 2 ==> checked_payload(content) == Err::<Seq<u8>, FrameError>(
            FrameError::MissingFcs,
        ),
        content.len() >= 2 && fcs_register(content) == 0xf0b8 ==> checked_payload(content) == Ok::<
            Seq<u8>,
            FrameError,
        >(content.subrange(0, content.len() - 2)),
        content.len() >= 2 && fcs_register(content) != 0xf0b8 ==> checked_payload(content) == Err::<
            Seq<u8>,
            FrameError,
        >(FrameError::FcsMismatch),
{
    if content.len() >= 2 {
        let n = content.len() as int;
        let payload = content.take(n - 2);
        let check = fcs_bytes(fcs_of(payload));
        let found = content.skip(n - 2);
        assert(payload =~= content.subrange(0, n - 2));
        assert(content =~= payload + found);
        law_register_residue(payload);
        if fcs_register(content) == 0xf0b8 {
            law_register_is_a_fold(payload, found[0]);
            law_register_is_a_fold(payload.push(found[0]), found[1]);
            law_register_is_a_fold(payload, check[0]);
            law_register_is_a_fold(payload.push(check[0]), check[1]);
            assert(payload + found =~= payload.push(found[0]).push(found[1]));
            assert(payload + check =~= payload.push(check[0]).push(check[1]));
            lemma_fcs_pair_injective(
                fcs_register(payload),
                found[0],
                found[1],
                check[0],
                check[1],
            );
            assert(found =~= check);
        }
    }
}

/// Stuffing goes byte by byte: `0x7e` becomes `0x7d 0x5e`, `0x7d` becomes `0x7d 0x5d`, and every
/// other byte stays what it is.
pub proof fn law_stuffing(data: Seq<u8>, byte: u8)
    ensures
        escape(Seq::empty()) == Seq::<u8>::empty(),
        escape(data.push(byte)) == escape(data) + (if byte == 0x7e {
            seq![0x7du8, 0x5e]
        } else if byte == 0x7d {
            seq![0x7du8, 0x5d]
        } else {
            seq![byte]
        }),
{
    assert(data.push(byte) =~= data + seq![byte]);
    lemma_escape_concat(data, seq![byte]);
    assert(0x7eu8 ^ 0x20 == 0x5e && 0x7du8 ^ 0x20 == 0x5d) by (bit_vector);
    let one = seq![byte];
    assert(one.first() == byte);
    assert(escape(one.drop_first()) =~= Seq::empty());
    assert(escape(one) =~= escape_byte(byte) + escape(one.drop_first()));
    assert(escape(one) =~= escape_byte(byte));
}

/// A frame is a flag, the stuffed payload and check sequence, and a flag; the check sequence is
/// the complement of the register, low byte first.
pub proof fn law_frame_layout(payload: Seq<u8>)
    ensures
        fcs_of(payload) == 0xffff - fcs_register(payload),
        frame_of(payload) == seq![0x7eu8] + escape(
            payload.push((fcs_of(payload) % 256) as u8).push((fcs_of(payload) / 256) as u8),
        ) + seq![0x7eu8],
{
    let r = fcs_register(payload);
    assert(!r == 0xffff - r) by (bit_vector);
    assert(payload + fcs_bytes(fcs_of(payload)) =~= payload.push(
        (fcs_of(payload) % 256) as u8,
    ).push((fcs_of(payload) / 256) as u8));
}

/// A reader that is in a frame takes bytes that hold no flag into it.
proof fn lemma_read_inside(open: Seq<u8>, inside: Seq<u8>, rest: Seq<u8>)
    requires
        !inside.contains(FLAG),
    ensures
        frames_in(Some(open), inside + rest) == frames_in(Some(open + inside), rest),
        open_after(Some(open), inside + rest) == open_after(Some(open + inside), rest),
    decreases inside.len(),
{
    if inside.len() == 0 {
        assert(inside + rest =~= rest);
        assert(open + inside =~= open);
    } else {
        let b = inside.first();
        assert(inside.contains(b));
        assert((inside + rest).drop_first() =~= inside.drop_first() + rest);
        assert forall|i: int| 0 <= i < inside.drop_first().len() implies inside.drop_first()[i]
            != FLAG by {
            assert(inside.contains(inside[i + 1]));
        }
        lemma_read_inside(open.push(b), inside.drop_first(), rest);
        assert(open.push(b) + inside.drop_first() =~= open + inside);
    }
}

/// A reader that is in no frame skips bytes that hold no flag.
proof fn lemma_read_outside(noise: Seq<u8>, rest: Seq<u8>)
    requires
        !noise.contains(FLAG),
    ensures
        frames_in(None, noise + rest) == frames_in(None, rest),
        open_after(None, noise + rest) == open_after(None, rest),
    decreases noise.len(),
{
    if noise.len() == 0 {
        assert(noise + rest =~= rest);
    } else {
        assert(noise.contains(noise.first()));
        assert((noise + rest).drop_first() =~= noise.drop_first() + rest);
        assert forall|i: int| 0 <= i < noise.drop_first().len() implies noise.drop_first()[i]
            != FLAG by {
            assert(noise.contains(noise[i + 1]));
        }
        lemma_read_outside(noise.drop_first(), rest);
    }
}

/// A reader finds an encoded frame in a stream, whatever bytes other than flags come before it,
/// and goes on behind it as if newly made.
pub proof fn law_reader_finds_frames(noise: Seq<u8>, payload: Seq<u8>, rest: Seq<u8>)
    requires
        !noise.contains(FLAG),
    ensures
        frames_in(None, noise + frame_of(payload) + rest) == seq![frame_of(payload)] + frames_in(
            None,
            rest,
        ),
{
    let inside = escape(payload + fcs_bytes(fcs_of(payload)));
    let frame = frame_of(payload);
    law_escape_holds_no_flag(payload + fcs_bytes(fcs_of(payload)));
    assert(noise + frame + rest =~= noise + (frame + rest));
    lemma_read_outside(noise, frame + rest);
    let tail = inside + (seq![FLAG] + rest);
    assert((frame + rest).drop_first() =~= tail);
    assert(frames_in(None, frame + rest) == frames_in(Some(seq![FLAG]), tail));
    lemma_read_inside(seq![FLAG], inside, seq![FLAG] + rest);
    assert((seq![FLAG] + rest).drop_first() =~= rest);
    assert((seq![FLAG] + inside).push(FLAG) =~= frame);
}

/// A frame is what stands between an opening and a closing `0x7e`, both of them its own, whatever
/// is inside. Bytes outside frames are skipped, a frame that is not closed yet is found nowhere,
/// and behind a closed one the reader starts afresh.
pub proof fn law_flags_bound_a_frame(noise: Seq<u8>, inside: Seq<u8>, rest: Seq<u8>)
    requires
        !noise.contains(0x7e),
        !inside.contains(0x7e),
    ensures
        frames_in(None, noise) == Seq::<Seq<u8>>::empty(),
        open_after(None, noise) == None::<Seq<u8>>,
        frames_in(None, noise + (seq![0x7eu8] + inside)) == Seq::<Seq<u8>>::empty(),
        open_after(None, noise + (seq![0x7eu8] + inside)) == Some(seq![0x7eu8] + inside),
        frames_in(None, noise + (seq![0x7eu8] + inside + seq![0x7eu8]) + rest) == seq![
            seq![0x7eu8] + inside + seq![0x7eu8],
        ] + frames_in(None, rest),
        open_after(None, noise + (seq![0x7eu8] + inside + seq![0x7eu8]) + rest) == open_after(
            None,
            rest,
        ),
{
    let none = Seq::<u8>::empty();
    let flag = seq![FLAG];
    lemma_read_outside(noise, none);
    assert(noise + none =~= noise);
    let cut = flag + inside;
    lemma_read_outside(noise, cut);
    assert(cut.drop_first() =~= inside + none);
    lemma_read_inside(flag, inside, none);
    assert(frames_in(None, cut) == frames_in(Some(flag), cut.drop_first()));
    assert(open_after(None, cut) == open_after(Some(flag), cut.drop_first()));
    let frame = flag + inside + flag;
    let tail = frame + rest;
    assert(noise + frame + rest =~= noise + tail);
    lemma_read_outside(noise, tail);
    assert(tail.drop_first() =~= inside + (flag + rest));
    lemma_read_inside(flag, inside, flag + rest);
    assert((flag + rest).drop_first() =~= rest);
    assert((flag + inside).push(FLAG) =~= frame);
    assert(frames_in(None, tail) == frames_in(Some(flag), tail.drop_first()));
    assert(open_after(None, tail) == open_after(Some(flag), tail.drop_first()));
}

/// What follows a good beginning is read by itself, and found behind it.
proof fn lemma_unescape_behind(data: Seq<u8>, rest: Seq<u8>)
    ensures
        unescape(escape(data) + rest, false) == prefixed(data, unescape(rest, false)),
    decreases data.len(),
{
    if data.len() == 0 {
        assert(escape(data) + rest =~= rest);
        match unescape(rest, false) {
            Ok(tail) => {
                assert(data + tail =~= tail);
            },
            Err(_) => {},
        }
    } else {
        let b = data.first();
        let more = escape(data.drop_first()) + rest;
        let all = escape(data) + rest;
        lemma_unescape_behind(data.drop_first(), rest);
        lemma_stuffed_byte(b);
        if b == FLAG || b == ESCAPE {
            assert(all.drop_first().drop_first() =~= more);
            assert(unescape(all, false) == unescape(all.drop_first(), true));
        } else {
            assert(all.drop_first() =~= more);
        }
        match unescape(rest, false) {
            Ok(tail) => {
                assert(seq![b] + (data.drop_first() + tail) =~= data + tail);
            },
            Err(_) => {},
        }
    }
}

/// Which bytes are no frame, and why: too few, no flag at an end, a flag inside, an escape byte
/// with nothing to escape, or no room for a check sequence.
pub proof fn law_broken_frames(frame: Seq<u8>, data: Seq<u8>, rest: Seq<u8>)
    ensures
        frame.len() < 4 ==> payload_of(frame) == Err::<Seq<u8>, FrameError>(FrameError::TooShort),
        frame.len() >= 4 && frame[0] != 0x7e ==> payload_of(frame) == Err::<Seq<u8>, FrameError>(
            FrameError::MissingOpeningFlag,
        ),
        frame.len() >= 4 && frame[0] == 0x7e && frame[frame.len() - 1] != 0x7e ==> payload_of(frame)
            == Err::<Seq<u8>, FrameError>(FrameError::MissingClosingFlag),
        data.len() + rest.len() > 0 ==> payload_of(
            seq![0x7eu8] + (escape(data) + (seq![0x7eu8] + rest)) + seq![0x7eu8],
        ) == Err::<Seq<u8>, FrameError>(FrameError::UnexpectedFlag),
        data.len() > 0 ==> payload_of(
            seq![0x7eu8] + (escape(data) + seq![0x7du8]) + seq![0x7eu8],
        ) == Err::<Seq<u8>, FrameError>(FrameError::DanglingEscape),
        data.len() == 1 && (data[0] == 0x7e || data[0] == 0x7d) ==> payload_of(
            seq![0x7eu8] + escape(data) + seq![0x7eu8],
        ) == Err::<Seq<u8>, FrameError>(FrameError::MissingFcs),
{
    law_escape_holds_no_flag(data);
    let flagged = seq![0x7eu8] + rest;
    let first = seq![0x7eu8] + (escape(data) + flagged) + seq![0x7eu8];
    lemma_unescape_behind(data, flagged);
    assert(first.subrange(1, first.len() - 1) =~= escape(data) + flagged);
    let dangling = seq![0x7du8];
    let second = seq![0x7eu8] + (escape(data) + dangling) + seq![0x7eu8];
    lemma_unescape_behind(data, dangling);
    assert(dangling.drop_first() =~= Seq::empty());
    assert(unescape(dangling, false) == unescape(dangling.drop_first(), true));
    assert(second.subrange(1, second.len() - 1) =~= escape(data) + dangling);
    let third = seq![0x7eu8] + escape(data) + seq![0x7eu8];
    law_unescape_escape(data);
    assert(third.subrange(1, third.len() - 1) =~= escape(data));
    if data.len() == 1 {
        law_stuffing(Seq::empty(), data[0]);
        assert(Seq::empty().push(data[0]) =~= data);
    }
}

/// What stands between two flags is unstuffed, and is accepted exactly where it has room for a
/// check sequence and leaves the constant register `0xf0b8`.
pub proof fn law_frame_is_accepted_by_residue(inside: Seq<u8>)
    requires
        inside.len() >= 2,
    ensures
        ({
            let frame = seq![0x7eu8] + inside + seq![0x7eu8];
            match unescape(inside, false) {
                Err(e) => payload_of(frame) == Err::<Seq<u8>, FrameError>(e),
                Ok(content) => {
                    &&& content.len() < 2 ==> payload_of(frame) == Err::<Seq<u8>, FrameError>(
                        FrameError::MissingFcs,
                    )
                    &&& content.len() >= 2 && fcs_register(content) != 0xf0b8 ==> payload_of(frame)
                        == Err::<Seq<u8>, FrameError>(FrameError::FcsMismatch)
                    &&& content.len() >= 2 && fcs_register(content) == 0xf0b8 ==> payload_of(frame)
                        == Ok::<Seq<u8>, FrameError>(content.subrange(0, content.len() - 2))
                },
            }
        }),
{
    let frame = seq![0x7eu8] + inside + seq![0x7eu8];
    assert(frame.subrange(1, frame.len() - 1) =~= inside);
    if let Ok(content) = unescape(inside, false) {
        law_content_is_accepted_by_residue(content);
    }
}

/// Unstuffing goes byte by byte: an escape byte makes any byte behind it stand for that byte with
/// its bit of value 32 changed, a flag is refused, and every other byte stands for itself.
pub proof fn law_unstuffing(byte: u8, rest: Seq<u8>)
    ensures
        unescape(seq![0x7du8, byte] + rest, false) == prefixed(
            seq![byte ^ 0x20],
            unescape(rest, false),
        ),
        byte != 0x7d && byte != 0x7e ==> unescape(seq![byte] + rest, false) == prefixed(
            seq![byte],
            unescape(rest, false),
        ),
        unescape(seq![0x7eu8] + rest, false) == Err::<Seq<u8>, FrameError>(
            FrameError::UnexpectedFlag,
        ),
        unescape(seq![0x7du8], false) == Err::<Seq<u8>, FrameError>(FrameError::DanglingEscape),
        unescape(Seq::empty(), false) == Ok::<Seq<u8>, FrameError>(Seq::empty()),
{
    let dangling = seq![0x7du8];
    assert(dangling.drop_first() =~= Seq::empty());
    assert(unescape(dangling, false) == unescape(dangling.drop_first(), true));
    let all = seq![0x7du8, byte] + rest;
    assert(all.drop_first().drop_first() =~= rest);
    assert(unescape(all, false) == unescape(all.drop_first(), true));
    assert(all.drop_first().first() == byte);
    assert((seq![byte] + rest).drop_first() =~= rest);
}

/// A reader finds the same frames, and ends up in the same frame, however a stream is cut in two.
pub proof fn law_stream_can_be_read_in_pieces(
    open: Option<Seq<u8>>,
    first: Seq<u8>,
    second: Seq<u8>,
)
    ensures
        frames_in(open, first + second) == frames_in(open, first) + frames_in(
            open_after(open, first),
            second,
        ),
        open_after(open, first + second) == open_after(open_after(open, first), second),
    decreases first.len(),
{
    if first.len() == 0 {
        assert(first + second =~= second);
        assert(frames_in(open, first) + frames_in(open, second) =~= frames_in(open, second));
    } else {
        let step = read_byte(open, first.first());
        assert((first + second).drop_first() =~= first.drop_first() + second);
        law_stream_can_be_read_in_pieces(step.0, first.drop_first(), second);
        assert(frames_in(open, first + second) =~= frames_in(open, first) + frames_in(
            open_after(open, first),
            second,
        ));
    }
}

/// Update the CRC register with one byte.
fn update_fcs(fcs: u16, byte: u8) -> (out: u16)
    ensures
        out == fcs_bits(fcs ^ (byte as u16), 8),
{
    let start: u16 = fcs ^ (byte as u16);
    let mut out: u16 = start;
    let mut i: usize = 0;
    while i < 8
        invariant
            i <= 8,
            out == fcs_bits(start, i as nat),
        decreases 8 - i,
    {
        if out & 1 != 0 {
            out = (out >> 1) ^ FCS_POLY;
        } else {
            out = out >> 1;
        }
        i = i + 1;
    }
    out
}

/// Compute the frame check sequence of a payload.
pub fn frame_fcs(payload: &[u8]) -> (out: u16)
    ensures
        out == fcs_of(payload@),
{
    let mut fcs: u16 = INITIAL_FCS;
    let mut i: usize = 0;
    assert(payload@.take(0) =~= Seq::empty());
    while i < payload.len()
        invariant
            i <= payload@.len(),
            fcs == fcs_register(payload@.take(i as int)),
        decreases payload@.len() - i,
    {
        assert(payload@.take(i + 1).drop_last() =~= payload@.take(i as int));
        fcs = update_fcs(fcs, payload[i]);
        i = i + 1;
    }
    assert(payload@.take(i as int) =~= payload@);
    !fcs
}

/// Append the stuffed form of `data` to `out`.
fn escape_into(data: &[u8], out: &mut Vec<u8>)
    ensures
        final(out)@ == old(out)@ + escape(data@),
{
    let ghost before = out@;
    let mut i: usize = 0;
    assert(data@.skip(0) =~= data@);
    while i < data.len()
        invariant
            i <= data@.len(),
            before + escape(data@) == out@ + escape(data@.skip(i as int)),
        decreases data@.len() - i,
    {
        let ghost so_far = out@;
        let ghost rest = data@.skip(i as int);
        let b: u8 = data[i];
        if b == FLAG || b == ESCAPE {
            out.push(ESCAPE);
            out.push(b ^ ESCAPE_XOR);
        } else {
            out.push(b);
        }
        i = i + 1;
        assert(rest.drop_first() =~= data@.skip(i as int));
        assert(so_far + escape(rest) =~= out@ + escape(data@.skip(i as int)));
    }
    assert(data@.skip(i as int) =~= Seq::empty());
    assert(out@ + escape(data@.skip(i as int)) =~= out@);
}

/// Encode a payload into a frame with byte stuffing and a CRC-16 frame check sequence.
pub fn encode(payload: &[u8]) -> (framed: Vec<u8>)
    ensures
        framed@ == frame_of(payload@),
{
    let fcs = frame_fcs(payload);
    let mut framed: Vec<u8> = Vec::new();
    framed.push(FLAG);
    escape_into(payload, &mut framed);
    let check: [u8; 2] = [(fcs % 256) as u8, (fcs / 256) as u8];
    escape_into(check.as_slice(), &mut framed);
    framed.push(FLAG);
    proof {
        assert(check@ =~= fcs_bytes(fcs));
        lemma_escape_concat(payload@, check@);
        assert(framed@ =~= frame_of(payload@));
    }
    framed
}

/// Decode a frame, removing the byte stuffing and validating the frame check sequence.
pub fn decode(frame: &[u8]) -> (r: Result<Vec<u8>, FrameError>)
    ensures
        match r {
            Ok(payload) => payload_of(frame@) == Ok::<Seq<u8>, FrameError>(payload@),
            Err(e) => payload_of(frame@) == Err::<Seq<u8>, FrameError>(e),
        },
{
    if frame.len() < 4 {
        return Err(FrameError::TooShort);
    }
    if frame[0] != FLAG {
        return Err(FrameError::MissingOpeningFlag);
    }
    if frame[frame.len() - 1] != FLAG {
        return Err(FrameError::MissingClosingFlag);
    }
    let inner = slice_subrange(frame, 1, frame.len() - 1);
    let ghost whole = unescape(inner@, false);
    let mut content: Vec<u8> = Vec::new();
    let mut escaped: bool = false;
    let mut i: usize = 0;
    assert(inner@.skip(0) =~= inner@);
    proof {
        if whole is Ok {
            assert(content@ + whole->Ok_0 =~= whole->Ok_0);
        }
    }
    while i < inner.len()
        invariant
            i <= inner@.len(),
            frame@.len() >= 4,
            frame@.first() == FLAG,
            frame@.last() == FLAG,
            inner@ == frame@.subrange(1, frame@.len() - 1),
            whole == unescape(inner@, false),
            whole == prefixed(content@, unescape(inner@.skip(i as int), escaped)),
        decreases inner@.len() - i,
    {
        let ghost before = content@;
        let ghost rest = inner@.skip(i as int);
        let b: u8 = inner[i];
        assert(rest.drop_first() =~= inner@.skip(i + 1));
        if escaped {
            content.push(b ^ ESCAPE_XOR);
            escaped = false;
            proof {
                if let Ok(tail) = unescape(inner@.skip(i + 1), false) {
                    assert(before + (seq![b ^ ESCAPE_XOR] + tail) =~= content@ + tail);
                }
            }
        } else if b == ESCAPE {
            escaped = true;
        } else if b == FLAG {
            return Err(FrameError::UnexpectedFlag);
        } else {
            content.push(b);
            proof {
                if let Ok(tail) = unescape(inner@.skip(i + 1), false) {
                    assert(before + (seq![b] + tail) =~= content@ + tail);
                }
            }
        }
        i = i + 1;
    }
    assert(inner@.skip(i as int) =~= Seq::empty());
    if escaped {
        return Err(FrameError::DanglingEscape);
    }
    assert(content@ + Seq::<u8>::empty() =~= content@);
    if content.len() < 2 {
        return Err(FrameError::MissingFcs);
    }
    let payload_len: usize = content.len() - 2;
    let payload = slice_subrange(content.as_slice(), 0, payload_len);
    let fcs = frame_fcs(payload);
    assert(payload@ =~= content@.take(payload_len as int));
    proof {
        let check = content@.skip(payload_len as int);
        assert(check.len() == 2);
        if check == fcs_bytes(fcs) {
            assert(check[0] == (fcs % 256) as u8);
            assert(check[1] == (fcs / 256) as u8);
        } else if content@[payload_len as int] == (fcs % 256) as u8 && content@[payload_len + 1]
            == (fcs / 256) as u8 {
            assert(check =~= fcs_bytes(fcs));
        }
    }
    if content[payload_len] != (fcs % 256) as u8 || content[payload_len + 1] != (fcs / 256) as u8 {
        return Err(FrameError::FcsMismatch);
    }
    Ok(slice_to_vec(payload))
}

/// Finds frames in a stream of bytes, one byte at a time.
pub struct FrameReader {
    frame: Vec<u8>,
    in_frame: bool,
}

impl View for FrameReader {
    type V = Option<Seq<u8>>;

    /// The bytes of the frame that the reader is in, if it is in one.
    closed spec fn view(&self) -> Option<Seq<u8>> {
        if self.in_frame {
            Some(self.frame@)
        } else {
            None
        }
    }
}

impl FrameReader {
    /// Create a reader that waits for an opening flag.
    pub fn new() -> (reader: Self)
        ensures
            reader@ is None,
    {
        FrameReader { frame: Vec::new(), in_frame: false }
    }

    /// Whether a frame has been opened and not yet closed.
    pub fn is_in_frame(&self) -> (r: bool)
        ensures
            r == (self@ is Some),
    {
        self.in_frame
    }

    /// Take in one byte, and hand out the frame that it completes.
    pub fn push(&mut self, byte: u8) -> (r: Option<Vec<u8>>)
        ensures
            final(self)@ == read_byte(old(self)@, byte).0,
            match r {
                Some(frame) => read_byte(old(self)@, byte).1 == Some(frame@),
                None => read_byte(old(self)@, byte).1 is None,
            },
    {
        if !self.in_frame {
            if byte == FLAG {
                let mut frame: Vec<u8> = Vec::new();
                frame.push(byte);
                assert(frame@ =~= seq![FLAG]);
                self.frame = frame;
                self.in_frame = true;
            }
            return None;
        }
        self.frame.push(byte);
        if byte == FLAG {
            let mut frame: Vec<u8> = Vec::new();
            std::mem::swap(&mut frame, &mut self.frame);
            self.in_frame = false;
            Some(frame)
        } else {
            None
        }
    }
}

} // verus!
