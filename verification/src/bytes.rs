//! Byte sequences: big-endian integers, fixed-width fields and copies.

use vstd::prelude::*;

verus! {

/// 256 to the power `n`.
pub open spec fn pow256(n: nat) -> nat
    decreases n,
{
    if n == 0 {
        1
    } else {
        256 * pow256((n - 1) as nat)
    }
}

/// The `width` lowest base-256 digits of `x`, most significant first.
pub open spec fn be_bytes(x: nat, width: nat) -> Seq<u8>
    decreases width,
{
    if width == 0 {
        Seq::empty()
    } else {
        be_bytes(x / 256, (width - 1) as nat).push((x % 256) as u8)
    }
}

/// The number whose base-256 digits are `s`, most significant first.
pub open spec fn be_value(s: Seq<u8>) -> nat
    decreases s.len(),
{
    if s.len() == 0 {
        0
    } else {
        be_value(s.drop_last()) * 256 + s.last() as nat
    }
}

/// `be_bytes` yields exactly `width` bytes.
pub proof fn lemma_be_bytes_len(x: nat, width: nat)
    ensures
        be_bytes(x, width).len() == width,
    decreases width,
{
    if width > 0 {
        lemma_be_bytes_len(x / 256, (width - 1) as nat);
    }
}

/// A sequence of `n` digits denotes a number below 256 to the power `n`.
pub proof fn lemma_be_value_bound(s: Seq<u8>)
    ensures
        be_value(s) < pow256(s.len()),
    decreases s.len(),
{
    if s.len() > 0 {
        lemma_be_value_bound(s.drop_last());
    }
}

/// Reading back the big-endian bytes of a number that fits gives the number.
pub proof fn law_be_bytes_round_trip(x: nat, width: nat)
    requires
        x < pow256(width),
    ensures
        be_value(be_bytes(x, width)) == x,
    decreases width,
{
    if width > 0 {
        law_be_bytes_round_trip(x / 256, (width - 1) as nat);
        assert(be_bytes(x, width).drop_last() =~= be_bytes(x / 256, (width - 1) as nat));
    }
}

/// Writing out the number that some bytes denote gives the bytes.
pub proof fn law_be_value_round_trip(s: Seq<u8>)
    ensures
        be_bytes(be_value(s), s.len()) == s,
    decreases s.len(),
{
    if s.len() > 0 {
        law_be_value_round_trip(s.drop_last());
        let v = be_value(s);
        assert(v / 256 == be_value(s.drop_last()));
        assert(v % 256 == s.last() as nat);
        assert(s =~= s.drop_last().push(s.last()));
    } else {
        assert(s =~= Seq::empty());
    }
}

/// Each byte is one base-256 digit, the most significant first.
pub proof fn law_be_bytes_digit(x: nat, width: nat, i: int)
    requires
        0 <= i < width,
    ensures
        be_bytes(x, width).len() == width,
        be_bytes(x, width)[i] == (x / pow256((width - 1 - i) as nat)) % 256,
    decreases width,
{
    let upper = be_bytes(x / 256, (width - 1) as nat);
    lemma_be_bytes_len(x, width);
    lemma_be_bytes_len(x / 256, (width - 1) as nat);
    if i == width - 1 {
        assert(pow256(0) == 1);
        assert(be_bytes(x, width)[i] == (x % 256) as u8);
        assert(x / 1 == x);
    } else {
        let n = (width - 2 - i) as nat;
        law_be_bytes_digit(x / 256, (width - 1) as nat, i);
        assert(be_bytes(x, width)[i] == upper[i]);
        lemma_pow256_positive(n);
        vstd::arithmetic::div_mod::lemma_div_denominator(x as int, 256, pow256(n) as int);
        assert(pow256((width - 1 - i) as nat) == 256 * pow256(n));
        assert((x / 256) / pow256(n) == x / (256 * pow256(n)));
    }
}

/// A power of 256 is positive.
proof fn lemma_pow256_positive(n: nat)
    ensures
        pow256(n) > 0,
    decreases n,
{
    if n > 0 {
        lemma_pow256_positive((n - 1) as nat);
    }
}

/// The eight bytes of a number, the most significant first.
pub proof fn law_be_bytes_of_eight(x: u64)
    ensures
        be_bytes(x as nat, 8).len() == 8,
        be_bytes(x as nat, 8)[0] == x / 0x100_0000_0000_0000,
        be_bytes(x as nat, 8)[1] == x / 0x1_0000_0000_0000 % 256,
        be_bytes(x as nat, 8)[2] == x / 0x100_0000_0000 % 256,
        be_bytes(x as nat, 8)[3] == x / 0x1_0000_0000 % 256,
        be_bytes(x as nat, 8)[4] == x / 0x100_0000 % 256,
        be_bytes(x as nat, 8)[5] == x / 0x1_0000 % 256,
        be_bytes(x as nat, 8)[6] == x / 256 % 256,
        be_bytes(x as nat, 8)[7] == x % 256,
{
    reveal_with_fuel(pow256, 9);
    law_be_bytes_digit(x as nat, 8, 0);
    law_be_bytes_digit(x as nat, 8, 1);
    law_be_bytes_digit(x as nat, 8, 2);
    law_be_bytes_digit(x as nat, 8, 3);
    law_be_bytes_digit(x as nat, 8, 4);
    law_be_bytes_digit(x as nat, 8, 5);
    law_be_bytes_digit(x as nat, 8, 6);
    law_be_bytes_digit(x as nat, 8, 7);
}

/// The four bytes of a number, the most significant first.
pub proof fn law_be_bytes_of_four(x: u32)
    ensures
        be_bytes(x as nat, 4).len() == 4,
        be_bytes(x as nat, 4)[0] == x / 0x100_0000,
        be_bytes(x as nat, 4)[1] == x / 0x1_0000 % 256,
        be_bytes(x as nat, 4)[2] == x / 256 % 256,
        be_bytes(x as nat, 4)[3] == x % 256,
{
    reveal_with_fuel(pow256, 5);
    law_be_bytes_digit(x as nat, 4, 0);
    law_be_bytes_digit(x as nat, 4, 1);
    law_be_bytes_digit(x as nat, 4, 2);
    law_be_bytes_digit(x as nat, 4, 3);
}

/// The number that eight bytes denote weighs each byte by its place, the first most.
pub proof fn law_be_value_of_eight(s: Seq<u8>)
    requires
        s.len() == 8,
    ensures
        be_value(s) == s[0] * 0x100_0000_0000_0000 + s[1] * 0x1_0000_0000_0000 + s[2]
            * 0x100_0000_0000 + s[3] * 0x1_0000_0000 + s[4] * 0x100_0000 + s[5] * 0x1_0000 + s[6]
            * 256 + s[7],
        be_value(s) <= u64::MAX,
{
    reveal_with_fuel(be_value, 9);
}

/// The number that four bytes denote weighs each byte by its place, the first most.
pub proof fn law_be_value_of_four(s: Seq<u8>)
    requires
        s.len() == 4,
    ensures
        be_value(s) == s[0] * 0x100_0000 + s[1] * 0x1_0000 + s[2] * 256 + s[3],
        be_value(s) <= u32::MAX,
{
    reveal_with_fuel(be_value, 5);
}

/// Two numbers that fit are equal when their big-endian bytes are.
pub proof fn lemma_be_bytes_injective(x: nat, y: nat, width: nat)
    requires
        x < pow256(width),
        y < pow256(width),
        be_bytes(x, width) == be_bytes(y, width),
    ensures
        x == y,
{
    law_be_bytes_round_trip(x, width);
    law_be_bytes_round_trip(y, width);
}

/// Every `u64` fits in eight bytes and every `u32` in four.
pub proof fn lemma_widths()
    ensures
        pow256(8) == 0x1_0000_0000_0000_0000,
        pow256(4) == 0x1_0000_0000,
        forall|n: nat| n <= 7 ==> #[trigger] pow256(n) <= 0x100_0000_0000_0000,
{
    reveal_with_fuel(pow256, 9);
    assert forall|n: nat| n <= 7 implies #[trigger] pow256(n) <= 0x100_0000_0000_0000 by {
        assert(n == 0 || n == 1 || n == 2 || n == 3 || n == 4 || n == 5 || n == 6 || n == 7);
    }
}

/// The eight big-endian bytes of `x`.
pub(crate) fn u64_to_be_bytes(x: u64) -> (out: [u8; 8])
    ensures
        out@ == be_bytes(x as nat, 8),
{
    let mut out: [u8; 8] = [0u8; 8];
    let mut rest: u64 = x;
    let mut i: usize = 8;
    proof {
        lemma_be_bytes_len(x as nat, 8);
    }
    assert(be_bytes(x as nat, 8) =~= be_bytes(rest as nat, i as nat) + out@.skip(i as int));
    while i > 0
        invariant
            i <= 8,
            be_bytes(x as nat, 8) == be_bytes(rest as nat, i as nat) + out@.skip(i as int),
            be_bytes(rest as nat, i as nat).len() == i,
        decreases i,
    {
        let ghost before = out@;
        let ghost digits = be_bytes(rest as nat, i as nat);
        i = i - 1;
        out[i] = (rest % 256) as u8;
        rest = rest / 256;
        proof {
            lemma_be_bytes_len(rest as nat, i as nat);
            assert(digits == be_bytes(rest as nat, i as nat).push(out@[i as int]));
            assert(out@.skip(i as int) =~= seq![out@[i as int]] + before.skip(i + 1));
            assert(digits + before.skip(i + 1) =~= be_bytes(rest as nat, i as nat) + out@.skip(
                i as int,
            ));
        }
    }
    assert(out@.skip(0) =~= out@);
    assert(be_bytes(rest as nat, 0) + out@ =~= out@);
    out
}

/// The four big-endian bytes of `x`.
pub(crate) fn u32_to_be_bytes(x: u32) -> (out: [u8; 4])
    ensures
        out@ == be_bytes(x as nat, 4),
{
    let mut out: [u8; 4] = [0u8; 4];
    out[0] = (x / 0x100_0000) as u8;
    out[1] = (x / 0x1_0000 % 256) as u8;
    out[2] = (x / 256 % 256) as u8;
    out[3] = (x % 256) as u8;
    proof {
        reveal_with_fuel(be_bytes, 5);
        assert(out@ =~= be_bytes(x as nat, 4));
    }
    out
}

/// The number that up to eight big-endian bytes denote.
pub(crate) fn be_bytes_to_u64(data: &[u8]) -> (out: u64)
    requires
        data@.len() <= 8,
    ensures
        out as nat == be_value(data@),
{
    let mut out: u64 = 0;
    let mut i: usize = 0;
    assert(data@.take(0) =~= Seq::empty());
    while i < data.len()
        invariant
            data@.len() <= 8,
            i <= data@.len(),
            out as nat == be_value(data@.take(i as int)),
        decreases data@.len() - i,
    {
        proof {
            lemma_widths();
            lemma_be_value_bound(data@.take(i as int));
            assert(data@.take(i + 1).drop_last() =~= data@.take(i as int));
        }
        out = out * 256 + data[i] as u64;
        i = i + 1;
    }
    assert(data@.take(i as int) =~= data@);
    out
}

/// Append `data` to `out`.
pub(crate) fn extend(out: &mut Vec<u8>, data: &[u8])
    ensures
        final(out)@ == old(out)@ + data@,
{
    let ghost before = out@;
    out.extend_from_slice(data);
    assert(out@ =~= before + data@);
}

/// Whether two byte strings are equal.
pub(crate) fn same(a: &[u8], b: &[u8]) -> (r: bool)
    ensures
        r == (a@ == b@),
{
    if a.len() != b.len() {
        return false;
    }
    let mut i: usize = 0;
    while i < a.len()
        invariant
            i <= a@.len(),
            a@.len() == b@.len(),
            forall|j: int| 0 <= j < i ==> a@[j] == b@[j],
        decreases a@.len() - i,
    {
        if a[i] != b[i] {
            return false;
        }
        i = i + 1;
    }
    assert(a@ =~= b@);
    true
}

/// The first `N` bytes of `data` as an array.
pub(crate) fn to_array<const N: usize>(data: &[u8]) -> (out: [u8; N])
    requires
        data@.len() >= N,
    ensures
        out@ == data@.take(N as int),
{
    let mut out: [u8; N] = [0u8; N];
    let mut i: usize = 0;
    while i < N
        invariant
            i <= N,
            N <= data@.len(),
            forall|j: int| 0 <= j < i ==> out@[j] == data@[j],
        decreases N - i,
    {
        out[i] = data[i];
        i = i + 1;
    }
    assert(out@ =~= data@.take(N as int));
    out
}

} // verus!
