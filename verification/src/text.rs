//! Character sequences: whitespace, lines, fields and decimal numbers.

use vstd::prelude::*;
use vstd::slice::slice_subrange;

verus! {

/// `String::push` appends one character.
pub assume_specification[ String::push ](s: &mut String, c: char)
    ensures
        final(s)@ == old(s)@.push(c),
;

/// Whether `c` has the Unicode property `White_Space`.
pub open spec fn is_whitespace(c: char) -> bool {
    ||| '\u{9}' <= c <= '\u{d}'
    ||| c == '\u{20}'
    ||| c == '\u{85}'
    ||| c == '\u{a0}'
    ||| c == '\u{1680}'
    ||| '\u{2000}' <= c <= '\u{200a}'
    ||| c == '\u{2028}'
    ||| c == '\u{2029}'
    ||| c == '\u{202f}'
    ||| c == '\u{205f}'
    ||| c == '\u{3000}'
}

/// `s` without the whitespace that it starts with.
pub open spec fn trim_start(s: Seq<char>) -> Seq<char>
    decreases s.len(),
{
    if s.len() > 0 && is_whitespace(s.first()) {
        trim_start(s.drop_first())
    } else {
        s
    }
}

/// `s` without the whitespace that it ends with.
pub open spec fn trim_end(s: Seq<char>) -> Seq<char>
    decreases s.len(),
{
    if s.len() > 0 && is_whitespace(s.last()) {
        trim_end(s.drop_last())
    } else {
        s
    }
}

/// `s` without the whitespace on either side.
pub open spec fn trim(s: Seq<char>) -> Seq<char> {
    trim_end(trim_start(s))
}

/// `s` without the characters `c` that it ends with.
pub open spec fn trim_end_of(s: Seq<char>, c: char) -> Seq<char>
    decreases s.len(),
{
    if s.len() > 0 && s.last() == c {
        trim_end_of(s.drop_last(), c)
    } else {
        s
    }
}

/// How many characters stand before the first `c` in `s`; all of them if there is none.
pub open spec fn find(s: Seq<char>, c: char) -> nat
    decreases s.len(),
{
    if s.len() == 0 || s.first() == c {
        0
    } else {
        1 + find(s.drop_first(), c)
    }
}

/// What stands before and after the first `c` in `s`.
pub open spec fn split_once(s: Seq<char>, c: char) -> Option<(Seq<char>, Seq<char>)> {
    let i = find(s, c) as int;
    if i == s.len() {
        None
    } else {
        Some((s.take(i), s.skip(i + 1)))
    }
}

/// The first line of `s`, without its line ending (a line feed, or a carriage return and a line
/// feed).
pub open spec fn first_line(s: Seq<char>) -> Seq<char> {
    let i = find(s, '\n') as int;
    if i < s.len() && i > 0 && s[i - 1] == '\r' {
        s.take(i - 1)
    } else {
        s.take(i)
    }
}

/// What follows the first line of `s` and its line ending.
pub open spec fn after_line(s: Seq<char>) -> Seq<char> {
    let i = find(s, '\n') as int;
    if i < s.len() {
        s.skip(i + 1)
    } else {
        Seq::empty()
    }
}

/// How many maximal runs of characters other than whitespace `s` holds.
pub open spec fn word_count(s: Seq<char>) -> nat
    decreases s.len(),
{
    if s.len() == 0 {
        0
    } else {
        let starts_word = !is_whitespace(s.last()) && (s.len() == 1 || is_whitespace(
            s[s.len() - 2],
        ));
        word_count(s.drop_last()) + if starts_word {
            1nat
        } else {
            0nat
        }
    }
}

/// The decimal digits of `n`, without leading zeros.
pub open spec fn decimal(n: nat) -> Seq<char>
    decreases n,
{
    if n < 10 {
        seq![(48 + n) as char]
    } else {
        decimal(n / 10).push((48 + n % 10) as char)
    }
}

/// The decimal digits of `n`, after a minus sign if it is negative.
pub open spec fn signed_decimal(n: int) -> Seq<char> {
    if n < 0 {
        seq!['-'] + decimal((-n) as nat)
    } else {
        decimal(n as nat)
    }
}

/// The decimal numbers of `bytes`, separated by a comma and a space.
pub open spec fn decimal_list(bytes: Seq<u8>) -> Seq<char>
    decreases bytes.len(),
{
    if bytes.len() == 0 {
        Seq::empty()
    } else if bytes.len() == 1 {
        decimal(bytes[0] as nat)
    } else {
        decimal_list(bytes.drop_last()) + seq![',', ' '] + decimal(bytes.last() as nat)
    }
}

/// `find` points at the first occurrence.
pub proof fn lemma_find(s: Seq<char>, c: char)
    ensures
        find(s, c) <= s.len(),
        find(s, c) < s.len() ==> s[find(s, c) as int] == c,
        forall|j: int| 0 <= j < find(s, c) ==> s[j] != c,
    decreases s.len(),
{
    if s.len() > 0 && s.first() != c {
        let t = s.drop_first();
        lemma_find(t, c);
        assert forall|j: int| 0 <= j < find(s, c) implies s[j] != c by {
            if j > 0 {
                assert(s[j] == t[j - 1]);
            }
        }
    }
}

/// The only position that points at the first occurrence is `find`.
pub proof fn lemma_find_is(s: Seq<char>, c: char, i: int)
    requires
        0 <= i <= s.len(),
        i < s.len() ==> s[i] == c,
        forall|j: int| 0 <= j < i ==> s[j] != c,
    ensures
        find(s, c) == i,
{
    lemma_find(s, c);
    let f = find(s, c) as int;
    if f < i {
        assert(s[f] != c);
    } else if i < f {
        assert(s[i] != c);
    }
}

/// A line is shorter than what it was taken from, unless nothing follows it.
pub proof fn lemma_after_line_shorter(s: Seq<char>)
    requires
        s.len() > 0,
    ensures
        after_line(s).len() < s.len(),
{
    lemma_find(s, '\n');
}

/// Which characters are whitespace, by their code points.
pub proof fn law_whitespace(c: char)
    ensures
        ({
            let n = c as u32;
            is_whitespace(c) <==> (9 <= n <= 13 || n == 32 || n == 0x85 || n == 0xa0 || n == 0x1680
                || 0x2000 <= n <= 0x200a || n == 0x2028 || n == 0x2029 || n == 0x202f || n == 0x205f
                || n == 0x3000)
        }),
{
}

/// Whether `s` is nothing but whitespace.
pub open spec fn is_blank(s: Seq<char>) -> bool {
    forall|i: int| 0 <= i < s.len() ==> is_whitespace(#[trigger] s[i])
}

/// Whitespace in front goes.
proof fn lemma_trim_start_behind(blank: Seq<char>, s: Seq<char>)
    requires
        is_blank(blank),
    ensures
        trim_start(blank + s) == trim_start(s),
    decreases blank.len(),
{
    if blank.len() == 0 {
        assert(blank + s =~= s);
    } else {
        assert(is_whitespace(blank[0]));
        assert((blank + s).drop_first() =~= blank.drop_first() + s);
        assert forall|i: int| 0 <= i < blank.drop_first().len() implies is_whitespace(
            #[trigger] blank.drop_first()[i],
        ) by {
            assert(is_whitespace(blank[i + 1]));
        }
        lemma_trim_start_behind(blank.drop_first(), s);
    }
}

/// Whitespace at the end goes.
proof fn lemma_trim_end_before(s: Seq<char>, blank: Seq<char>)
    requires
        is_blank(blank),
    ensures
        trim_end(s + blank) == trim_end(s),
    decreases blank.len(),
{
    if blank.len() == 0 {
        assert(s + blank =~= s);
    } else {
        assert(is_whitespace(blank[blank.len() - 1]));
        assert((s + blank).last() == blank[blank.len() - 1]);
        assert((s + blank).drop_last() =~= s + blank.drop_last());
        assert forall|i: int| 0 <= i < blank.drop_last().len() implies is_whitespace(
            #[trigger] blank.drop_last()[i],
        ) by {
            assert(is_whitespace(blank[i]));
        }
        lemma_trim_end_before(s, blank.drop_last());
    }
}

/// Trimming takes whitespace away on both sides, all of it and nothing else.
pub proof fn law_trim(before: Seq<char>, s: Seq<char>, after: Seq<char>)
    requires
        is_blank(before),
        is_blank(after),
        s.len() > 0 ==> !is_whitespace(s[0]) && !is_whitespace(s[s.len() - 1]),
    ensures
        trim(before + s + after) == s,
{
    assert(before + s + after =~= before + (s + after));
    lemma_trim_start_behind(before, s + after);
    if s.len() == 0 {
        assert(s + after =~= after + Seq::empty());
        lemma_trim_start_behind(after, Seq::empty());
        assert(trim_start(s + after) =~= Seq::empty());
        assert(s =~= Seq::empty());
    } else {
        assert((s + after).first() == s[0]);
        lemma_trim_end_before(s, after);
    }
}

/// A text is cut at the first separator, and not at all where there is none.
pub proof fn law_split_once(before: Seq<char>, separator: char, after: Seq<char>)
    requires
        !before.contains(separator),
    ensures
        split_once(before, separator) == None::<(Seq<char>, Seq<char>)>,
        split_once(before.push(separator) + after, separator) == Some((before, after)),
{
    let s = before.push(separator) + after;
    assert forall|j: int| 0 <= j < before.len() implies s[j] != separator && before[j]
        != separator by {
        assert(before.contains(before[j]));
    }
    lemma_find_is(before, separator, before.len() as int);
    lemma_find_is(s, separator, before.len() as int);
    assert(s.take(before.len() as int) =~= before);
    assert(s.skip(before.len() as int + 1) =~= after);
}

/// A line ends at a line feed; one carriage return just before the line feed belongs to the line
/// ending. A text without a line feed is one line.
pub proof fn law_first_line(line: Seq<char>, rest: Seq<char>)
    requires
        !line.contains('\n'),
    ensures
        first_line(line) == line,
        after_line(line) == Seq::<char>::empty(),
        after_line(line.push('\n') + rest) == rest,
        line.len() > 0 && line.last() == '\r' ==> first_line(line.push('\n') + rest)
            == line.drop_last(),
        line.len() == 0 || line.last() != '\r' ==> first_line(line.push('\n') + rest) == line,
{
    let s = line.push('\n') + rest;
    let n = line.len() as int;
    assert forall|j: int| 0 <= j < n implies s[j] != '\n' && line[j] != '\n' by {
        assert(line.contains(line[j]));
    }
    lemma_find_is(line, '\n', n);
    lemma_find_is(s, '\n', n);
    assert(line.take(n) =~= line);
    assert(s.take(n) =~= line);
    if n > 0 {
        assert(s[n - 1] == line[n - 1]);
        assert(s.take(n - 1) =~= line.drop_last());
    }
    assert(s.skip(n + 1) =~= rest);
}

/// Words are counted: whitespace adds none, a character at the start or behind whitespace begins
/// one, and a character behind another goes on with it.
pub proof fn law_word_count(s: Seq<char>, c: char)
    ensures
        word_count(Seq::empty()) == 0,
        is_whitespace(c) ==> word_count(s.push(c)) == word_count(s),
        !is_whitespace(c) && (s.len() == 0 || is_whitespace(s.last())) ==> word_count(s.push(c))
            == word_count(s) + 1,
        !is_whitespace(c) && s.len() > 0 && !is_whitespace(s.last()) ==> word_count(s.push(c))
            == word_count(s),
{
    assert(s.push(c).drop_last() =~= s);
}

/// A number below ten is one digit, and a digit more behind the digits of a number stands for ten
/// times the number and the digit.
pub proof fn law_decimal(n: nat, digit: nat)
    requires
        digit < 10,
    ensures
        decimal(digit) == seq!["0123456789"@[digit as int]],
        n > 0 ==> decimal(10 * n + digit) == decimal(n).push("0123456789"@[digit as int]),
{
    reveal_strlit("0123456789");
    if n > 0 {
        assert((10 * n + digit) / 10 == n);
        assert((10 * n + digit) % 10 == digit);
    }
}

/// A negative number has a minus sign in front of the digits of its absolute value.
pub proof fn law_signed_decimal(n: nat)
    ensures
        signed_decimal(n as int) == decimal(n),
        n > 0 ==> signed_decimal(-n) == "-"@ + decimal(n),
{
    reveal_strlit("-");
    assert("-"@ =~= seq!['-']);
}

/// The numbers of a list are set apart by a comma and a space.
pub proof fn law_decimal_list(bytes: Seq<u8>, byte: u8)
    ensures
        decimal_list(Seq::empty()) == Seq::<char>::empty(),
        bytes.len() == 0 ==> decimal_list(bytes.push(byte)) == decimal(byte as nat),
        bytes.len() > 0 ==> decimal_list(bytes.push(byte)) == decimal_list(bytes) + ", "@ + decimal(
            byte as nat,
        ),
{
    reveal_strlit(", ");
    assert(", "@ =~= seq![',', ' ']);
    assert(bytes.push(byte).drop_last() =~= bytes);
}

/// A text loses the given characters at its end, all of them and nothing else.
pub proof fn law_trim_end_of(s: Seq<char>, c: char, n: nat)
    requires
        s.len() == 0 || s.last() != c,
    ensures
        trim_end_of(s + Seq::new(n, |i: int| c), c) == s,
    decreases n,
{
    let t = s + Seq::new(n, |i: int| c);
    if n == 0 {
        assert(t =~= s);
    } else {
        law_trim_end_of(s, c, (n - 1) as nat);
        assert(t.last() == c);
        assert(t.drop_last() =~= s + Seq::new((n - 1) as nat, |i: int| c));
    }
}

/// The characters of `s`.
pub(crate) fn chars_of(s: &str) -> (out: Vec<char>)
    ensures
        out@ == s@,
{
    let mut out: Vec<char> = Vec::new();
    for c in it: s.chars()
        invariant
            out@ == s@.take(it.index() as int),
            it.seq() == s@,
    {
        out.push(c);
    }
    out
}

/// Append the characters `chars` to `out`.
pub(crate) fn push_chars(out: &mut String, chars: &[char])
    ensures
        final(out)@ == old(out)@ + chars@,
{
    let ghost before = out@;
    let mut i: usize = 0;
    assert(out@ =~= before + chars@.take(0));
    while i < chars.len()
        invariant
            i <= chars@.len(),
            out@ == before + chars@.take(i as int),
        decreases chars@.len() - i,
    {
        out.push(chars[i]);
        i = i + 1;
        assert(out@ =~= before + chars@.take(i as int));
    }
    assert(chars@.take(i as int) =~= chars@);
}

/// The string of the characters `chars`.
pub(crate) fn string_of(chars: &[char]) -> (out: String)
    ensures
        out@ == chars@,
{
    let mut out = String::new();
    push_chars(&mut out, chars);
    assert(out@ =~= chars@);
    out
}

/// Whether two character sequences are equal.
pub(crate) fn same(a: &[char], b: &[char]) -> (r: bool)
    ensures
        r == (a@ == b@),
{
    if a.len() != b.len() {
        return false;
    }
    let mut i: usize = 0;
    while i < a.len()
        invariant
            i <= a@.len(),
            a@.len() == b@.len(),
            forall|j: int| 0 <= j < i ==> a@[j] == b@[j],
        decreases a@.len() - i,
    {
        if a[i] != b[i] {
            return false;
        }
        i = i + 1;
    }
    assert(a@ =~= b@);
    true
}

/// Whether `c` is whitespace.
pub(crate) fn char_is_whitespace(c: char) -> (r: bool)
    ensures
        r == is_whitespace(c),
{
    ('\u{9}' <= c && c <= '\u{d}') || c == '\u{20}' || c == '\u{85}' || c == '\u{a0}' || c
        == '\u{1680}' || ('\u{2000}' <= c && c <= '\u{200a}') || c == '\u{2028}' || c == '\u{2029}'
        || c == '\u{202f}' || c == '\u{205f}' || c == '\u{3000}'
}

/// `s` without the whitespace on either side.
pub(crate) fn trimmed(s: &[char]) -> (out: &[char])
    ensures
        out@ == trim(s@),
{
    let mut from: usize = 0;
    assert(s@.skip(0) =~= s@);
    while from < s.len() && char_is_whitespace(s[from])
        invariant
            from <= s@.len(),
            trim_start(s@) == trim_start(s@.skip(from as int)),
        decreases s@.len() - from,
    {
        assert(s@.skip(from as int).drop_first() =~= s@.skip(from + 1));
        from = from + 1;
    }
    let mut to: usize = s.len();
    let ghost start = s@.skip(from as int);
    assert(trim_start(s@) == start);
    assert(s@.subrange(from as int, to as int) =~= start);
    while to > from && char_is_whitespace(s[to - 1])
        invariant
            from <= to <= s@.len(),
            trim_end(start) == trim_end(s@.subrange(from as int, to as int)),
        decreases to,
    {
        assert(s@.subrange(from as int, to as int).drop_last() =~= s@.subrange(
            from as int,
            to - 1,
        ));
        to = to - 1;
    }
    slice_subrange(s, from, to)
}

/// `s` without the characters `c` that it ends with.
pub(crate) fn trimmed_end_of(s: &[char], c: char) -> (out: &[char])
    ensures
        out@ == trim_end_of(s@, c),
{
    let mut to: usize = s.len();
    assert(s@.subrange(0, to as int) =~= s@);
    while to > 0 && s[to - 1] == c
        invariant
            to <= s@.len(),
            trim_end_of(s@, c) == trim_end_of(s@.subrange(0, to as int), c),
        decreases to,
    {
        assert(s@.subrange(0, to as int).drop_last() =~= s@.subrange(0, to - 1));
        to = to - 1;
    }
    slice_subrange(s, 0, to)
}

/// Where the first `c` stands in `s`, or the length of `s`.
pub(crate) fn position(s: &[char], c: char) -> (i: usize)
    ensures
        i == find(s@, c),
        i <= s@.len(),
{
    let mut i: usize = 0;
    while i < s.len()
        invariant
            i <= s@.len(),
            forall|j: int| 0 <= j < i ==> s@[j] != c,
        decreases s@.len() - i,
    {
        if s[i] == c {
            proof {
                lemma_find_is(s@, c, i as int);
            }
            return i;
        }
        i = i + 1;
    }
    proof {
        lemma_find_is(s@, c, i as int);
    }
    i
}

/// What stands before and after the first `c` in `s`.
pub(crate) fn split_at_first(s: &[char], c: char) -> (r: Option<(&[char], &[char])>)
    ensures
        match r {
            Some((before, after)) => split_once(s@, c) == Some((before@, after@)),
            None => split_once(s@, c) is None,
        },
{
    let i = position(s, c);
    if i == s.len() {
        None
    } else {
        assert(s@.take(i as int) =~= s@.subrange(0, i as int));
        assert(s@.skip(i + 1) =~= s@.subrange(i + 1, s@.len() as int));
        Some((slice_subrange(s, 0, i), slice_subrange(s, i + 1, s.len())))
    }
}

/// The first line of `s` and what follows it.
pub(crate) fn next_line(s: &[char]) -> (r: (&[char], &[char]))
    ensures
        r.0@ == first_line(s@),
        r.1@ == after_line(s@),
{
    let i = position(s, '\n');
    assert(s@.take(i as int) =~= s@.subrange(0, i as int));
    if i < s.len() {
        assert(s@.skip(i + 1) =~= s@.subrange(i + 1, s@.len() as int));
        let rest = slice_subrange(s, i + 1, s.len());
        if i > 0 && s[i - 1] == '\r' {
            assert(s@.take(i - 1) =~= s@.subrange(0, i - 1));
            (slice_subrange(s, 0, i - 1), rest)
        } else {
            (slice_subrange(s, 0, i), rest)
        }
    } else {
        assert(s@.subrange(i as int, i as int) =~= Seq::empty());
        (slice_subrange(s, 0, i), slice_subrange(s, i, i))
    }
}

/// How many words, separated by whitespace, `s` holds.
pub(crate) fn count_words(s: &[char]) -> (n: usize)
    ensures
        n == word_count(s@),
{
    let mut n: usize = 0;
    let mut i: usize = 0;
    assert(s@.take(0) =~= Seq::empty());
    while i < s.len()
        invariant
            n <= i <= s@.len(),
            n == word_count(s@.take(i as int)),
        decreases s@.len() - i,
    {
        assert(s@.take(i + 1).drop_last() =~= s@.take(i as int));
        if !char_is_whitespace(s[i]) && (i == 0 || char_is_whitespace(s[i - 1])) {
            n = n + 1;
        }
        i = i + 1;
    }
    assert(s@.take(i as int) =~= s@);
    n
}

/// The character of the decimal digit `d`.
fn digit(d: u8) -> (c: char)
    requires
        d < 10,
    ensures
        c == (48 + d) as char,
{
    (48 + d) as char
}

/// Append the decimal digits of `n`.
pub(crate) fn push_decimal(out: &mut String, n: u64)
    ensures
        final(out)@ == old(out)@ + decimal(n as nat),
    decreases n,
{
    let ghost before = out@;
    if n < 10 {
        out.push(digit(n as u8));
        assert(out@ =~= before + decimal(n as nat));
    } else {
        push_decimal(out, n / 10);
        out.push(digit((n % 10) as u8));
        assert(out@ =~= before + decimal(n as nat));
    }
}

/// Append the decimal digits of `n`, after a minus sign if it is negative.
pub(crate) fn push_signed_decimal(out: &mut String, n: i32)
    ensures
        final(out)@ == old(out)@ + signed_decimal(n as int),
{
    let ghost before = out@;
    if n < 0 {
        out.push('-');
        push_decimal(out, (-(n as i64)) as u64);
        assert(out@ =~= before + signed_decimal(n as int));
    } else {
        push_decimal(out, n as u64);
    }
}

/// Append the decimal numbers of `bytes`, separated by a comma and a space.
pub(crate) fn push_decimal_list(out: &mut String, bytes: &[u8])
    ensures
        final(out)@ == old(out)@ + decimal_list(bytes@),
{
    let ghost before = out@;
    let mut i: usize = 0;
    assert(out@ =~= before + decimal_list(bytes@.take(0)));
    while i < bytes.len()
        invariant
            i <= bytes@.len(),
            out@ == before + decimal_list(bytes@.take(i as int)),
        decreases bytes@.len() - i,
    {
        assert(bytes@.take(i + 1).drop_last() =~= bytes@.take(i as int));
        if i > 0 {
            out.push(',');
            out.push(' ');
        }
        push_decimal(out, bytes[i] as u64);
        i = i + 1;
        assert(out@ =~= before + decimal_list(bytes@.take(i as int)));
    }
    assert(bytes@.take(i as int) =~= bytes@);
}

} // verus!
