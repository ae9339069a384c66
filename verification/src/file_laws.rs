//! What is written to a file of keys is found when the file is read.

use vstd::prelude::*;
use vstd::utf8::*;

use crate::base64;
use crate::key_files;
use crate::key_files::FileFault;
use crate::key_text;
use crate::key_text::CONN_AUTHORIZED_KEY_KIND;
use crate::text;

verus! {

/// Whether `s` holds no whitespace.
pub open spec fn is_word(s: Seq<char>) -> bool {
    forall|i: int| 0 <= i < s.len() ==> !text::is_whitespace(#[trigger] s[i])
}

/// The last byte of a text in UTF-8 is a line feed exactly if its last character is.
pub proof fn lemma_last_byte(s: Seq<char>)
    requires
        s.len() > 0,
    ensures
        encode_utf8(s).len() > 0,
        encode_utf8(s).last() == 10 <==> s.last() == '\n',
    decreases s.len(),
{
    let c = s[0] as u32;
    let head = encode_scalar(c);
    let tail = encode_utf8(s.drop_first());
    assert(head.len() > 0);
    if s.len() == 1 {
        assert(s.drop_first() =~= Seq::empty());
        assert(encode_utf8(s) =~= head);
        assert(c <= 0x7f ==> c & 0x7f == c) by (bit_vector);
        assert((0x80u8 | (c & 0x3f) as u8) >= 0x80) by (bit_vector);
        if c <= 0x7f {
            assert(head =~= seq![c as u8]);
            char_u32_cast(s[0], c);
        } else {
            assert(head.last() == 0x80u8 | (c & 0x3f) as u8);
        }
    } else {
        lemma_last_byte(s.drop_first());
        assert(encode_utf8(s).last() == tail.last());
        assert(s.drop_first().last() == s.last());
    }
}

/// Whitespace at the end of a text does not survive trimming.
proof fn lemma_trim_start_push(s: Seq<char>, c: char)
    requires
        text::is_whitespace(c),
    ensures
        text::trim_start(s.push(c)) == if text::trim_start(s).len() == 0 {
            Seq::empty()
        } else {
            text::trim_start(s).push(c)
        },
    decreases s.len(),
{
    let t = s.push(c);
    if s.len() == 0 {
        reveal_with_fuel(text::trim_start, 2);
        assert(t.drop_first() =~= Seq::empty());
    } else {
        assert(t.first() == s.first());
        if text::is_whitespace(s.first()) {
            assert(t.drop_first() =~= s.drop_first().push(c));
            lemma_trim_start_push(s.drop_first(), c);
        }
    }
}

/// Trimming a text with whitespace behind it is trimming the text.
pub(crate) proof fn lemma_trim_push(s: Seq<char>, c: char)
    requires
        text::is_whitespace(c),
    ensures
        text::trim(s.push(c)) == text::trim(s),
{
    lemma_trim_start_push(s, c);
    let t = text::trim_start(s);
    if t.len() > 0 {
        assert(t.push(c).drop_last() =~= t);
        assert(text::trim_end(t.push(c)) == text::trim_end(t));
    } else {
        assert(t =~= Seq::empty());
    }
}

/// The first line of a text is found in front of any other text, if it has a line ending.
pub(crate) proof fn lemma_line_of_concat(a: Seq<char>, b: Seq<char>)
    requires
        a.contains('\n'),
    ensures
        text::first_line(a + b) == text::first_line(a),
        text::after_line(a + b) == text::after_line(a) + b,
{
    text::lemma_find(a, '\n');
    let i = text::find(a, '\n') as int;
    let k = choose|k: int| 0 <= k < a.len() && a[k] == '\n';
    assert(i < a.len());
    assert((a + b)[i] == '\n');
    assert forall|j: int| 0 <= j < i implies (a + b)[j] != '\n' by {
        assert(a[j] != '\n');
    }
    text::lemma_find_is(a + b, '\n', i);
    assert((a + b).take(i) =~= a.take(i));
    if i > 0 {
        assert((a + b).take(i - 1) =~= a.take(i - 1));
    }
    assert((a + b).skip(i + 1) =~= a.skip(i + 1) + b);
}

/// What follows the first line of a text ends as the text does.
pub(crate) proof fn lemma_after_line_last(s: Seq<char>)
    ensures
        text::after_line(s).len() > 0 ==> text::after_line(s).last() == s.last(),
{
    text::lemma_find(s, '\n');
}

/// Hosts behind whole lines are added to the hosts in those lines.
proof fn lemma_hosts_in_concat(
    a: Seq<char>,
    b: Seq<char>,
    line: nat,
    hosts: Map<Seq<char>, Seq<u8>>,
    found: Map<Seq<char>, Seq<u8>>,
    all: Map<Seq<char>, Seq<u8>>,
)
    requires
        a.len() == 0 || a.last() == '\n',
        key_files::hosts_in(a, line, hosts) == Ok::<Map<Seq<char>, Seq<u8>>, FileFault>(found),
        forall|l: nat| #[trigger]
            key_files::hosts_in(b, l, found) == Ok::<Map<Seq<char>, Seq<u8>>, FileFault>(all),
    ensures
        key_files::hosts_in(a + b, line, hosts) == Ok::<Map<Seq<char>, Seq<u8>>, FileFault>(all),
    decreases a.len(),
{
    if a.len() == 0 {
        assert(a + b =~= b);
        assert(key_files::hosts_in(b, line, found) == Ok::<Map<Seq<char>, Seq<u8>>, FileFault>(
            all,
        ));
    } else {
        assert(a[a.len() - 1] == '\n');
        lemma_line_of_concat(a, b);
        lemma_after_line_last(a);
        text::lemma_after_line_shorter(a);
        let first = text::trim(text::first_line(a));
        let rest = text::after_line(a);
        if key_files::is_skipped(first) {
            lemma_hosts_in_concat(rest, b, line + 1, hosts, found, all);
        } else {
            let (host, key) = key_text::parsed_known_host(first)->Ok_0;
            lemma_hosts_in_concat(rest, b, line + 1, hosts.insert(host, key), found, all);
        }
    }
}

/// A line ending at the end of a file that lacks one changes nothing.
pub(crate) proof fn lemma_hosts_in_newline(a: Seq<char>, line: nat, hosts: Map<Seq<char>, Seq<u8>>)
    requires
        a.len() > 0,
        a.last() != '\n',
    ensures
        key_files::hosts_in(a.push('\n'), line, hosts) == key_files::hosts_in(a, line, hosts),
    decreases a.len(),
{
    let t = a.push('\n');
    text::lemma_find(a, '\n');
    let i = text::find(a, '\n') as int;
    if i < a.len() {
        assert(a.contains('\n'));
        lemma_line_of_concat(a, seq!['\n']);
        assert(a + seq!['\n'] =~= t);
        let first = text::trim(text::first_line(a));
        let rest = text::after_line(a);
        lemma_after_line_last(a);
        text::lemma_after_line_shorter(a);
        assert(text::after_line(t) =~= rest.push('\n'));
        assert(rest.len() > 0) by {
            if i == a.len() - 1 {
                assert(a.last() == '\n');
            }
        }
        lemma_hosts_in_newline(rest, line + 1, hosts);
        if !key_files::is_skipped(first) {
            if let Ok((host, key)) = key_text::parsed_known_host(first) {
                lemma_hosts_in_newline(rest, line + 1, hosts.insert(host, key));
            }
        }
    } else {
        assert forall|j: int| 0 <= j < a.len() implies t[j] != '\n' by {
            assert(a[j] != '\n');
        }
        text::lemma_find_is(t, '\n', a.len() as int);
        assert(text::first_line(a) =~= a);
        assert(text::after_line(a) =~= Seq::empty());
        assert(text::after_line(t) =~= Seq::empty());
        if a.last() == '\r' {
            assert(text::first_line(t) =~= a.drop_last());
            assert(a =~= a.drop_last().push('\r'));
            lemma_trim_push(a.drop_last(), '\r');
        } else {
            assert(text::first_line(t) =~= a);
        }
    }
}

/// Base64 text holds no whitespace.
pub proof fn lemma_base64_is_word(data: Seq<u8>)
    ensures
        is_word(base64::base64_text(data)),
    decreases data.len(),
{
    let s = base64::base64_text(data);
    if data.len() > 2 {
        let rest = base64::base64_text(data.skip(3));
        lemma_base64_is_word(data.skip(3));
        assert forall|i: int| 0 <= i < s.len() implies !text::is_whitespace(#[trigger] s[i]) by {
            if i >= 4 {
                assert(s[i] == rest[i - 4]);
            }
        }
    }
}

/// The key type is one word.
proof fn lemma_kind_is_word()
    ensures
        CONN_AUTHORIZED_KEY_KIND@.len() == 13,
        CONN_AUTHORIZED_KEY_KIND@[0] == 'm',
        is_word(CONN_AUTHORIZED_KEY_KIND@),
{
    reveal_strlit("mldsa-ed25519");
}

/// A text that neither starts nor ends with whitespace is not changed by trimming.
proof fn lemma_trim_keeps(s: Seq<char>)
    requires
        s.len() > 0,
        !text::is_whitespace(s.first()),
        !text::is_whitespace(s.last()),
    ensures
        text::trim(s) == s,
{
}

/// A single line with a line ending is that line, with nothing behind it.
proof fn lemma_single_line(line: Seq<char>)
    requires
        line.len() > 0,
        line.last() != '\r',
        !line.contains('\n'),
    ensures
        text::first_line(line.push('\n')) == line,
        text::after_line(line.push('\n')) == Seq::<char>::empty(),
{
    let s = line.push('\n');
    assert forall|j: int| 0 <= j < line.len() implies s[j] != '\n' by {
        assert(line.contains(line[j]));
    }
    text::lemma_find_is(s, '\n', line.len() as int);
    assert(text::first_line(s) =~= line);
    assert(text::after_line(s) =~= Seq::empty());
}

/// What an authorized-keys line looks like.
proof fn lemma_authorized_line_shape(key: Seq<u8>)
    requires
        key.len() > 0,
    ensures
        ({
            let line = key_text::authorized_line(key);
            &&& line.len() > 14
            &&& line[0] == 'm'
            &&& !text::is_whitespace(line.last())
            &&& forall|i: int|
                0 <= i < line.len() ==> #[trigger] line[i] == ' ' || !text::is_whitespace(line[i])
        }),
{
    let line = key_text::authorized_line(key);
    let encoded = base64::base64_text(key);
    base64::law_base64_text_shape(key);
    lemma_base64_is_word(key);
    lemma_kind_is_word();
    assert(line.last() == encoded[encoded.len() - 1]);
    assert forall|i: int| 0 <= i < line.len() implies #[trigger] line[i] == ' '
        || !text::is_whitespace(line[i]) by {
        if i < 13 {
            assert(line[i] == CONN_AUTHORIZED_KEY_KIND@[i]);
        } else if i > 13 {
            assert(line[i] == encoded[i - 14]);
        }
    }
}

/// What a known-hosts line looks like.
proof fn lemma_known_host_line_shape(host: Seq<char>, key: Seq<u8>)
    requires
        host.len() > 0,
        !host.contains('\n'),
        key.len() > 0,
    ensures
        ({
            let line = key_text::known_host_line(host, key);
            &&& line.len() > 0
            &&& line[0] == host[0]
            &&& !text::is_whitespace(line.last())
            &&& !line.contains('\n')
        }),
{
    let line = key_text::known_host_line(host, key);
    let tail = key_text::authorized_line(key);
    lemma_authorized_line_shape(key);
    assert(line.last() == tail[tail.len() - 1]);
    assert forall|i: int| 0 <= i < line.len() implies line[i] != '\n' by {
        if i < host.len() {
            assert(line[i] == host[i]);
            assert(host.contains(host[i]));
        } else if i > host.len() {
            assert(line[i] == tail[i - host.len() - 1]);
        }
    }
}

/// The line of a host that is not known yet adds the host.
proof fn lemma_hosts_in_line(
    host: Seq<char>,
    key: Seq<u8>,
    line: nat,
    hosts: Map<Seq<char>, Seq<u8>>,
)
    requires
        host.len() > 0,
        !host.contains(' '),
        !host.contains('\n'),
        !text::is_whitespace(host[0]),
        host[0] != '#',
        key.len() > 0,
        !hosts.contains_key(host),
    ensures
        key_files::hosts_in(key_text::known_host_line(host, key).push('\n'), line, hosts) == Ok::<
            Map<Seq<char>, Seq<u8>>,
            FileFault,
        >(hosts.insert(host, key)),
{
    let content = key_text::known_host_line(host, key);
    lemma_known_host_line_shape(host, key);
    lemma_single_line(content);
    lemma_trim_keeps(content);
    key_text::law_known_host_round_trip(host, key);
    assert(key_files::hosts_in(Seq::empty(), line + 1, hosts.insert(host, key)) == Ok::<
        Map<Seq<char>, Seq<u8>>,
        FileFault,
    >(hosts.insert(host, key)));
}

/// Once a host has been appended to a known-hosts file, reading the file finds the hosts that were
/// in it before and the new host, with the key that it was added with.
///
/// The host is one that a line can hold: it holds neither a space nor a line feed, and starts with
/// neither whitespace nor the sign of a comment.
pub proof fn law_appended_host_is_found(
    contents: Seq<char>,
    host: Seq<char>,
    key: Seq<u8>,
    hosts: Map<Seq<char>, Seq<u8>>,
)
    requires
        key_files::hosts_in(contents, 1, Map::empty()) == Ok::<Map<Seq<char>, Seq<u8>>, FileFault>(
            hosts,
        ),
        host.len() > 0,
        !host.contains(' '),
        !host.contains('\n'),
        !text::is_whitespace(host[0]),
        host[0] != '#',
        key.len() > 0,
        !hosts.contains_key(host),
    ensures
        key_files::hosts_in(
            contents + key_files::appended(encode_utf8(contents), host, key),
            1,
            Map::empty(),
        ) == Ok::<Map<Seq<char>, Seq<u8>>, FileFault>(hosts.insert(host, key)),
{
    let line = key_text::known_host_line(host, key).push('\n');
    let added = key_files::appended(encode_utf8(contents), host, key);
    assert forall|l: nat| #[trigger]
        key_files::hosts_in(line, l, hosts) == Ok::<Map<Seq<char>, Seq<u8>>, FileFault>(
            hosts.insert(host, key),
        ) by {
        lemma_hosts_in_line(host, key, l, hosts);
    }
    if contents.len() > 0 {
        lemma_last_byte(contents);
        if contents.last() != '\n' {
            lemma_hosts_in_newline(contents, 1, Map::empty());
            lemma_hosts_in_concat(
                contents.push('\n'),
                line,
                1,
                Map::empty(),
                hosts,
                hosts.insert(host, key),
            );
            assert(contents.push('\n') + line =~= contents + added);
        } else {
            lemma_hosts_in_concat(contents, line, 1, Map::empty(), hosts, hosts.insert(host, key));
        }
    } else {
        lemma_hosts_in_concat(contents, line, 1, Map::empty(), hosts, hosts.insert(host, key));
    }
}

/// A file that holds the authorized-keys line of a key, and nothing else, lets that key be used.
pub proof fn law_authorized_line_is_loaded(key: Seq<u8>)
    requires
        key.len() > 0,
    ensures
        key_files::keys_in(key_text::authorized_line(key).push('\n'), 1, Seq::empty()) == Ok::<
            Seq<Seq<u8>>,
            FileFault,
        >(seq![key]),
{
    let line = key_text::authorized_line(key);
    lemma_authorized_line_shape(key);
    lemma_single_line(line);
    lemma_trim_keeps(line);
    key_text::law_authorized_line_round_trip(key);
    assert(Seq::<Seq<u8>>::empty().push(key) =~= seq![key]);
    assert(key_files::keys_in(Seq::empty(), 2, seq![key]) == Ok::<Seq<Seq<u8>>, FileFault>(
        seq![key],
    ));
}

/// A word behind whitespace is one word more.
proof fn lemma_word_count_word(s: Seq<char>, word: Seq<char>)
    requires
        word.len() > 0,
        is_word(word),
        s.len() == 0 || text::is_whitespace(s.last()),
    ensures
        text::word_count(s + word) == text::word_count(s) + 1,
    decreases word.len(),
{
    let t = s + word;
    assert(t.last() == word[word.len() - 1]);
    if word.len() == 1 {
        assert(t.drop_last() =~= s);
    } else {
        let shorter = word.drop_last();
        assert(t.drop_last() =~= s + shorter);
        assert(t[t.len() - 2] == word[word.len() - 2]);
        assert forall|i: int| 0 <= i < shorter.len() implies !text::is_whitespace(
            #[trigger] shorter[i],
        ) by {
            assert(!text::is_whitespace(word[i]));
        }
        lemma_word_count_word(s, shorter);
    }
}

/// Whitespace adds no word.
proof fn lemma_word_count_space(s: Seq<char>)
    ensures
        text::word_count(s.push(' ')) == text::word_count(s),
{
    assert(s.push(' ').drop_last() =~= s);
}

/// A file that holds the authorized-keys line of a key, and nothing else, is a file of that key.
pub proof fn law_public_key_of_authorized_line(key: Seq<u8>)
    requires
        key.len() > 0,
    ensures
        key_files::public_key_in(key_text::authorized_line(key).push('\n'), 1, None) == Ok::<
            Seq<u8>,
            FileFault,
        >(key),
{
    let kind = CONN_AUTHORIZED_KEY_KIND@;
    let line = key_text::authorized_line(key);
    let encoded = base64::base64_text(key);
    lemma_authorized_line_shape(key);
    lemma_single_line(line);
    lemma_trim_keeps(line);
    lemma_kind_is_word();
    lemma_base64_is_word(key);
    base64::law_base64_text_shape(key);
    lemma_word_count_word(Seq::empty(), kind);
    assert(Seq::empty() + kind =~= kind);
    lemma_word_count_space(kind);
    lemma_word_count_word(kind.push(' '), encoded);
    assert(kind.push(' ') + encoded =~= line);
    key_text::law_authorized_line_round_trip(key);
    assert(key_files::public_key_in(Seq::empty(), 2, Some(key)) == Ok::<Seq<u8>, FileFault>(key));
}

} // verus!
