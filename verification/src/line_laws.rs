//! Every line of a file of keys counts.

use vstd::prelude::*;

use crate::file_laws;
use crate::key_files;
use crate::key_files::FileFault;
use crate::key_text;
use crate::key_text::KeyLineFault;
use crate::text;

verus! {

/// The lines `lines`, each with a line feed behind it.
pub open spec fn joined(lines: Seq<Seq<char>>) -> Seq<char>
    decreases lines.len(),
{
    if lines.len() == 0 {
        Seq::empty()
    } else {
        lines[0].push('\n') + joined(lines.drop_first())
    }
}

/// Whether no line of `lines` holds a line feed.
pub open spec fn are_lines(lines: Seq<Seq<char>>) -> bool {
    forall|i: int| 0 <= i < lines.len() ==> !(#[trigger] lines[i]).contains('\n')
}

/// A line that is trimmed is the same with a carriage return behind it.
proof fn lemma_trimmed_line(line: Seq<char>, rest: Seq<char>)
    requires
        !line.contains('\n'),
    ensures
        text::trim(text::first_line(line.push('\n') + rest)) == text::trim(line),
        text::after_line(line.push('\n') + rest) == rest,
{
    text::law_first_line(line, rest);
    if line.len() > 0 && line.last() == '\r' {
        assert(line =~= line.drop_last().push('\r'));
        file_laws::lemma_trim_push(line.drop_last(), '\r');
    }
}

/// Whether a line of an authorized-keys file is blank or holds a key.
pub open spec fn is_good_key_line(line: Seq<char>) -> bool {
    text::trim(line).len() > 0 ==> key_text::parsed_authorized(text::trim(line)) is Ok
}

/// An authorized-keys file is read line by line, wherever the line stands and however many keys
/// came before: a blank line is passed over, the key of any other line comes behind the keys
/// before it, and a line that holds no key fails the file with the number of the line.
pub proof fn law_authorized_file_goes_by_lines(
    line: Seq<char>,
    rest: Seq<char>,
    number: nat,
    keys: Seq<Seq<u8>>,
)
    requires
        !line.contains('\n'),
    ensures
        ({
            let content = text::trim(line);
            let read = key_files::keys_in(line.push('\n') + rest, number, keys);
            &&& content.len() == 0 ==> read == key_files::keys_in(rest, number + 1, keys)
            &&& content.len() > 0 ==> match key_text::parsed_authorized(content) {
                Ok(key) => read == key_files::keys_in(rest, number + 1, keys + seq![key]),
                Err(fault) => read == Err::<Seq<Seq<u8>>, FileFault>(
                    FileFault::Line(number, fault),
                ),
            }
        }),
        key_files::keys_in(Seq::empty(), number, keys) == Ok::<Seq<Seq<u8>>, FileFault>(keys),
{
    lemma_trimmed_line(line, rest);
    match key_text::parsed_authorized(text::trim(line)) {
        Ok(key) => {
            assert(keys.push(key) =~= keys + seq![key]);
        },
        Err(_) => {},
    }
}

/// A line feed at the end of a file that lacks one changes nothing.
pub proof fn law_authorized_file_may_lack_the_last_line_feed(
    file: Seq<char>,
    number: nat,
    keys: Seq<Seq<u8>>,
)
    requires
        file.len() > 0,
        file.last() != '\n',
    ensures
        key_files::keys_in(file.push('\n'), number, keys) == key_files::keys_in(
            file,
            number,
            keys,
        ),
    decreases file.len(),
{
    text::lemma_find(file, '\n');
    let i = text::find(file, '\n') as int;
    let line = file.take(i);
    assert(!line.contains('\n'));
    if i < file.len() {
        let rest = file.skip(i + 1);
        assert(file =~= line.push('\n') + rest);
        assert(file.push('\n') =~= line.push('\n') + rest.push('\n'));
        assert(rest.len() > 0 && rest.last() == file.last());
        law_authorized_file_goes_by_lines(line, rest, number, keys);
        law_authorized_file_goes_by_lines(line, rest.push('\n'), number, keys);
        law_authorized_file_may_lack_the_last_line_feed(rest, number + 1, keys);
        if let Ok(key) = key_text::parsed_authorized(text::trim(line)) {
            law_authorized_file_may_lack_the_last_line_feed(rest, number + 1, keys + seq![key]);
        }
    } else {
        assert(line =~= file);
        law_authorized_file_goes_by_lines(file, Seq::empty(), number, keys);
        assert(file.push('\n') + Seq::empty() =~= file.push('\n'));
        text::law_first_line(file, Seq::empty());
        if let Ok(key) = key_text::parsed_authorized(text::trim(file)) {
            assert(keys.push(key) =~= keys + seq![key]);
            assert(key_files::keys_in(Seq::empty(), number + 1, keys.push(key)) == Ok::<
                Seq<Seq<u8>>,
                FileFault,
            >(keys.push(key)));
        }
        assert(key_files::keys_in(Seq::empty(), number + 1, keys) == Ok::<
            Seq<Seq<u8>>,
            FileFault,
        >(keys));
    }
}

/// The keys of an authorized-keys file come behind the keys that were there before, whichever and
/// however many those are.
pub proof fn law_keys_come_behind_keys(file: Seq<char>, number: nat, keys: Seq<Seq<u8>>)
    ensures
        match key_files::keys_in(file, number, Seq::empty()) {
            Ok(found) => key_files::keys_in(file, number, keys) == Ok::<Seq<Seq<u8>>, FileFault>(
                keys + found,
            ),
            Err(fault) => key_files::keys_in(file, number, keys) == Err::<
                Seq<Seq<u8>>,
                FileFault,
            >(fault),
        },
    decreases file.len(),
{
    let none = Seq::<Seq<u8>>::empty();
    if file.len() == 0 {
        assert(keys + none =~= keys);
    } else {
        text::lemma_after_line_shorter(file);
        let first = text::trim(text::first_line(file));
        let rest = text::after_line(file);
        law_keys_come_behind_keys(rest, number + 1, keys);
        if let Ok(key) = key_text::parsed_authorized(first) {
            law_keys_come_behind_keys(rest, number + 1, keys.push(key));
            law_keys_come_behind_keys(rest, number + 1, none.push(key));
            match key_files::keys_in(rest, number + 1, none) {
                Ok(found) => {
                    assert(keys.push(key) + found =~= keys + (none.push(key) + found));
                },
                Err(_) => {},
            }
        }
    }
}

/// The number of the first line does not change which keys a file holds.
proof fn lemma_number_is_only_reported(
    file: Seq<char>,
    number: nat,
    other: nat,
    keys: Seq<Seq<u8>>,
)
    requires
        key_files::keys_in(file, number, keys) is Ok,
    ensures
        key_files::keys_in(file, other, keys) == key_files::keys_in(file, number, keys),
    decreases file.len(),
{
    if file.len() > 0 {
        text::lemma_after_line_shorter(file);
        let first = text::trim(text::first_line(file));
        let rest = text::after_line(file);
        if first.len() == 0 {
            lemma_number_is_only_reported(rest, number + 1, other + 1, keys);
        } else {
            let key = key_text::parsed_authorized(first)->Ok_0;
            lemma_number_is_only_reported(rest, number + 1, other + 1, keys.push(key));
        }
    }
}

/// Whole lines in front of a file are read before it: where they hold `first`, the file behind
/// them is read with those keys in front.
proof fn lemma_keys_in_concat(
    a: Seq<char>,
    b: Seq<char>,
    number: nat,
    keys: Seq<Seq<u8>>,
    first: Seq<Seq<u8>>,
    second: Seq<Seq<u8>>,
)
    requires
        a.len() == 0 || a.last() == '\n',
        key_files::keys_in(a, number, keys) == Ok::<Seq<Seq<u8>>, FileFault>(first),
        key_files::keys_in(b, 1, Seq::empty()) == Ok::<Seq<Seq<u8>>, FileFault>(second),
    ensures
        key_files::keys_in(a + b, number, keys) == Ok::<Seq<Seq<u8>>, FileFault>(first + second),
    decreases a.len(),
{
    if a.len() == 0 {
        assert(a + b =~= b);
        lemma_number_is_only_reported(b, 1, number, Seq::empty());
        law_keys_come_behind_keys(b, number, keys);
    } else {
        assert(a[a.len() - 1] == '\n');
        file_laws::lemma_line_of_concat(a, b);
        file_laws::lemma_after_line_last(a);
        text::lemma_after_line_shorter(a);
        let line = text::trim(text::first_line(a));
        let rest = text::after_line(a);
        if line.len() == 0 {
            lemma_keys_in_concat(rest, b, number + 1, keys, first, second);
        } else {
            let key = key_text::parsed_authorized(line)->Ok_0;
            lemma_keys_in_concat(rest, b, number + 1, keys.push(key), first, second);
        }
    }
}

/// Where whole lines load as some keys and a file loads as others, the lines followed by the file
/// load as the first keys followed by the others.
pub proof fn law_authorized_files_add_up(
    a: Seq<char>,
    b: Seq<char>,
    first: Seq<Seq<u8>>,
    second: Seq<Seq<u8>>,
)
    requires
        a.len() == 0 || a.last() == '\n',
        key_files::keys_in(a, 1, Seq::empty()) == Ok::<Seq<Seq<u8>>, FileFault>(first),
        key_files::keys_in(b, 1, Seq::empty()) == Ok::<Seq<Seq<u8>>, FileFault>(second),
    ensures
        key_files::keys_in(a + b, 1, Seq::empty()) == Ok::<Seq<Seq<u8>>, FileFault>(
            first + second,
        ),
{
    lemma_keys_in_concat(a, b, 1, Seq::empty(), first, second);
}

/// Appending the line of a key to a file that loads appends the key, however many keys the file
/// holds.
pub proof fn law_appended_key_is_loaded(file: Seq<char>, keys: Seq<Seq<u8>>, key: Seq<u8>)
    requires
        file.len() == 0 || file.last() == '\n',
        key_files::keys_in(file, 1, Seq::empty()) == Ok::<Seq<Seq<u8>>, FileFault>(keys),
        key.len() > 0,
    ensures
        key_files::keys_in(file + key_text::authorized_line(key).push('\n'), 1, Seq::empty())
            == Ok::<Seq<Seq<u8>>, FileFault>(keys + seq![key]),
{
    file_laws::law_authorized_line_is_loaded(key);
    law_authorized_files_add_up(
        file,
        key_text::authorized_line(key).push('\n'),
        keys,
        seq![key],
    );
}

/// Lines and a rest: the lines in front are `lines` without the last one, and the rest starts
/// with the last one.
proof fn lemma_joined_last(lines: Seq<Seq<char>>, rest: Seq<char>)
    requires
        lines.len() > 0,
    ensures
        joined(lines) + rest == joined(lines.drop_last()) + (lines.last().push('\n') + rest),
    decreases lines.len(),
{
    if lines.len() == 1 {
        assert(joined(lines.drop_first()) =~= Seq::empty());
        assert(joined(lines.drop_last()) =~= Seq::empty());
        assert(joined(lines) + rest =~= joined(lines.drop_last()) + (lines.last().push('\n')
            + rest));
    } else {
        let tail = lines.drop_first();
        lemma_joined_last(tail, rest);
        assert(tail.last() == lines.last());
        assert(lines.drop_last().drop_first() =~= tail.drop_last());
        assert(lines.drop_last()[0] == lines[0]);
        let head = lines[0].push('\n');
        assert(joined(lines) + rest =~= head + (joined(tail) + rest));
        assert(joined(lines.drop_last()) + (lines.last().push('\n') + rest) =~= head + (joined(
            tail.drop_last(),
        ) + (lines.last().push('\n') + rest)));
    }
}

/// The contents of the lines that are not blank.
pub open spec fn filled(lines: Seq<Seq<char>>) -> Seq<Seq<char>> {
    lines.map_values(|line: Seq<char>| text::trim(line)).filter(
        |content: Seq<char>| content.len() > 0,
    )
}

/// One line more is one content more, unless the line is blank.
proof fn lemma_filled_last(lines: Seq<Seq<char>>)
    requires
        lines.len() > 0,
    ensures
        filled(lines) == if text::trim(lines.last()).len() > 0 {
            filled(lines.drop_last()).push(text::trim(lines.last()))
        } else {
            filled(lines.drop_last())
        },
{
    reveal(Seq::filter);
    let contents = lines.map_values(|line: Seq<char>| text::trim(line));
    assert(contents.drop_last() =~= lines.drop_last().map_values(
        |line: Seq<char>| text::trim(line),
    ));
    assert(contents.last() == text::trim(lines.last()));
}

/// Good lines are read to their end: what follows them is read with the number of its own line and
/// with one key for every line that is not blank, in order.
proof fn lemma_good_lines(
    lines: Seq<Seq<char>>,
    rest: Seq<char>,
    number: nat,
    keys: Seq<Seq<u8>>,
) -> (found: Seq<Seq<u8>>)
    requires
        are_lines(lines),
        forall|i: int| 0 <= i < lines.len() ==> is_good_key_line(#[trigger] lines[i]),
    ensures
        key_files::keys_in(joined(lines) + rest, number, keys) == key_files::keys_in(
            rest,
            number + lines.len(),
            keys + found,
        ),
        found.len() == filled(lines).len(),
        forall|i: int|
            0 <= i < found.len() ==> key_text::parsed_authorized(filled(lines)[i]) == Ok::<
                Seq<u8>,
                KeyLineFault,
            >(#[trigger] found[i]),
    decreases lines.len(),
{
    let none = Seq::<Seq<u8>>::empty();
    if lines.len() == 0 {
        reveal(Seq::filter);
        assert(joined(lines) + rest =~= rest);
        assert(keys + none =~= keys);
        assert(filled(lines).len() == 0);
        none
    } else {
        let before = lines.drop_last();
        let line = lines.last();
        assert forall|i: int| 0 <= i < before.len() implies !(#[trigger] before[i]).contains(
            '\n',
        ) by {
            assert(before[i] == lines[i]);
        }
        assert forall|i: int| 0 <= i < before.len() implies is_good_key_line(
            #[trigger] before[i],
        ) by {
            assert(before[i] == lines[i]);
        }
        assert(line == lines[lines.len() - 1]);
        assert(is_good_key_line(line));
        lemma_joined_last(lines, rest);
        lemma_filled_last(lines);
        let found = lemma_good_lines(before, line.push('\n') + rest, number, keys);
        law_authorized_file_goes_by_lines(
            line,
            rest,
            (number + before.len()) as nat,
            keys + found,
        );
        let content = text::trim(line);
        if content.len() == 0 {
            found
        } else {
            let key = key_text::parsed_authorized(content)->Ok_0;
            assert((keys + found) + seq![key] =~= keys + found.push(key));
            let all = found.push(key);
            assert forall|i: int| 0 <= i < all.len() implies key_text::parsed_authorized(
                filled(lines)[i],
            ) == Ok::<Seq<u8>, KeyLineFault>(#[trigger] all[i]) by {
                if i < found.len() {
                    assert(all[i] == found[i]);
                    assert(filled(lines)[i] == filled(before)[i]);
                }
            }
            all
        }
    }
}

/// Every line counts: a file whose lines are all blank or hold a key loads, and gives as many keys
/// as it has lines that are not blank, the key of each such line in the place of the line.
pub proof fn law_every_key_line_counts(lines: Seq<Seq<char>>)
    requires
        are_lines(lines),
        forall|i: int| 0 <= i < lines.len() ==> is_good_key_line(#[trigger] lines[i]),
    ensures
        key_files::keys_in(joined(lines), 1, Seq::empty()) matches Ok(keys) && {
            &&& keys.len() == filled(lines).len()
            &&& forall|i: int|
                0 <= i < keys.len() ==> key_text::parsed_authorized(filled(lines)[i]) == Ok::<
                    Seq<u8>,
                    KeyLineFault,
                >(#[trigger] keys[i])
        },
{
    let none = Seq::<Seq<u8>>::empty();
    let found = lemma_good_lines(lines, Seq::empty(), 1, none);
    assert(joined(lines) + Seq::empty() =~= joined(lines));
    assert(none + found =~= found);
    assert(key_files::keys_in(Seq::empty(), 1 + lines.len(), found) == Ok::<
        Seq<Seq<u8>>,
        FileFault,
    >(found));
}

/// The first bad line fails the file, with its own number and what is wrong with it, whatever
/// follows.
pub proof fn law_first_bad_key_line_is_reported(
    lines: Seq<Seq<char>>,
    bad: Seq<char>,
    rest: Seq<char>,
    fault: KeyLineFault,
)
    requires
        are_lines(lines),
        forall|i: int| 0 <= i < lines.len() ==> is_good_key_line(#[trigger] lines[i]),
        !bad.contains('\n'),
        text::trim(bad).len() > 0,
        key_text::parsed_authorized(text::trim(bad)) == Err::<Seq<u8>, KeyLineFault>(fault),
    ensures
        key_files::keys_in(joined(lines) + (bad.push('\n') + rest), 1, Seq::empty()) == Err::<
            Seq<Seq<u8>>,
            FileFault,
        >(FileFault::Line(lines.len() + 1, fault)),
{
    let none = Seq::<Seq<u8>>::empty();
    let found = lemma_good_lines(lines, bad.push('\n') + rest, 1, none);
    law_authorized_file_goes_by_lines(bad, rest, 1 + lines.len(), none + found);
}

/// Every file that is empty or ends with a line feed is made of lines.
pub proof fn law_file_is_lines(file: Seq<char>) -> (lines: Seq<Seq<char>>)
    requires
        file.len() == 0 || file.last() == '\n',
    ensures
        are_lines(lines),
        joined(lines) == file,
    decreases file.len(),
{
    if file.len() == 0 {
        let lines = Seq::<Seq<char>>::empty();
        assert(joined(lines) =~= file);
        lines
    } else {
        text::lemma_find(file, '\n');
        let i = text::find(file, '\n') as int;
        assert(i < file.len()) by {
            if i == file.len() {
                assert(file[file.len() - 1] != '\n');
            }
        }
        let line = file.take(i);
        let rest = file.skip(i + 1);
        assert(!line.contains('\n'));
        assert(rest.len() > 0 ==> rest.last() == file.last());
        let more = law_file_is_lines(rest);
        let lines = seq![line] + more;
        assert(lines.drop_first() =~= more);
        assert(joined(lines) =~= file);
        assert forall|j: int| 0 <= j < lines.len() implies !(#[trigger] lines[j]).contains(
            '\n',
        ) by {
            if j > 0 {
                assert(lines[j] == more[j - 1]);
            }
        }
        lines
    }
}

/// Whether a line of a known-hosts file counts: it is neither blank nor a comment.
pub open spec fn is_entry(line: Seq<char>) -> bool {
    text::trim(line).len() > 0 && text::trim(line)[0] != '#'
}

/// The host that a line names.
pub open spec fn host_of(line: Seq<char>) -> Seq<char> {
    key_text::parsed_known_host(text::trim(line))->Ok_0.0
}

/// The key that a line gives to its host.
pub open spec fn host_key_of(line: Seq<char>) -> Seq<u8> {
    key_text::parsed_known_host(text::trim(line))->Ok_0.1
}

/// A known-hosts file is read line by line, wherever the line stands and however many hosts are
/// known before: blank lines and comments are passed over, a host that is not known yet is added
/// with its key, and a host that is known already, or a line that cannot be read, fails the file
/// with the number of the line.
pub proof fn law_known_hosts_file_goes_by_lines(
    line: Seq<char>,
    rest: Seq<char>,
    number: nat,
    hosts: Map<Seq<char>, Seq<u8>>,
)
    requires
        !line.contains('\n'),
    ensures
        ({
            let read = key_files::hosts_in(line.push('\n') + rest, number, hosts);
            &&& !is_entry(line) ==> read == key_files::hosts_in(rest, number + 1, hosts)
            &&& is_entry(line) ==> match key_text::parsed_known_host(text::trim(line)) {
                Err(fault) => read == Err::<Map<Seq<char>, Seq<u8>>, FileFault>(
                    FileFault::Line(number, fault),
                ),
                Ok((host, key)) => {
                    &&& hosts.contains_key(host) ==> read == Err::<
                        Map<Seq<char>, Seq<u8>>,
                        FileFault,
                    >(FileFault::DuplicateHost(number, host))
                    &&& !hosts.contains_key(host) ==> read == key_files::hosts_in(
                        rest,
                        number + 1,
                        hosts.insert(host, key),
                    )
                },
            }
        }),
        key_files::hosts_in(Seq::empty(), number, hosts) == Ok::<
            Map<Seq<char>, Seq<u8>>,
            FileFault,
        >(hosts),
{
    lemma_trimmed_line(line, rest);
}

/// A line feed at the end of a known-hosts file that lacks one changes nothing.
pub proof fn law_known_hosts_file_may_lack_the_last_line_feed(
    file: Seq<char>,
    number: nat,
    hosts: Map<Seq<char>, Seq<u8>>,
)
    requires
        file.len() > 0,
        file.last() != '\n',
    ensures
        key_files::hosts_in(file.push('\n'), number, hosts) == key_files::hosts_in(
            file,
            number,
            hosts,
        ),
{
    file_laws::lemma_hosts_in_newline(file, number, hosts);
}

/// Every line counts: in a known-hosts file that loads, each line that is neither blank nor a
/// comment names a host of its own, which is found with the key of that line. Hosts that were
/// known before stay as they were, and no other host is known.
pub proof fn law_every_host_line_counts(
    lines: Seq<Seq<char>>,
    number: nat,
    hosts: Map<Seq<char>, Seq<u8>>,
    all: Map<Seq<char>, Seq<u8>>,
)
    requires
        are_lines(lines),
        key_files::hosts_in(joined(lines), number, hosts) == Ok::<
            Map<Seq<char>, Seq<u8>>,
            FileFault,
        >(all),
    ensures
        forall|i: int|
            0 <= i < lines.len() && is_entry(#[trigger] lines[i]) ==> {
                &&& key_text::parsed_known_host(text::trim(lines[i])) is Ok
                &&& !hosts.contains_key(host_of(lines[i]))
                &&& all.contains_key(host_of(lines[i]))
                &&& all[host_of(lines[i])] == host_key_of(lines[i])
            },
        forall|i: int, j: int|
            0 <= i < j < lines.len() && is_entry(#[trigger] lines[i]) && is_entry(
                #[trigger] lines[j],
            ) ==> host_of(lines[i]) != host_of(lines[j]),
        forall|host: Seq<char>| #[trigger]
            hosts.contains_key(host) ==> all.contains_key(host) && all[host] == hosts[host],
        forall|host: Seq<char>| #[trigger]
            all.contains_key(host) && !hosts.contains_key(host) ==> exists|i: int|
                0 <= i < lines.len() && is_entry(#[trigger] lines[i]) && host_of(lines[i]) == host,
    decreases lines.len(),
{
    if lines.len() > 0 {
        let line = lines[0];
        let tail = lines.drop_first();
        assert forall|i: int| 0 <= i < tail.len() implies !(#[trigger] tail[i]).contains('\n') by {
            assert(tail[i] == lines[i + 1]);
        }
        law_known_hosts_file_goes_by_lines(line, joined(tail), number, hosts);
        let next = if is_entry(line) {
            hosts.insert(host_of(line), host_key_of(line))
        } else {
            hosts
        };
        assert(key_files::hosts_in(joined(tail), number + 1, next) == Ok::<
            Map<Seq<char>, Seq<u8>>,
            FileFault,
        >(all));
        law_every_host_line_counts(tail, number + 1, next, all);
        if is_entry(line) {
            assert(next.contains_key(host_of(line)));
        }
        assert forall|i: int| 0 <= i < lines.len() && is_entry(#[trigger] lines[i]) implies {
            &&& key_text::parsed_known_host(text::trim(lines[i])) is Ok
            &&& !hosts.contains_key(host_of(lines[i]))
            &&& all.contains_key(host_of(lines[i]))
            &&& all[host_of(lines[i])] == host_key_of(lines[i])
        } by {
            if i > 0 {
                assert(lines[i] == tail[i - 1]);
                assert(!next.contains_key(host_of(tail[i - 1])));
            }
        }
        assert forall|i: int, j: int|
            0 <= i < j < lines.len() && is_entry(#[trigger] lines[i]) && is_entry(
                #[trigger] lines[j],
            ) implies host_of(lines[i]) != host_of(lines[j]) by {
            assert(lines[j] == tail[j - 1]);
            if i > 0 {
                assert(lines[i] == tail[i - 1]);
            } else {
                assert(!next.contains_key(host_of(tail[j - 1])));
            }
        }
        assert forall|host: Seq<char>| #[trigger]
            hosts.contains_key(host) implies all.contains_key(host) && all[host]
            == hosts[host] by {
            assert(next.contains_key(host));
        }
        assert forall|host: Seq<char>| #[trigger]
            all.contains_key(host) && !hosts.contains_key(host) implies exists|i: int|
            0 <= i < lines.len() && is_entry(#[trigger] lines[i]) && host_of(lines[i]) == host by {
            if is_entry(line) && host_of(line) == host {
                assert(is_entry(lines[0]));
            } else {
                assert(!next.contains_key(host));
                let k = choose|k: int|
                    0 <= k < tail.len() && is_entry(#[trigger] tail[k]) && host_of(tail[k]) == host;
                assert(lines[k + 1] == tail[k]);
            }
        }
    } else {
        assert(joined(lines) =~= Seq::empty());
    }
}

/// Lines that load are read to their end: what follows them is read with the number of its own
/// line and with the hosts that they hold.
pub proof fn law_known_hosts_files_add_up(
    lines: Seq<Seq<char>>,
    rest: Seq<char>,
    number: nat,
    hosts: Map<Seq<char>, Seq<u8>>,
    found: Map<Seq<char>, Seq<u8>>,
)
    requires
        are_lines(lines),
        key_files::hosts_in(joined(lines), number, hosts) == Ok::<
            Map<Seq<char>, Seq<u8>>,
            FileFault,
        >(found),
    ensures
        key_files::hosts_in(joined(lines) + rest, number, hosts) == key_files::hosts_in(
            rest,
            number + lines.len(),
            found,
        ),
    decreases lines.len(),
{
    if lines.len() > 0 {
        let line = lines[0];
        let tail = lines.drop_first();
        assert forall|i: int| 0 <= i < tail.len() implies !(#[trigger] tail[i]).contains('\n') by {
            assert(tail[i] == lines[i + 1]);
        }
        law_known_hosts_file_goes_by_lines(line, joined(tail), number, hosts);
        law_known_hosts_file_goes_by_lines(line, joined(tail) + rest, number, hosts);
        assert(joined(lines) + rest =~= line.push('\n') + (joined(tail) + rest));
        let next = if is_entry(line) {
            hosts.insert(host_of(line), host_key_of(line))
        } else {
            hosts
        };
        assert(key_files::hosts_in(joined(tail), number + 1, next) == Ok::<
            Map<Seq<char>, Seq<u8>>,
            FileFault,
        >(found));
        law_known_hosts_files_add_up(tail, rest, number + 1, next, found);
    } else {
        assert(joined(lines) + rest =~= rest);
        assert(joined(lines) =~= Seq::empty());
    }
}

/// A file of one key is read line by line: blank lines and comments are passed over, a line that
/// cannot be read fails the file, and so does a second key.
pub proof fn law_key_file_goes_by_lines(
    line: Seq<char>,
    rest: Seq<char>,
    number: nat,
    found: Option<Seq<u8>>,
)
    requires
        !line.contains('\n'),
    ensures
        ({
            let read = key_files::public_key_in(line.push('\n') + rest, number, found);
            &&& !is_entry(line) ==> read == key_files::public_key_in(rest, number + 1, found)
            &&& is_entry(line) ==> match key_files::public_key_of_line(text::trim(line), number) {
                Err(fault) => read == Err::<Seq<u8>, FileFault>(fault),
                Ok(key) => {
                    &&& found is Some ==> read == Err::<Seq<u8>, FileFault>(
                        FileFault::MultipleEntries,
                    )
                    &&& found is None ==> read == key_files::public_key_in(
                        rest,
                        number + 1,
                        Some(key),
                    )
                },
            }
        }),
        key_files::public_key_in(Seq::empty(), number, None) == Err::<Seq<u8>, FileFault>(
            FileFault::NoEntry,
        ),
        found matches Some(key) ==> key_files::public_key_in(Seq::empty(), number, found) == Ok::<
            Seq<u8>,
            FileFault,
        >(key),
{
    lemma_trimmed_line(line, rest);
}

/// A line feed at the end of a file of one key that lacks one changes nothing.
pub proof fn law_key_file_may_lack_the_last_line_feed(
    file: Seq<char>,
    number: nat,
    found: Option<Seq<u8>>,
)
    requires
        file.len() > 0,
        file.last() != '\n',
    ensures
        key_files::public_key_in(file.push('\n'), number, found) == key_files::public_key_in(
            file,
            number,
            found,
        ),
    decreases file.len(),
{
    text::lemma_find(file, '\n');
    let i = text::find(file, '\n') as int;
    let line = file.take(i);
    assert(!line.contains('\n'));
    if i < file.len() {
        let rest = file.skip(i + 1);
        assert(file =~= line.push('\n') + rest);
        assert(file.push('\n') =~= line.push('\n') + rest.push('\n'));
        assert(rest.len() > 0 && rest.last() == file.last());
        law_key_file_goes_by_lines(line, rest, number, found);
        law_key_file_goes_by_lines(line, rest.push('\n'), number, found);
        law_key_file_may_lack_the_last_line_feed(rest, number + 1, found);
        if let Ok(key) = key_files::public_key_of_line(text::trim(line), number) {
            law_key_file_may_lack_the_last_line_feed(rest, number + 1, Some(key));
        }
    } else {
        assert(line =~= file);
        law_key_file_goes_by_lines(file, Seq::empty(), number, found);
        assert(file.push('\n') + Seq::empty() =~= file.push('\n'));
        text::law_first_line(file, Seq::empty());
    }
}

/// Behind a key, a file holds only blank lines and comments.
proof fn lemma_nothing_behind_the_key(lines: Seq<Seq<char>>, number: nat, key: Seq<u8>)
    requires
        are_lines(lines),
    ensures
        key_files::public_key_in(joined(lines), number, Some(key)) is Ok <==> forall|i: int|
            0 <= i < lines.len() ==> !is_entry(#[trigger] lines[i]),
        key_files::public_key_in(joined(lines), number, Some(key)) matches Ok(found) ==> found
            == key,
    decreases lines.len(),
{
    if lines.len() > 0 {
        let line = lines[0];
        let tail = lines.drop_first();
        assert forall|i: int| 0 <= i < tail.len() implies !(#[trigger] tail[i]).contains('\n') by {
            assert(tail[i] == lines[i + 1]);
        }
        law_key_file_goes_by_lines(line, joined(tail), number, Some(key));
        lemma_nothing_behind_the_key(tail, number + 1, key);
        if forall|i: int| 0 <= i < lines.len() ==> !is_entry(#[trigger] lines[i]) {
            assert(!is_entry(lines[0]));
            assert forall|i: int| 0 <= i < tail.len() implies !is_entry(#[trigger] tail[i]) by {
                assert(tail[i] == lines[i + 1]);
            }
        } else {
            let k = choose|k: int| 0 <= k < lines.len() && is_entry(#[trigger] lines[k]);
            if k > 0 {
                assert(tail[k - 1] == lines[k]);
            }
        }
    } else {
        assert(joined(lines) =~= Seq::empty());
    }
}

/// A file of one key is one: it loads exactly where one line, and no other, is neither blank nor a
/// comment, and that line holds a key, which is the key of the file.
pub proof fn law_key_file_holds_one_key(lines: Seq<Seq<char>>, number: nat)
    requires
        are_lines(lines),
    ensures
        forall|key: Seq<u8>|
            key_files::public_key_in(joined(lines), number, None) == Ok::<Seq<u8>, FileFault>(key)
                <==> exists|i: int| #[trigger]
                is_only_key(lines, number, i, key),
        (forall|i: int| 0 <= i < lines.len() ==> !is_entry(#[trigger] lines[i]))
            ==> key_files::public_key_in(joined(lines), number, None) == Err::<Seq<u8>, FileFault>(
            FileFault::NoEntry,
        ),
    decreases lines.len(),
{
    let none = Seq::<char>::empty();
    if lines.len() == 0 {
        assert(joined(lines) =~= none);
        law_key_file_goes_by_lines(none, none, number, None);
    } else {
        let line = lines[0];
        let tail = lines.drop_first();
        assert forall|i: int| 0 <= i < tail.len() implies !(#[trigger] tail[i]).contains('\n') by {
            assert(tail[i] == lines[i + 1]);
        }
        law_key_file_goes_by_lines(line, joined(tail), number, None);
        law_key_file_holds_one_key(tail, number + 1);
        let read = key_files::public_key_in(joined(lines), number, None);
        assert forall|key: Seq<u8>|
            read == Ok::<Seq<u8>, FileFault>(key) <==> exists|i: int| #[trigger]
                is_only_key(lines, number, i, key) by {
            if is_entry(line) {
                if let Ok(first) = key_files::public_key_of_line(text::trim(line), number) {
                    lemma_nothing_behind_the_key(tail, number + 1, first);
                }
                if read == Ok::<Seq<u8>, FileFault>(key) {
                    assert forall|j: int| 0 <= j < lines.len() && is_entry(
                        #[trigger] lines[j],
                    ) implies j == 0 by {
                        if j > 0 {
                            assert(tail[j - 1] == lines[j]);
                        }
                    }
                    assert(is_only_key(lines, number, 0, key));
                }
                if exists|i: int| #[trigger] is_only_key(lines, number, i, key) {
                    let i = choose|i: int| #[trigger] is_only_key(lines, number, i, key);
                    assert(is_entry(lines[0]));
                    assert(i == 0);
                    assert forall|j: int| 0 <= j < tail.len() implies !is_entry(
                        #[trigger] tail[j],
                    ) by {
                        assert(tail[j] == lines[j + 1]);
                    }
                }
            } else {
                if read == Ok::<Seq<u8>, FileFault>(key) {
                    let k = choose|k: int| #[trigger] is_only_key(tail, number + 1, k, key);
                    assert(tail[k] == lines[k + 1]);
                    assert forall|j: int| 0 <= j < lines.len() && is_entry(
                        #[trigger] lines[j],
                    ) implies j == k + 1 by {
                        if j > 0 {
                            assert(tail[j - 1] == lines[j]);
                        }
                    }
                    assert(is_only_key(lines, number, k + 1, key));
                }
                if exists|i: int| #[trigger] is_only_key(lines, number, i, key) {
                    let i = choose|i: int| #[trigger] is_only_key(lines, number, i, key);
                    assert(tail[i - 1] == lines[i]);
                    assert forall|j: int| 0 <= j < tail.len() && is_entry(
                        #[trigger] tail[j],
                    ) implies j == i - 1 by {
                        assert(tail[j] == lines[j + 1]);
                    }
                    assert(is_only_key(tail, number + 1, i - 1, key));
                }
            }
        }
        if forall|i: int| 0 <= i < lines.len() ==> !is_entry(#[trigger] lines[i]) {
            assert(!is_entry(lines[0]));
            assert forall|i: int| 0 <= i < tail.len() implies !is_entry(#[trigger] tail[i]) by {
                assert(tail[i] == lines[i + 1]);
            }
        }
    }
}

/// Whether line `i`, counted from none, is the only one of `lines` that is neither blank nor a
/// comment, and holds `key`. The first line has the number `number`.
pub open spec fn is_only_key(
    lines: Seq<Seq<char>>,
    number: nat,
    i: int,
    key: Seq<u8>,
) -> bool {
    &&& 0 <= i < lines.len()
    &&& is_entry(lines[i])
    &&& key_files::public_key_of_line(text::trim(lines[i]), (number + i) as nat) == Ok::<
        Seq<u8>,
        FileFault,
    >(key)
    &&& forall|j: int| 0 <= j < lines.len() && is_entry(#[trigger] lines[j]) ==> j == i
}

/// The key in a line is that of its authorized-keys form where it has two words, and that of its
/// known-hosts form where it has three; any other line is of no form.
pub proof fn law_key_line_goes_by_words(content: Seq<char>, number: nat)
    ensures
        ({
            let words = text::word_count(content);
            let read = key_files::public_key_of_line(content, number);
            &&& words != 2 && words != 3 ==> read == Err::<Seq<u8>, FileFault>(
                FileFault::Shape(number),
            )
            &&& words == 2 ==> match key_text::parsed_authorized(content) {
                Ok(key) => read == Ok::<Seq<u8>, FileFault>(key),
                Err(fault) => read == Err::<Seq<u8>, FileFault>(FileFault::Line(number, fault)),
            }
            &&& words == 3 ==> match key_text::parsed_known_host(content) {
                Ok((_, key)) => read == Ok::<Seq<u8>, FileFault>(key),
                Err(fault) => read == Err::<Seq<u8>, FileFault>(FileFault::Line(number, fault)),
            }
        }),
{
}

} // verus!
