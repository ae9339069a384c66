//! Files of public keys: authorized keys, known hosts, and single keys.

use vstd::prelude::*;
use vstd::slice::slice_to_vec;
use vstd::string::StringExecFns;

use crate::base64;
use crate::bytes;
use crate::crypto;
use crate::crypto::{sha256_bytes, SHA256_DIGEST_LEN};
use crate::key_text;
use crate::key_text::{
    format_known_host, format_sha256_fingerprint, parse_authorized_conn_key, parse_known_host,
    KeyLineError, KeyLineFault, CONN_AUTHORIZED_KEY_KIND,
};
use crate::text;

verus! {

/// What is wrong with a file of keys, as a mathematical value. Lines are numbered from one.
pub enum FileFault {
    Line(nat, KeyLineFault),
    DuplicateHost(nat, Seq<char>),
    Shape(nat),
    MultipleEntries,
    NoEntry,
}

/// What is wrong with a file of keys.
#[derive(Debug)]
pub enum FileError {
    /// A line cannot be read.
    Line { line: usize, error: KeyLineError },
    /// A host has two lines.
    DuplicateHost { line: usize, host: String },
    /// A line has neither two nor three words.
    Shape { line: usize },
    /// There is more than one key.
    MultipleEntries,
    /// There is no key.
    NoEntry,
}

impl View for FileError {
    type V = FileFault;

    open spec fn view(&self) -> FileFault {
        match self {
            FileError::Line { line, error } => FileFault::Line(*line as nat, error@),
            FileError::DuplicateHost { line, host } => FileFault::DuplicateHost(
                *line as nat,
                host@,
            ),
            FileError::Shape { line } => FileFault::Shape(*line as nat),
            FileError::MultipleEntries => FileFault::MultipleEntries,
            FileError::NoEntry => FileFault::NoEntry,
        }
    }
}

/// What is said of a fault in the file `path`.
pub open spec fn file_fault_text(path: Seq<char>, fault: FileFault) -> Seq<char> {
    match fault {
        FileFault::Line(line, fault) => path + ":"@ + text::decimal(line) + ": "@
            + key_text::fault_text(fault),
        FileFault::DuplicateHost(line, host) => path + ":"@ + text::decimal(line) + ": "@
            + "duplicate known-host entry for "@ + host,
        FileFault::Shape(line) => path + ":"@ + text::decimal(line) + ": "@
            + "expected 'mldsa-ed25519 <base64>' or '<host> mldsa-ed25519 <base64>'"@,
        FileFault::MultipleEntries => path + ": expected exactly one public key entry"@,
        FileFault::NoEntry => path + ": no public key entry found"@,
    }
}

/// What is said of a fault in a line starts with the file and the number of the line, and ends
/// with what is wrong; what is said of a fault in the whole file starts with the file.
pub proof fn law_file_fault_names_the_place(
    path: Seq<char>,
    line: nat,
    fault: KeyLineFault,
    host: Seq<char>,
)
    ensures
        ({
            let place = path + ":"@ + text::decimal(line);
            &&& file_fault_text(path, FileFault::Line(line, fault)) == place + ": "@
                + key_text::fault_text(fault)
            &&& file_fault_text(path, FileFault::DuplicateHost(line, host)) == place
                + ": duplicate known-host entry for "@ + host
            &&& file_fault_text(path, FileFault::Shape(line)) == place
                + ": expected 'mldsa-ed25519 <base64>' or '<host> mldsa-ed25519 <base64>'"@
            &&& file_fault_text(path, FileFault::MultipleEntries) == path
                + ": expected exactly one public key entry"@
            &&& file_fault_text(path, FileFault::NoEntry) == path
                + ": no public key entry found"@
        }),
{
    reveal_strlit(": ");
    reveal_strlit("duplicate known-host entry for ");
    reveal_strlit(": duplicate known-host entry for ");
    reveal_strlit("expected 'mldsa-ed25519 <base64>' or '<host> mldsa-ed25519 <base64>'");
    reveal_strlit(": expected 'mldsa-ed25519 <base64>' or '<host> mldsa-ed25519 <base64>'");
    let place = path + ":"@ + text::decimal(line);
    assert(": "@ + "duplicate known-host entry for "@ =~= ": duplicate known-host entry for "@);
    assert(": "@ + "expected 'mldsa-ed25519 <base64>' or '<host> mldsa-ed25519 <base64>'"@
        =~= ": expected 'mldsa-ed25519 <base64>' or '<host> mldsa-ed25519 <base64>'"@);
    assert(file_fault_text(path, FileFault::DuplicateHost(line, host)) =~= place + (": "@
        + "duplicate known-host entry for "@) + host);
    assert(file_fault_text(path, FileFault::Shape(line)) =~= place + (": "@
        + "expected 'mldsa-ed25519 <base64>' or '<host> mldsa-ed25519 <base64>'"@));
}

/// `path`, a colon, the line number, a colon and a space.
fn located(path: &str, line: usize) -> (out: String)
    ensures
        out@ == path@ + ":"@ + text::decimal(line as nat) + ": "@,
{
    let mut out = String::from_str(path);
    out.append(":");
    text::push_decimal(&mut out, line as u64);
    out.append(": ");
    out
}

impl FileError {
    /// Describe the error in words, for the file `path`.
    pub fn message(&self, path: &str) -> (out: String)
        ensures
            out@ == file_fault_text(path@, self@),
    {
        match self {
            FileError::Line { line, error } => {
                let mut out = located(path, *line);
                out.append(error.message().as_str());
                out
            },
            FileError::DuplicateHost { line, host } => {
                let mut out = located(path, *line);
                out.append("duplicate known-host entry for ");
                out.append(host.as_str());
                out
            },
            FileError::Shape { line } => {
                let mut out = located(path, *line);
                out.append("expected 'mldsa-ed25519 <base64>' or '<host> mldsa-ed25519 <base64>'");
                out
            },
            FileError::MultipleEntries => {
                let mut out = String::from_str(path);
                out.append(": expected exactly one public key entry");
                out
            },
            FileError::NoEntry => {
                let mut out = String::from_str(path);
                out.append(": no public key entry found");
                out
            },
        }
    }
}

/// The map in which the pairs `entries` were inserted one after the other.
pub open spec fn map_of<K, V>(entries: Seq<(K, V)>) -> Map<K, V>
    decreases entries.len(),
{
    if entries.len() == 0 {
        Map::empty()
    } else {
        map_of(entries.drop_last()).insert(entries.last().0, entries.last().1)
    }
}

/// Whether no key occurs twice in `entries`.
pub open spec fn distinct<K, V>(entries: Seq<(K, V)>) -> bool {
    forall|i: int, j: int|
        0 <= i < j < entries.len() ==> (#[trigger] entries[i]).0 != (#[trigger] entries[j]).0
}

/// The only pair with a key gives the value of the key.
proof fn lemma_map_of_present<K, V>(entries: Seq<(K, V)>, i: int)
    requires
        distinct(entries),
        0 <= i < entries.len(),
    ensures
        map_of(entries).contains_key(entries[i].0),
        map_of(entries)[entries[i].0] == entries[i].1,
    decreases entries.len(),
{
    let before = entries.drop_last();
    if i < entries.len() - 1 {
        assert(distinct(before)) by {
            assert forall|a: int, b: int| 0 <= a < b < before.len() implies (
            #[trigger] before[a]).0 != (#[trigger] before[b]).0 by {
                assert(entries[a].0 != entries[b].0);
            }
        }
        lemma_map_of_present(before, i);
        assert(before[i] == entries[i]);
        assert(entries[i].0 != entries[entries.len() - 1].0);
    }
}

/// A key that no pair has is not in the map.
proof fn lemma_map_of_absent<K, V>(entries: Seq<(K, V)>, key: K)
    requires
        forall|i: int| 0 <= i < entries.len() ==> (#[trigger] entries[i]).0 != key,
    ensures
        !map_of(entries).contains_key(key),
    decreases entries.len(),
{
    if entries.len() > 0 {
        let before = entries.drop_last();
        assert forall|i: int| 0 <= i < before.len() implies (#[trigger] before[i]).0 != key by {
            assert(entries[i].0 != key);
        }
        lemma_map_of_absent(before, key);
        assert(entries[entries.len() - 1].0 != key);
    }
}

/// Giving the only pair with a key another value gives the key that value.
proof fn lemma_map_of_update<K, V>(entries: Seq<(K, V)>, i: int, value: V)
    requires
        distinct(entries),
        0 <= i < entries.len(),
    ensures
        map_of(entries.update(i, (entries[i].0, value))) == map_of(entries).insert(
            entries[i].0,
            value,
        ),
    decreases entries.len(),
{
    let updated = entries.update(i, (entries[i].0, value));
    let before = entries.drop_last();
    if i == entries.len() - 1 {
        assert(updated.drop_last() =~= before);
    } else {
        assert(distinct(before)) by {
            assert forall|a: int, b: int| 0 <= a < b < before.len() implies (
            #[trigger] before[a]).0 != (#[trigger] before[b]).0 by {
                assert(entries[a].0 != entries[b].0);
            }
        }
        lemma_map_of_update(before, i, value);
        assert(updated.drop_last() =~= before.update(i, (before[i].0, value)));
        assert(entries[i].0 != entries[entries.len() - 1].0);
    }
    assert(map_of(updated) =~= map_of(entries).insert(entries[i].0, value));
}

/// A pair with a new key leaves keys distinct.
proof fn lemma_distinct_push<K, V>(entries: Seq<(K, V)>, key: K, value: V)
    requires
        distinct(entries),
        forall|i: int| 0 <= i < entries.len() ==> (#[trigger] entries[i]).0 != key,
    ensures
        distinct(entries.push((key, value))),
{
    let grown = entries.push((key, value));
    assert forall|i: int, j: int| 0 <= i < j < grown.len() implies (#[trigger] grown[i]).0 != (
    #[trigger] grown[j]).0 by {
        assert(entries[i].0 == grown[i].0);
        if j < entries.len() {
            assert(entries[j].0 == grown[j].0);
        }
    }
}

/// Another value for a key leaves keys distinct.
proof fn lemma_distinct_update<K, V>(entries: Seq<(K, V)>, i: int, value: V)
    requires
        distinct(entries),
        0 <= i < entries.len(),
    ensures
        distinct(entries.update(i, (entries[i].0, value))),
{
    let updated = entries.update(i, (entries[i].0, value));
    assert forall|a: int, b: int| 0 <= a < b < updated.len() implies (#[trigger] updated[a]).0 != (
    #[trigger] updated[b]).0 by {
        assert(updated[a].0 == entries[a].0);
        assert(updated[b].0 == entries[b].0);
    }
}

/// The public keys that clients may use, each found by its SHA-256 digest.
pub struct AuthorizedKeys {
    entries: Vec<([u8; SHA256_DIGEST_LEN], Vec<u8>)>,
}

impl View for AuthorizedKeys {
    type V = Map<Seq<u8>, Seq<u8>>;

    closed spec fn view(&self) -> Map<Seq<u8>, Seq<u8>> {
        map_of(self.pairs())
    }
}

impl AuthorizedKeys {
    /// The digests and keys in the order in which the digests first came.
    closed spec fn pairs(&self) -> Seq<(Seq<u8>, Seq<u8>)> {
        self.entries@.map_values(|e: ([u8; SHA256_DIGEST_LEN], Vec<u8>)| (e.0@, e.1@))
    }

    #[verifier::type_invariant]
    spec fn inv(self) -> bool {
        distinct(self.pairs())
    }

    /// Create an empty set of keys.
    pub fn new() -> (keys: Self)
        ensures
            keys@ == Map::<Seq<u8>, Seq<u8>>::empty(),
    {
        AuthorizedKeys { entries: Vec::new() }
    }

    /// Return how many keys there are.
    pub fn len(&self) -> (n: usize)
        ensures
            n == self@.dom().len(),
            self@.dom().finite(),
    {
        proof {
            use_type_invariant(self);
            lemma_map_of_len(self.pairs());
        }
        self.entries.len()
    }

    /// Where the digest stands.
    fn position(&self, digest: &[u8; SHA256_DIGEST_LEN]) -> (r: Option<usize>)
        ensures
            match r {
                Some(i) => i < self.entries@.len() && self.pairs()[i as int].0 == digest@,
                None => forall|j: int|
                    0 <= j < self.pairs().len() ==> (#[trigger] self.pairs()[j]).0 != digest@,
            },
    {
        let mut i: usize = 0;
        while i < self.entries.len()
            invariant
                i <= self.entries@.len(),
                forall|j: int| 0 <= j < i ==> (#[trigger] self.pairs()[j]).0 != digest@,
            decreases self.entries@.len() - i,
        {
            if bytes::same(self.entries[i].0.as_slice(), digest.as_slice()) {
                return Some(i);
            }
            i = i + 1;
        }
        None
    }

    /// Return the key with the given digest.
    pub fn get(&self, digest: &[u8; SHA256_DIGEST_LEN]) -> (r: Option<&[u8]>)
        ensures
            match r {
                Some(key) => self@.contains_key(digest@) && self@[digest@] == key@,
                None => !self@.contains_key(digest@),
            },
    {
        proof {
            use_type_invariant(self);
        }
        match self.position(digest) {
            Some(i) => {
                proof {
                    lemma_map_of_present(self.pairs(), i as int);
                }
                Some(self.entries[i].1.as_slice())
            },
            None => {
                proof {
                    lemma_map_of_absent(self.pairs(), digest@);
                }
                None
            },
        }
    }

    /// Add a key under the given digest, in place of one that was there.
    pub fn insert(&mut self, digest: [u8; SHA256_DIGEST_LEN], key: Vec<u8>)
        ensures
            final(self)@ == old(self)@.insert(digest@, key@),
    {
        proof {
            use_type_invariant(&*self);
        }
        let found = self.position(&digest);
        let ghost pairs = self.pairs();
        let mut entries: Vec<([u8; SHA256_DIGEST_LEN], Vec<u8>)> = Vec::new();
        std::mem::swap(&mut entries, &mut self.entries);
        let ghost value = key@;
        match found {
            Some(i) => {
                entries.set(i, (digest, key));
                proof {
                    let grown = entries@.map_values(
                        |e: ([u8; SHA256_DIGEST_LEN], Vec<u8>)| (e.0@, e.1@),
                    );
                    assert(grown =~= pairs.update(i as int, (pairs[i as int].0, value)));
                    lemma_map_of_update(pairs, i as int, value);
                    lemma_distinct_update(pairs, i as int, value);
                }
            },
            None => {
                entries.push((digest, key));
                proof {
                    let grown = entries@.map_values(
                        |e: ([u8; SHA256_DIGEST_LEN], Vec<u8>)| (e.0@, e.1@),
                    );
                    assert(grown =~= pairs.push((digest@, value)));
                    assert(grown.drop_last() =~= pairs);
                    lemma_distinct_push(pairs, digest@, value);
                }
            },
        }
        *self = AuthorizedKeys { entries };
    }
}

/// How many keys a map of distinct pairs has.
proof fn lemma_map_of_len<K, V>(entries: Seq<(K, V)>)
    requires
        distinct(entries),
    ensures
        map_of(entries).dom().finite(),
        map_of(entries).dom().len() == entries.len(),
    decreases entries.len(),
{
    if entries.len() > 0 {
        let before = entries.drop_last();
        let key = entries.last().0;
        assert(distinct(before)) by {
            assert forall|a: int, b: int| 0 <= a < b < before.len() implies (
            #[trigger] before[a]).0 != (#[trigger] before[b]).0 by {
                assert(entries[a].0 != entries[b].0);
            }
        }
        lemma_map_of_len(before);
        assert forall|i: int| 0 <= i < before.len() implies (#[trigger] before[i]).0 != key by {
            assert(entries[i].0 != entries[entries.len() - 1].0);
        }
        lemma_map_of_absent(before, key);
        assert(map_of(entries).dom() =~= map_of(before).dom().insert(key));
    }
}

/// The keys `keys`, each found by its SHA-256 digest.
pub open spec fn authorized(keys: Seq<Seq<u8>>) -> Map<Seq<u8>, Seq<u8>>
    decreases keys.len(),
{
    if keys.len() == 0 {
        Map::empty()
    } else {
        authorized(keys.drop_last()).insert(crypto::sha256(keys.last()), keys.last())
    }
}

/// Every key that may be used is one of the given keys, found by its own digest, and every digest
/// of a given key finds a key.
pub proof fn law_authorized_keys_are_found(keys: Seq<Seq<u8>>)
    ensures
        forall|digest: Seq<u8>| #[trigger]
            authorized(keys).contains_key(digest) ==> {
                &&& keys.contains(authorized(keys)[digest])
                &&& crypto::sha256(authorized(keys)[digest]) == digest
            },
        forall|i: int|
            0 <= i < keys.len() ==> authorized(keys).contains_key(
                crypto::sha256(#[trigger] keys[i]),
            ),
    decreases keys.len(),
{
    if keys.len() > 0 {
        let before = keys.drop_last();
        law_authorized_keys_are_found(before);
        assert forall|digest: Seq<u8>| #[trigger]
            authorized(keys).contains_key(digest) implies keys.contains(authorized(keys)[digest])
            && crypto::sha256(authorized(keys)[digest]) == digest by {
            if digest == crypto::sha256(keys.last()) {
                assert(keys[keys.len() - 1] == keys.last());
            } else {
                assert(authorized(before).contains_key(digest));
                let key = authorized(before)[digest];
                let i = choose|i: int| 0 <= i < before.len() && before[i] == key;
                assert(keys[i] == key);
            }
        }
        assert forall|i: int| 0 <= i < keys.len() implies authorized(keys).contains_key(
            crypto::sha256(#[trigger] keys[i]),
        ) by {
            if i < keys.len() - 1 {
                assert(before[i] == keys[i]);
            }
        }
    }
}

/// One key more is found by its own digest; what every other digest finds stays as it was.
pub proof fn law_each_key_is_authorized(keys: Seq<Seq<u8>>, key: Seq<u8>)
    ensures
        authorized(Seq::empty()) == Map::<Seq<u8>, Seq<u8>>::empty(),
        authorized(keys.push(key)).contains_key(crypto::sha256(key)),
        authorized(keys.push(key))[crypto::sha256(key)] == key,
        forall|digest: Seq<u8>|
            digest != crypto::sha256(key) ==> {
                &&& (#[trigger] authorized(keys.push(key)).contains_key(digest)) == authorized(
                    keys,
                ).contains_key(digest)
                &&& authorized(keys).contains_key(digest) ==> authorized(keys.push(key))[digest]
                    == authorized(keys)[digest]
            },
{
    assert(keys.push(key).drop_last() =~= keys);
}

/// Let the keys `keys` be used.
pub fn authorize(keys: &[Vec<u8>]) -> (out: AuthorizedKeys)
    ensures
        out@ == authorized(keys@.map_values(|key: Vec<u8>| key@)),
{
    let mut out = AuthorizedKeys::new();
    let ghost all = keys@.map_values(|key: Vec<u8>| key@);
    let mut i: usize = 0;
    assert(all.take(0) =~= Seq::empty());
    while i < keys.len()
        invariant
            i <= keys@.len(),
            all == keys@.map_values(|key: Vec<u8>| key@),
            out@ == authorized(all.take(i as int)),
        decreases keys@.len() - i,
    {
        let key = slice_to_vec(keys[i].as_slice());
        let digest = sha256_bytes(key.as_slice());
        out.insert(digest, key);
        assert(all.take(i + 1).drop_last() =~= all.take(i as int));
        i = i + 1;
    }
    assert(all.take(i as int) =~= all);
    out
}

/// The keys in the authorized-keys file `contents`, of which line number `line` is the first, after
/// the keys `keys`. Lines of whitespace are skipped.
pub open spec fn keys_in(contents: Seq<char>, line: nat, keys: Seq<Seq<u8>>) -> Result<
    Seq<Seq<u8>>,
    FileFault,
>
    decreases contents.len(),
{
    if contents.len() == 0 {
        Ok(keys)
    } else {
        proof {
            text::lemma_after_line_shorter(contents);
        }
        let first = text::trim(text::first_line(contents));
        let rest = text::after_line(contents);
        if first.len() == 0 {
            keys_in(rest, line + 1, keys)
        } else {
            match key_text::parsed_authorized(first) {
                Err(fault) => Err(FileFault::Line(line, fault)),
                Ok(key) => keys_in(rest, line + 1, keys.push(key)),
            }
        }
    }
}

/// Read the keys of an authorized-keys file, one typed key per line.
pub fn parse_authorized_keys(contents: &str) -> (r: Result<Vec<Vec<u8>>, FileError>)
    ensures
        match r {
            Ok(keys) => keys_in(contents@, 1, Seq::empty()) == Ok::<Seq<Seq<u8>>, FileFault>(
                keys@.map_values(|key: Vec<u8>| key@),
            ),
            Err(e) => keys_in(contents@, 1, Seq::empty()) == Err::<Seq<Seq<u8>>, FileFault>(e@),
        },
{
    let chars = text::chars_of(contents);
    let total: usize = chars.len();
    let mut rest: &[char] = chars.as_slice();
    let mut before: usize = 0;
    let mut keys: Vec<Vec<u8>> = Vec::new();
    assert(keys@.map_values(|key: Vec<u8>| key@) =~= Seq::empty());
    while rest.len() > 0
        invariant
            before + rest@.len() <= total,
            keys_in(contents@, 1, Seq::empty()) == keys_in(
                rest@,
                (before + 1) as nat,
                keys@.map_values(|key: Vec<u8>| key@),
            ),
        decreases rest@.len(),
    {
        proof {
            text::lemma_after_line_shorter(rest@);
        }
        let (first, after) = text::next_line(rest);
        let first = text::trimmed(first);
        if first.len() != 0 {
            match parse_authorized_conn_key(text::string_of(first).as_str()) {
                Err(error) => return Err(FileError::Line { line: before + 1, error }),
                Ok(key) => {
                    let ghost views = keys@.map_values(|key: Vec<u8>| key@);
                    let ghost value = key@;
                    keys.push(key);
                    assert(keys@.map_values(|key: Vec<u8>| key@) =~= views.push(value));
                },
            }
        }
        rest = after;
        before = before + 1;
    }
    Ok(keys)
}

/// Read an authorized-keys file.
pub fn load_authorized_keys(contents: &str) -> (r: Result<AuthorizedKeys, FileError>)
    ensures
        match r {
            Ok(keys) => keys_in(contents@, 1, Seq::empty()) matches Ok(all) && keys@ == authorized(
                all,
            ),
            Err(e) => keys_in(contents@, 1, Seq::empty()) == Err::<Seq<Seq<u8>>, FileFault>(e@),
        },
{
    match parse_authorized_keys(contents) {
        Ok(keys) => Ok(authorize(keys.as_slice())),
        Err(e) => Err(e),
    }
}

/// The public keys of known hosts.
pub struct KnownHosts {
    entries: Vec<(String, Vec<u8>)>,
}

impl View for KnownHosts {
    type V = Map<Seq<char>, Seq<u8>>;

    closed spec fn view(&self) -> Map<Seq<char>, Seq<u8>> {
        map_of(self.pairs())
    }
}

impl KnownHosts {
    /// The hosts and keys in the order in which they came.
    closed spec fn pairs(&self) -> Seq<(Seq<char>, Seq<u8>)> {
        self.entries@.map_values(|e: (String, Vec<u8>)| (e.0@, e.1@))
    }

    #[verifier::type_invariant]
    spec fn inv(self) -> bool {
        distinct(self.pairs())
    }

    /// Create an empty list of hosts.
    pub fn new() -> (hosts: Self)
        ensures
            hosts@ == Map::<Seq<char>, Seq<u8>>::empty(),
    {
        KnownHosts { entries: Vec::new() }
    }

    /// Return whether no host is known.
    pub fn is_empty(&self) -> (r: bool)
        ensures
            r == (self@ == Map::<Seq<char>, Seq<u8>>::empty()),
    {
        proof {
            use_type_invariant(self);
            lemma_map_of_len(self.pairs());
            if self.pairs().len() > 0 {
                lemma_map_of_present(self.pairs(), 0);
            }
        }
        self.entries.len() == 0
    }

    /// Where the host stands.
    fn position(&self, host: &str) -> (r: Option<usize>)
        ensures
            match r {
                Some(i) => i < self.entries@.len() && self.pairs()[i as int].0 == host@,
                None => forall|j: int|
                    0 <= j < self.pairs().len() ==> (#[trigger] self.pairs()[j]).0 != host@,
            },
    {
        let wanted = text::chars_of(host);
        let mut i: usize = 0;
        while i < self.entries.len()
            invariant
                i <= self.entries@.len(),
                wanted@ == host@,
                forall|j: int| 0 <= j < i ==> (#[trigger] self.pairs()[j]).0 != host@,
            decreases self.entries@.len() - i,
        {
            let name = text::chars_of(self.entries[i].0.as_str());
            if text::same(name.as_slice(), wanted.as_slice()) {
                return Some(i);
            }
            i = i + 1;
        }
        None
    }

    /// Return the key of a host.
    pub fn get(&self, host: &str) -> (r: Option<&[u8]>)
        ensures
            match r {
                Some(key) => self@.contains_key(host@) && self@[host@] == key@,
                None => !self@.contains_key(host@),
            },
    {
        proof {
            use_type_invariant(self);
        }
        match self.position(host) {
            Some(i) => {
                proof {
                    lemma_map_of_present(self.pairs(), i as int);
                }
                Some(self.entries[i].1.as_slice())
            },
            None => {
                proof {
                    lemma_map_of_absent(self.pairs(), host@);
                }
                None
            },
        }
    }

    /// Return whether the user has to be asked about a host: one that is known needs no question.
    pub fn needs_question(&self, host: &str) -> (r: bool)
        ensures
            r == !self@.contains_key(host@),
    {
        self.get(host).is_none()
    }

    /// Add a host that is not known yet.
    fn add_new(&mut self, host: String, key: Vec<u8>)
        requires
            !old(self)@.contains_key(host@),
        ensures
            final(self)@ == old(self)@.insert(host@, key@),
    {
        proof {
            use_type_invariant(&*self);
        }
        let ghost pairs = self.pairs();
        let ghost name = host@;
        let ghost value = key@;
        let mut entries: Vec<(String, Vec<u8>)> = Vec::new();
        std::mem::swap(&mut entries, &mut self.entries);
        entries.push((host, key));
        proof {
            let grown = entries@.map_values(|e: (String, Vec<u8>)| (e.0@, e.1@));
            assert(grown =~= pairs.push((name, value)));
            assert(grown.drop_last() =~= pairs);
            assert forall|i: int| 0 <= i < pairs.len() implies (#[trigger] pairs[i]).0 != name by {
                lemma_map_of_present(pairs, i);
            }
            lemma_distinct_push(pairs, name, value);
        }
        *self = KnownHosts { entries };
    }
}

/// Whether a line of a known-hosts file is skipped: an empty one, or a comment.
pub open spec fn is_skipped(line: Seq<char>) -> bool {
    line.len() == 0 || line[0] == '#'
}

/// Whether a line is empty or a comment.
fn skips(line: &[char]) -> (r: bool)
    ensures
        r == is_skipped(line@),
{
    line.len() == 0 || line[0] == '#'
}

/// The hosts in the known-hosts file `contents`, of which line number `line` is the first, added
/// to `hosts`. Lines of whitespace and comments are skipped.
pub open spec fn hosts_in(
    contents: Seq<char>,
    line: nat,
    hosts: Map<Seq<char>, Seq<u8>>,
) -> Result<Map<Seq<char>, Seq<u8>>, FileFault>
    decreases contents.len(),
{
    if contents.len() == 0 {
        Ok(hosts)
    } else {
        proof {
            text::lemma_after_line_shorter(contents);
        }
        let first = text::trim(text::first_line(contents));
        let rest = text::after_line(contents);
        if is_skipped(first) {
            hosts_in(rest, line + 1, hosts)
        } else {
            match key_text::parsed_known_host(first) {
                Err(fault) => Err(FileFault::Line(line, fault)),
                Ok((host, key)) => if hosts.contains_key(host) {
                    Err(FileFault::DuplicateHost(line, host))
                } else {
                    hosts_in(rest, line + 1, hosts.insert(host, key))
                },
            }
        }
    }
}

/// Read a known-hosts file.
pub fn load_known_hosts(contents: &str) -> (r: Result<KnownHosts, FileError>)
    ensures
        match r {
            Ok(hosts) => hosts_in(contents@, 1, Map::empty()) == Ok::<
                Map<Seq<char>, Seq<u8>>,
                FileFault,
            >(hosts@),
            Err(e) => hosts_in(contents@, 1, Map::empty()) == Err::<
                Map<Seq<char>, Seq<u8>>,
                FileFault,
            >(e@),
        },
{
    let chars = text::chars_of(contents);
    let total: usize = chars.len();
    let mut rest: &[char] = chars.as_slice();
    let mut before: usize = 0;
    let mut hosts = KnownHosts::new();
    while rest.len() > 0
        invariant
            before + rest@.len() <= total,
            hosts_in(contents@, 1, Map::empty()) == hosts_in(
                rest@,
                (before + 1) as nat,
                hosts@,
            ),
        decreases rest@.len(),
    {
        proof {
            text::lemma_after_line_shorter(rest@);
        }
        let (first, after) = text::next_line(rest);
        let first = text::trimmed(first);
        if !skips(first) {
            match parse_known_host(text::string_of(first).as_str()) {
                Err(error) => return Err(FileError::Line { line: before + 1, error }),
                Ok((host, key)) => {
                    if hosts.get(host.as_str()).is_some() {
                        return Err(FileError::DuplicateHost { line: before + 1, host });
                    }
                    hosts.add_new(host, key);
                },
            }
        }
        rest = after;
        before = before + 1;
    }
    Ok(hosts)
}

/// Read a known-hosts file that need not exist: where there is none, no host is known.
pub fn load_known_hosts_if_any(contents: Option<&str>) -> (r: Result<KnownHosts, FileError>)
    ensures
        match contents {
            None => r matches Ok(hosts) && hosts@ == Map::<Seq<char>, Seq<u8>>::empty(),
            Some(contents) => match r {
                Ok(hosts) => hosts_in(contents@, 1, Map::empty()) == Ok::<
                    Map<Seq<char>, Seq<u8>>,
                    FileFault,
                >(hosts@),
                Err(e) => hosts_in(contents@, 1, Map::empty()) == Err::<
                    Map<Seq<char>, Seq<u8>>,
                    FileFault,
                >(e@),
            },
        },
{
    match contents {
        None => Ok(KnownHosts::new()),
        Some(contents) => load_known_hosts(contents),
    }
}

/// The key in the file `contents`, of which line number `line` is the first, where `found` is the
/// key of an earlier line. Lines of whitespace and comments are skipped; a line of two words is
/// an authorized key, and one of three words a known host.
pub open spec fn public_key_in(contents: Seq<char>, line: nat, found: Option<Seq<u8>>) -> Result<
    Seq<u8>,
    FileFault,
>
    decreases contents.len(),
{
    if contents.len() == 0 {
        match found {
            Some(key) => Ok(key),
            None => Err(FileFault::NoEntry),
        }
    } else {
        proof {
            text::lemma_after_line_shorter(contents);
        }
        let first = text::trim(text::first_line(contents));
        let rest = text::after_line(contents);
        if is_skipped(first) {
            public_key_in(rest, line + 1, found)
        } else {
            match public_key_of_line(first, line) {
                Err(fault) => Err(fault),
                Ok(key) => if found is Some {
                    Err(FileFault::MultipleEntries)
                } else {
                    public_key_in(rest, line + 1, Some(key))
                },
            }
        }
    }
}

/// The key in line number `line` of a file of one key.
pub open spec fn public_key_of_line(content: Seq<char>, line: nat) -> Result<Seq<u8>, FileFault> {
    if text::word_count(content) == 2 {
        match key_text::parsed_authorized(content) {
            Ok(key) => Ok(key),
            Err(fault) => Err(FileFault::Line(line, fault)),
        }
    } else if text::word_count(content) == 3 {
        match key_text::parsed_known_host(content) {
            Ok((_, key)) => Ok(key),
            Err(fault) => Err(FileFault::Line(line, fault)),
        }
    } else {
        Err(FileFault::Shape(line))
    }
}

/// Read the key in one line of a file of one key.
fn parse_public_key_line(content: &[char], line: usize) -> (r: Result<Vec<u8>, FileError>)
    ensures
        match r {
            Ok(key) => public_key_of_line(content@, line as nat) == Ok::<Seq<u8>, FileFault>(key@),
            Err(e) => public_key_of_line(content@, line as nat) == Err::<Seq<u8>, FileFault>(e@),
        },
{
    let words: usize = text::count_words(content);
    if words == 2 {
        match parse_authorized_conn_key(text::string_of(content).as_str()) {
            Ok(key) => Ok(key),
            Err(error) => Err(FileError::Line { line, error }),
        }
    } else if words == 3 {
        match parse_known_host(text::string_of(content).as_str()) {
            Ok((_, key)) => Ok(key),
            Err(error) => Err(FileError::Line { line, error }),
        }
    } else {
        Err(FileError::Shape { line })
    }
}

/// Load one public key from an authorized-key or known-hosts line.
pub fn load_public_key(contents: &str) -> (r: Result<Vec<u8>, FileError>)
    ensures
        match r {
            Ok(key) => public_key_in(contents@, 1, None) == Ok::<Seq<u8>, FileFault>(key@),
            Err(e) => public_key_in(contents@, 1, None) == Err::<Seq<u8>, FileFault>(e@),
        },
{
    let chars = text::chars_of(contents);
    let total: usize = chars.len();
    let mut rest: &[char] = chars.as_slice();
    let mut before: usize = 0;
    let mut found: Option<Vec<u8>> = None;
    while rest.len() > 0
        invariant
            before + rest@.len() <= total,
            public_key_in(contents@, 1, None) == public_key_in(
                rest@,
                (before + 1) as nat,
                match found {
                    Some(key) => Some(key@),
                    None => None,
                },
            ),
        decreases rest@.len(),
    {
        proof {
            text::lemma_after_line_shorter(rest@);
        }
        let (first, after) = text::next_line(rest);
        let first = text::trimmed(first);
        if !skips(first) {
            let key = match parse_public_key_line(first, before + 1) {
                Ok(key) => key,
                Err(e) => return Err(e),
            };
            if found.is_some() {
                return Err(FileError::MultipleEntries);
            }
            found = Some(key);
        }
        rest = after;
        before = before + 1;
    }
    match found {
        Some(key) => Ok(key),
        None => Err(FileError::NoEntry),
    }
}

/// What is appended to the known-hosts file with the bytes `contents` to add a host: its line, on
/// a line of its own.
pub open spec fn appended(contents: Seq<u8>, host: Seq<char>, key: Seq<u8>) -> Seq<char> {
    let line = key_text::known_host_line(host, key).push('\n');
    if contents.len() > 0 && contents.last() != 10 {
        seq!['\n'] + line
    } else {
        line
    }
}

/// Compute what to append to a known-hosts file to add a host.
pub fn append_known_host(contents: &[u8], host: &str, public_key: &[u8]) -> (out: String)
    ensures
        out@ == appended(contents@, host@, public_key@),
{
    let mut out = String::new();
    if contents.len() > 0 && contents[contents.len() - 1] != 10 {
        out.push('\n');
    }
    out.append(format_known_host(host, public_key).as_str());
    out.push('\n');
    assert(out@ =~= appended(contents@, host@, public_key@));
    out
}

/// What the user is asked about a host whose key, with the given fingerprint, is not known.
pub open spec fn question(host: Seq<char>, fingerprint: Seq<char>) -> Seq<char> {
    "The authenticity of host '"@ + host + "' can't be established.\n"@ + CONN_AUTHORIZED_KEY_KIND@
        + " key fingerprint is "@ + fingerprint
        + "\nAre you sure you want to continue connecting (yes/no)? "@
}

/// What the user is told when a host has been added.
pub open spec fn notice(host: Seq<char>) -> Seq<char> {
    "Warning: Permanently added '"@ + host + "' ("@ + CONN_AUTHORIZED_KEY_KIND@
        + ") to the list of known hosts.\n"@
}

/// Ask about a host whose key has the given fingerprint.
pub fn confirm_question_for(host: &str, fingerprint: &str) -> (out: String)
    ensures
        out@ == question(host@, fingerprint@),
{
    let mut out = String::from_str("The authenticity of host '");
    out.append(host);
    out.append("' can't be established.\n");
    out.append(CONN_AUTHORIZED_KEY_KIND);
    out.append(" key fingerprint is ");
    out.append(fingerprint);
    out.append("\nAre you sure you want to continue connecting (yes/no)? ");
    out
}

/// Ask whether to trust a previously unknown server key.
pub fn confirm_question(host: &str, public_key: &[u8]) -> (out: String)
    ensures
        out@ == question(host@, key_text::digest_text(crypto::sha256(public_key@))),
{
    confirm_question_for(host, format_sha256_fingerprint(public_key).as_str())
}

/// Return whether the user's response accepts a server key: it is `yes`, but for whitespace
/// around it.
pub fn confirms(response: &str) -> (r: bool)
    ensures
        r == (text::trim(response@) == "yes"@),
{
    let chars = text::chars_of(response);
    let yes = text::chars_of("yes");
    text::same(text::trimmed(chars.as_slice()), yes.as_slice())
}

/// Tell that a host has been added.
pub fn added_notice(host: &str) -> (out: String)
    ensures
        out@ == notice(host@),
{
    let mut out = String::from_str("Warning: Permanently added '");
    out.append(host);
    out.append("' (");
    out.append(CONN_AUTHORIZED_KEY_KIND);
    out.append(") to the list of known hosts.\n");
    out
}

/// What is appended to a known-hosts file is one whole line, on a line of its own.
pub proof fn law_appended_line_layout(contents: Seq<u8>, host: Seq<char>, key: Seq<u8>)
    ensures
        contents.len() == 0 || contents[contents.len() - 1] == 10 ==> appended(contents, host, key)
            == host + " mldsa-ed25519 "@ + base64::base64_text(key) + "\n"@,
        contents.len() > 0 && contents[contents.len() - 1] != 10 ==> appended(contents, host, key)
            == "\n"@ + (host + " mldsa-ed25519 "@ + base64::base64_text(key) + "\n"@),
{
    key_text::law_key_line_layout(host, key);
    reveal_strlit("\n");
    assert("\n"@ =~= seq!['\n']);
    let line = key_text::known_host_line(host, key);
    assert(line.push('\n') =~= line + "\n"@);
}

/// What the user is asked and told names the host, the type of its key and, in the question, the
/// fingerprint.
pub proof fn law_question_and_notice(host: Seq<char>, fingerprint: Seq<char>)
    ensures
        question(host, fingerprint) == "The authenticity of host '"@ + host
            + "' can't be established.\nmldsa-ed25519 key fingerprint is "@ + fingerprint
            + "\nAre you sure you want to continue connecting (yes/no)? "@,
        notice(host) == "Warning: Permanently added '"@ + host
            + "' (mldsa-ed25519) to the list of known hosts.\n"@,
{
    reveal_strlit("mldsa-ed25519");
    reveal_strlit("' can't be established.\n");
    reveal_strlit(" key fingerprint is ");
    reveal_strlit("' can't be established.\nmldsa-ed25519 key fingerprint is ");
    assert("' can't be established.\n"@ + CONN_AUTHORIZED_KEY_KIND@ + " key fingerprint is "@
        =~= "' can't be established.\nmldsa-ed25519 key fingerprint is "@);
    assert(question(host, fingerprint) =~= "The authenticity of host '"@ + host + (
    "' can't be established.\n"@ + CONN_AUTHORIZED_KEY_KIND@ + " key fingerprint is "@)
        + fingerprint + "\nAre you sure you want to continue connecting (yes/no)? "@);
    reveal_strlit("' (");
    reveal_strlit(") to the list of known hosts.\n");
    reveal_strlit("' (mldsa-ed25519) to the list of known hosts.\n");
    assert("' ("@ + CONN_AUTHORIZED_KEY_KIND@ + ") to the list of known hosts.\n"@
        =~= "' (mldsa-ed25519) to the list of known hosts.\n"@);
    assert(notice(host) =~= "Warning: Permanently added '"@ + host + ("' ("@
        + CONN_AUTHORIZED_KEY_KIND@ + ") to the list of known hosts.\n"@));
}

} // verus!
