# axsh

Secure yet clear-text connections, for links such as amateur radio on which nothing may be
encrypted. Everything that is sent can be read by anyone who listens, and yet nobody can
impersonate either side: servers and clients authenticate each other with long-term keys that sign
with ML-DSA and with Ed25519, and then sign every payload with temporary Ed25519 keys.

## Layout

- `src/` is the library, verified with Verus: base64 and HDLC framing, key bundles and key files,
  signers and verifiers, the packets, both sides of the handshake, and the payload transport. Each
  function states in its contract what it returns, and the proof functions whose names start with
  `law_` state what holds across functions.
- `src/crypto.rs` is where the library meets the `aws-lc-rs` crate. The contracts there are not
  proved; each says what it takes from that crate.
- `app/` holds the programs: `axsh`, `axshd`, `axsh-keygen`, `axsh-pubkey` and `axsh-fingerprint`,
  in one executable that goes by the name it is called with. Files, sockets, child processes and
  async plumbing live here.
- `tests/` runs the library on concrete values, with the real cryptography.

## Usage

```
$ axsh-keygen server.key
$ axsh-keygen client.key
$ axsh-pubkey client.key > authorized_keys
$ axsh-pubkey server.key | axsh-fingerprint /dev/stdin
$ axshd -k server.key -a authorized_keys --agw-addr 127.0.0.1:8010 -l M0QQQ-1
$ axsh -k client.key -s M0QQQ-2 --agw-addr 127.0.0.1:8000 M0QQQ-1
```

Without `--agw-addr`, the server listens on TCP port 12345 and the client takes a host and a port.
