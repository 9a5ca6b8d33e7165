# rustspeak

A voice chat server and its client networking, with the parts that decide
things proved correct in Verus.

## Layout

- `src/` — the verified library.
  - `protocol`, `packet`, `buf`, `endian`: the wire format. Every packet has
    a spec of the bytes it is written as and of how bytes are read back, and
    the round trip (what is written reads back unchanged) is proved.
  - `auth`, `security_level`: the authentication rules and the incremental
    proofs of work that a client attaches to its identity.
  - `profile`, `profile_db`: the client's profiles — 4096-bit RSA keys, the
    identity derived from a key, signatures, and new profiles with their
    first proof of work.
  - `certificate`: the server's certificate chain and key from PEM text.
  - `channels`, `channel_commands`, `db`: channels, permissions, the channel
    and user databases' records and the channel administration commands.
  - `server_state`, `remote_server`: the client's view of a server — the
    connection phase and the channels, groups and members it learns from the
    server's packets, kept consistent packet by packet.
  - `cli`: the command line core (usage descriptions, command lookup).
  - `network`: keep-alive messages and how a payload is split into frames.
  - `screen_sys`: the client's stack of screens and what each frame does to
    it.
  - `audio`, `dims`, `tagged`, `byte_buf_ring`, `mem_order`, `ui_types`,
    `utils`: small encodings and helpers, among them the voice-activity gate.
- `tests/` — tests that run the library with the real outside crates linked.
- `app/` — the server program: sockets, files, the terminal, and the copies
  of library types that carry serde's derives.

Hashing, keys and signatures, PEM parsing, random numbers and byte buffers
come from outside crates (`sha2`, `ripemd`, `openssl`, `rustls-pemfile`,
`rand`, `bytes`); each call goes through a small trusted
wrapper whose contract states what the crate's documentation promises.
