# socks

A SOCKS5 tunnel in two halves: a local client that accepts connections and
forwards them to a remote server, and the server that performs the SOCKS5
handshake and connects to the requested host. Everything between the two is
scrambled with a byte-substitution cipher whose key is a random permutation of
the 256 byte values, shared as base64 text.

- `src/` is the verified library: the cipher (`cipher.rs`), the server's
  handshake-and-relay state machine (`session.rs`), the accept retry policy
  (`backoff.rs`), the configuration and its address texts (`conf.rs`), the
  shutdown flag (`shutdown.rs`), and the contracts of the calls into base64,
  rand, bytes and std (`trusted.rs`).
- `app/` holds the sockets, the tokio tasks, JSON configuration reading and
  the command lines; it performs the actions the library decides.
- `tests/` exercises the library on concrete values.
