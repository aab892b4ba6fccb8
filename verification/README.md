# bagua-net

The core of a network plugin for collective communication. Tensors go over a
user-space TCP stack (libtpa); tagged chunks are mirrored to storage servers.

- `src/` is the library. Everything in it is verified with Verus.
  - `plugin` – communicators and requests, and the ports, cores and storage
    servers that go with them
  - `request` – how far a request has come
  - `sender` – which storage server a bucket goes to, and at which byte of that
    server's stream a chunk begins
  - `sending`, `receiver` – the steps of a transfer at either end
  - `reader`, `writer` – the steps of moving bytes over a connection
  - `repeater`, `wire` – mirroring, and what travels beside the payload
  - `roundtrip` – both ends together: what one side sends, the other receives,
    and both are told of it
  - `tcp` – what the calls into the TCP stack mean for a connection
  - `config`, `env`, `interface`, `text` – settings, the stack's configuration
    file, addresses and their text
- `app/` is ordinary Rust around it: threads, channels, the environment and the
  calls into libtpa, for which it needs the `libtcp` bindings.
- `tests/` runs the library.

One call is trusted: `bincode::serialize` on a pair of integers, in `wire`.
