# Hyperion VPN

An administrator's tunnel into servers whose firewalls drop all inbound traffic. One sealed
datagram, a *knock*, opens the tunnel port for the address that it comes from; a
`Noise_IKpsk2_25519_ChaChaPoly_BLAKE2s` handshake then lets in an admin whose key is on the
server's list; and streams over that connection reach the ports that the server permits.

The rules of all this are a library that is proved with [Verus](https://github.com/verus-lang/verus);
the programs around it do the input and output.

## Layout

- `src/tunnel/`: keys, the pre-shared key, knocks, the handshake, the transport, the stream
  protocol, the pool of connections. `crypto.rs` and `encoding.rs` hold the calls into outside
  crates, each with what is taken to be true of it.
- `src/client/`, `src/server/`: the configuration of both ends, virtual addresses, routes, the
  firewall, what the server does about each frame it sees, what is said to the user.
- `src/common.rs`, `src/net.rs`, `src/text.rs`, `src/bytes.rs`, `src/failure.rs`, `src/secret.rs`:
  what they share.
- `tests/`: tests of the library.
- `app/`: the two programs, `hyperion-client` and `hyperion-server`, in one executable. It goes by
  the executable's name, or by a first argument `client` or `server`.

## Reading the contracts

Contracts speak of views: bytes and texts as sequences, a replay guard as a map from nonces to
times, a transport as its keys, counters and buffers. Where a result comes from an outside
primitive, a spec function without a body names it, and the contracts above it speak of that name.

Laws that relate several functions are public proof functions beside them. Among them:

- a knock that is accepted while the memory of nonces has room is not accepted again, and one that
  is fresh and new opens the firewall for the address that it comes from (`tunnel/knock.rs`,
  `server/sniffer.rs`);
- an admin and a server that agree on the pre-shared key end up with the two ends of one tunnel
  (`tunnel/handshake.rs`);
- what one end seals is what the other delivers, in whatever pieces it arrives (`tunnel/noise.rs`);
- a server dials no port that it does not permit (`tunnel/server.rs`);
- no two servers share a virtual address, and adding or removing one changes none of the others
  (`client/addresses.rs`, `client/config.rs`).
