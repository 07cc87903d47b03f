# learning

The networking, map-loading and settings logic of a small multiplayer cube
game, written in Verus: every function in `src/` carries a contract that
Verus proves, and the properties that span several functions stand as
public proof functions (the `lemma_*` items).

## Layout

- `src/` — the verified library.
  - `bitstream`, `bytes`, `huffman`: bit-level packing, little-endian
    readers, the static Huffman string codec.
  - `packet`, `protocol/*`: packet framing, the query and game-info
    formats, A2S challenges.
  - `auth`, `auth_codec`, `connection`, `client`, `server`: the
    challenge/response handshake, session tokens and the server and client
    state machines.
  - `lan_sync`, `sync_codec`, `remote`: the LAN peer protocol, input
    admission on the host, remote-player bookkeeping.
  - `steam_auth`, `steam_browser`: the same decisions for the Steam
    transport, with Steam IDs as plain integers.
  - `wad`, `udmf`, `map_source`, `archive`: Doom WAD lumps, UDMF text maps,
    and maps inside PK3 (zip) archives; `archive` holds the trusted wrappers
    around the `zip` crate.
  - `ergo_preset`, `settings`: tuning presets, key bindings, hex colors.
  - `clock`: system and monotonic clock readings, through trusted
    wrappers of one std function each.
  - `text`: decimal and hex digits and UTF-8 text assembled from bytes, for
    the status lines, metrics overlays and packet-kind names.
- `tests/` — ordinary Rust tests run against the compiled library.
- `app/` — the command-line front end: sockets, files, clocks and the
  floating-point player simulation, which stay outside the verified code.
