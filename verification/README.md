# mymuxer

A server that takes in MPEG transport streams, works on them and sends them on:
programs are picked out and their tables rewritten, clocks are restamped, output
goes out at a constant bitrate, and a program guide is sent beside it.

The library under `src/` holds the data structures, parsers, state machines and
rules, with contracts that Verus proves. `app/` is the server around it: sockets,
files, processes, the HTTP interface, the cipher, JSON and floating point.

- `packet`, `clock`, `bits`: packets, their clocks and their fields
- `psi`: sections, the packets that carry them, and the tables
- `pes`, `probe`: elementary streams, and finding out what a stream holds
- `mux`: the handler that turns an incoming stream into an outgoing one
- `biss`, `proto`: scrambled packets, and RTP
- `epg`, `hls_client`, `http_router`: the guide, live playlists, routers
- `config`, `supervisor`, `workers`, `status`, `misc`: what runs, and what is
  reported of it
- `buffer`, `text`: byte buffers and texts

What the library has from other crates stands behind a few small functions whose
contracts are believed and not proved; the comment above each says what it claims.
