# torrs

A BitTorrent client: it reads a `.torrent` file, asks the trackers for
peers, downloads the pieces from the peers and assembles the files. Magnet
links are parsed, and their metadata can be fetched from peers (BEP 9).

The library under `src/` is verified with Verus. The contracts state what the
functions return, except where the result comes from chance (the random bytes
of a peer id, transaction ids) or from an outside crate's own text (the
detail of a bencode error). The laws that tie several functions together are
proof functions named `law_*`.

- `mapper` — the torrent metainfo: trackers, pieces, sizes, file layout, and
  the info hash (SHA-1 of the bencoded `info` dictionary).
- `bencode` — bencoded values, decoded and encoded with `serde_bencode`.
- `magnet` — magnet links and the metadata exchange.
- `tracker` — HTTP announce URLs, the UDP tracker protocol, compact peer lists.
- `peer` — the peer wire protocol: handshake, message codec, peer state,
  block requests.
- `download` — piece availability, piece lengths, retries, the order in which
  pieces are fetched from peers, and the assembly of the files.
- `wire`, `text`, `digest`, `error`, `cli` — big-endian framing, text
  rendering, SHA-1, errors, and the checks on command-line paths.

`app/` is the program around the library: argument parsing, sockets, files,
timeouts and concurrency. It performs the I/O and hands the results to the
library, which decides what comes next.
