# pktscope_core

The engine of a terminal packet analyzer and local egress monitor, written in
Verus: packet decoders, flow tracking and TCP reassembly, display filters,
passive name resolution, anomaly hints, capture diffing, PCAPNG encoding, the
inspector's state reducer and which alerts a flow raises, each with a machine-checked
contract.

## Layout

- `src/` — the verified library. Every executable function carries a
  `requires`/`ensures` contract over spec-level models (`Seq`, `Map`,
  `Multiset`, views of the data types); public `law_*` proof functions state
  properties that relate several calls.
  - `decode/` — Ethernet, ARP, IPv4/IPv6, TCP/UDP, ICMP/ICMPv6, DNS, TLS
    (SNI, JA3/JA4), HTTP/1.1, HTTP/2 with HPACK, QUIC; the layer chain and the
    one-line summary of a packet.
  - `flow/` — direction-independent flow keys, the LRU flow table with
    retransmission detection, DNS query/response pairing, stream reassembly.
  - `filter/` — the display-filter grammar.
  - `enrich/`, `identity.rs`, `process/` — name resolution, address
    classification, binary identities, the socket tables of `/proc/net`,
    `lsof`, `netstat` and `tasklist` (address text is left to the caller).
  - `inspector/`, `monitor/`, `alert/`, `ipc/`, `store/` — the monitor's
    decisions and data types.
- `app/` — what needs the operating system or floating point: files,
  sockets and the daemon socket server, child processes, the SQLite store,
  GeoIP databases, caches, JSON encoding.
- `tests/` — tests of the library on concrete inputs.

Outside crates are reached only through small trusted wrappers, each with a
doc comment that says what its contract claims: `md-5` and `sha2` for the
JA3/JA4 digests and content hashes, `lru` for the flow table.
