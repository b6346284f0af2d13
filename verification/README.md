# extra_peers

Support for extra WireGuard peers next to the VPN relay: reading them from an
`extra-peers.conf` file, source NAT of their traffic on the tun device, and the
decisions that keep their endpoints resolved.

`src/` is the verified library:

- `checksum` — ones' complement arithmetic and the RFC 1624 incremental checksum
  update, with the laws that the update compensates an address change exactly and
  that replacing an address and replacing it back restores the checksum.
- `packet` — rewriting the source or destination of an IPv4 packet with the header
  and TCP/UDP checksum updates, and the laws that the checksummed sums are kept and
  that a rewrite and its inverse restore the packet.
- `snat` — the SNAT configuration and the outbound/inbound rewriting, with laws on
  checksums, addresses and idempotence.
- `net`, `peer`, `text` — addresses and networks (through `ipnetwork` and `gotatun`),
  keys (through `base64`), and character-level text handling.
- `config` — the configuration file format, with the law that every peer read is
  complete and that no peer with a default route is loaded.
- `manager` — endpoint selection and the per-peer manager's decisions.

`app/` holds what runs around it: reading the file, the async tun adapters, the
per-peer tasks, and conversions to GotaTun's types. `tests/` exercise the library.
