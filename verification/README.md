# snail

The policy core of a mail server, in Verus: sender authentication, transport policy and
the security services around a connection. Every function of `src/`, but for the declared
calls into other crates, is verified against its contract.

- `src/network/`: DNS record grammars, SPF, DKIM, DMARC, MTA-STS, DANE and TLS
  configuration.
- `src/security/`: firewall, greylisting, authentication throttling, the hash-chained
  audit log, password hashing, secret encryption and credential stores.
- `src/utilities/`: configuration and its errors.
- `src/text.rs`, `src/bytes.rs`, `src/ip.rs`, `src/clock.rs`, `src/assoc.rs`,
  `src/ring.rs`: what the rest is built from. `src/ip_laws.rs` proves that addresses
  survive being written and read.
- `app/`: sockets, DNS queries, files, clocks and TLS handshakes around the library.
- `tests/`: the library on concrete values.

Functions named `law_..` are the properties that hold across calls, such as that an SPF
evaluation ends within its lookup budget, that an edited audit record is detected, or
that an address over its quota recovers. Cryptography, certificate parsing and rate
metering are other crates' work; each call is declared next to its use, with what is
taken for granted of it.
