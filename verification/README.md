# inode-vpn

An H3C SSL VPN client for Linux and macOS: a CLI (`inode`), a root daemon
(`inode-vpnd`) driving libopenconnect, and a vpnc-script replacement
(`inode-routectl`) that sets up routes and DNS.

The library in `src/` is written in Verus: its functions carry contracts
that the verifier proves, and the laws that tie them together (redaction
removes every secret that holds no `<` or `>` and is not part of the
marker `<redacted>`, disconnect undoes connect, netmask conversions
invert each other, the daemon runs one engine at a time, a restart waits for the old
engine to stop, ...) are proof
functions named `law_*`.

- `src/` — the verified library: configuration rules, secret redaction,
  the IPC messages, the H3C framing, route planning for Linux and macOS,
  the daemon's session decisions, the network-change filters and the
  service definitions.
- `app/` — the programs around it: sockets, threads, files, processes,
  libopenconnect's FFI and the TOML/JSON encodings. One binary serves all
  three programs and picks its role from the name it is started under.
- `tests/` — tests of the library on concrete values.
