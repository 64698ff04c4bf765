# terminator

The verified core of a multi-session terminal (local shells, SSH, RDP), written in
Verus. Everything under `src/` is proved against its contract; `app/` is the daemon
that puts the core to work over processes, files, SQLite and HTTP.

## Layout

- `src/text.rs` — strings as character sequences: trimming, splitting, words and
  lines, decimal formatting and parsing, UTF-8 and lowercase conversions.
- `src/screen.rs` — the headless screen model behind the plain-text log: line
  editing, the alternate screen, and OSC 133 command records.
- `src/tap.rs` — the fan-out of a session's bytes to its taps, and the flush policy
  of the asciinema recorder.
- `src/session.rs` — the output pump: coalescing chunks into batches, with the
  proof that no byte is lost, duplicated or reordered.
- `src/ringbuffer.rs` — the daemon's scrollback buffer and its line search.
- `src/vault.rs`, `src/secrets.rs` — the Argon2id / XChaCha20-Poly1305 secret vault,
  and the credential store that chooses between it and the OS keychain.
- `src/known_hosts.rs` — parsing, deleting and adding OpenSSH `known_hosts` entries.
- `src/transport.rs` — connection specs, session titles, the host-key decision,
  shell discovery and log file locations.
- `src/socks5.rs`, `src/tunnels.rs` — the SOCKS5 handshake of dynamic tunnels and
  tunnel status accounting.
- `src/paths.rs` — POSIX path arithmetic, directory listings, transfer progress and
  safe file names.
- `src/rdp.rs` — RDP messages, damage rectangles, framebuffer repacking, the
  clipboard channel's decisions and text, and connection error hints.
- `src/daemon.rs`, `src/client.rs`, `src/b64.rs` — the daemon's bookkeeping and the
  UI side of its HTTP/SSE link, including the respawn-and-retry-once policy.
- `src/batch.rs` — running a command on many hosts: secret choice and per-host
  reports.

Calls into other crates (Argon2, XChaCha20-Poly1305, base64, ssh-key fingerprints,
`Path::file_name`, UTF-16 and lowercase conversions, JSON, zeroizing) stand behind small trusted
wrappers whose doc comments say what is assumed of them.
