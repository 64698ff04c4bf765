//! Core logic of a multi-session terminal: the byte taps that turn a session
//! stream into logs and command history, the scrollback ring buffer, the
//! encrypted secret vault, known_hosts handling, SOCKS5 tunnelling, remote
//! path arithmetic and the framing used between the UI and the daemon.

pub mod text;
pub mod screen;
pub mod socks5;
pub mod ringbuffer;
pub mod vault;
pub mod paths;
pub mod secrets;
pub mod known_hosts;
pub mod b64;
pub mod rdp;
pub mod transport;
pub mod tap;
pub mod daemon;
pub mod client;
pub mod tunnels;
pub mod session;
pub mod batch;
