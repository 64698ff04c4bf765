//! SSH port-forwarding tunnels: local (`-L`), remote (`-R`) and dynamic
//! SOCKS5 (`-D`). The listeners and channels are the caller's; this module
//! holds a tunnel's configuration and keeps its status as connections come
//! and go and bytes flow.

use vstd::prelude::*;
use crate::text::{chars_of, decimal, push_decimal, string_of};
use crate::transport::TransportSpec;

verus! {

/// Which way a tunnel forwards.
#[derive(PartialEq, Eq, Structural, Clone, Copy, Debug)]
pub enum TunnelKind {
    /// `-L local_port:target_host:target_port`, reached from the SSH server.
    Local,
    /// `-R`: the server's port forwarded to a target reached from here.
    Remote,
    /// `-D local_port`: a SOCKS5 proxy.
    Dynamic,
}

/// A saved tunnel.
#[derive(Debug)]
pub struct TunnelConfig {
    pub id: String,
    pub name: String,
    pub kind: TunnelKind,
    /// The SSH server to tunnel through.
    pub ssh_spec: TransportSpec,
    /// Local bind address, `127.0.0.1` unless configured.
    pub local_addr: String,
    pub local_port: u16,
    /// The forwarding target, `127.0.0.1` unless configured.
    pub target_host: String,
    pub target_port: u16,
}

/// The bind address a tunnel gets when none is configured: loopback only.
pub fn default_bind_addr() -> (r: String)
    ensures
        r@ == "127.0.0.1"@,
{
    "127.0.0.1".to_string()
}

/// The forwarding target a tunnel gets when none is configured.
pub fn default_target_host() -> (r: String)
    ensures
        r@ == "127.0.0.1"@,
{
    "127.0.0.1".to_string()
}

impl TunnelConfig {
    /// The address the tunnel's listener binds: `addr:port`.
    pub fn bind_address(&self) -> (r: String)
        ensures
            r@ == self.local_addr@.push(':') + decimal(self.local_port as nat),
    {
        let mut out = chars_of(self.local_addr.as_str());
        out.push(':');
        push_decimal(self.local_port as u64, &mut out);
        string_of(&out)
    }
}

/// A running tunnel's state, as the UI shows it.
#[derive(Clone, Debug)]
pub struct TunnelStatus {
    pub id: String,
    pub active: bool,
    pub error: Option<String>,
    /// Bytes from the far end to the local client.
    pub bytes_rx: u64,
    /// Bytes from the local client to the far end.
    pub bytes_tx: u64,
    pub active_connections: usize,
}

impl TunnelStatus {
    /// A tunnel that has just started: active, no error, nothing moved.
    pub fn started(id: String) -> (r: TunnelStatus)
        ensures
            r.id@ == id@,
            r.active,
            r.error is None,
            r.bytes_rx == 0 && r.bytes_tx == 0 && r.active_connections == 0,
    {
        TunnelStatus { id, active: true, error: None, bytes_rx: 0, bytes_tx: 0, active_connections: 0 }
    }

    /// A client connected to the tunnel.
    pub fn connection_opened(&mut self)
        requires
            old(self).active_connections < usize::MAX,
        ensures
            final(self).active_connections == old(self).active_connections + 1,
            final(self).bytes_rx == old(self).bytes_rx,
            final(self).bytes_tx == old(self).bytes_tx,
            final(self).active == old(self).active,
            final(self).error == old(self).error,
    {
        self.active_connections = self.active_connections + 1;
    }

    /// A client's connection ended; the count never goes below zero.
    pub fn connection_closed(&mut self)
        ensures
            final(self).active_connections == (if old(self).active_connections > 0 {
                old(self).active_connections - 1
            } else {
                0
            }),
            final(self).bytes_rx == old(self).bytes_rx,
            final(self).bytes_tx == old(self).bytes_tx,
            final(self).active == old(self).active,
            final(self).error == old(self).error,
    {
        if self.active_connections > 0 {
            self.active_connections = self.active_connections - 1;
        }
    }

    /// `n` bytes went from the local client to the far end.
    pub fn sent(&mut self, n: u64)
        requires
            old(self).bytes_tx + n <= u64::MAX,
        ensures
            final(self).bytes_tx == old(self).bytes_tx + n,
            final(self).bytes_rx == old(self).bytes_rx,
            final(self).active_connections == old(self).active_connections,
            final(self).active == old(self).active,
            final(self).error == old(self).error,
    {
        self.bytes_tx = self.bytes_tx + n;
    }

    /// `n` bytes came back from the far end.
    pub fn received(&mut self, n: u64)
        requires
            old(self).bytes_rx + n <= u64::MAX,
        ensures
            final(self).bytes_rx == old(self).bytes_rx + n,
            final(self).bytes_tx == old(self).bytes_tx,
            final(self).active_connections == old(self).active_connections,
            final(self).active == old(self).active,
            final(self).error == old(self).error,
    {
        self.bytes_rx = self.bytes_rx + n;
    }

    /// The tunnel stopped; `error` says why, when it failed.
    pub fn stopped(&mut self, error: Option<String>)
        ensures
            !final(self).active,
            error is Some ==> final(self).error == error,
            error is None ==> final(self).error == old(self).error,
            final(self).bytes_rx == old(self).bytes_rx,
            final(self).bytes_tx == old(self).bytes_tx,
            final(self).active_connections == old(self).active_connections,
    {
        self.active = false;
        if error.is_some() {
            self.error = error;
        }
    }
}

/// The message recorded when the SSH connection for a tunnel fails.
pub fn connection_failed_message(detail: &str) -> (r: String)
    ensures
        r@ == "SSH connection failed: "@ + detail@,
{
    let mut out = "SSH connection failed: ".to_string();
    out.append(detail);
    out
}

} // verus!
