//! The SOCKS5 handshake of the dynamic (`-D`) tunnel, as a state machine.
//!
//! The owner of the client socket asks how many bytes the handshake wants
//! next, reads exactly that many, and feeds them in; each step says whether
//! to keep reading, what to send back, which target to connect to, or why the
//! client is refused. Only the CONNECT command is supported, without
//! authentication.

use vstd::prelude::*;
use crate::text::{decimal, push_decimal, lossy_text, lossy};

verus! {

/// Why a client was refused.
#[derive(PartialEq, Eq, Structural, Clone, Copy, Debug)]
pub enum Socks5Error {
    /// The greeting named a protocol version other than 5.
    UnsupportedVersion(u8),
    /// The request named a protocol version other than 5.
    InvalidRequestVersion,
    /// A command other than CONNECT.
    UnsupportedCommand(u8),
    /// An address type other than IPv4, domain name or IPv6.
    UnsupportedAddressType(u8),
}

/// The text of a refusal.
pub open spec fn error_text(e: Socks5Error) -> Seq<char> {
    match e {
        Socks5Error::UnsupportedVersion(v) => "unsupported SOCKS version: "@ + decimal(v as nat),
        Socks5Error::InvalidRequestVersion => "invalid SOCKS version in request"@,
        Socks5Error::UnsupportedCommand(c) => "unsupported SOCKS5 command "@ + decimal(c as nat),
        Socks5Error::UnsupportedAddressType(a) => "unsupported address type "@ + decimal(a as nat),
    }
}

impl Socks5Error {
    /// The text logged for a refused client.
    pub fn message(&self) -> (r: String)
        ensures
            r@ == error_text(*self),
    {
        match *self {
            Socks5Error::UnsupportedVersion(v) => {
                let mut out = crate::text::chars_of("unsupported SOCKS version: ");
                push_decimal(v as u64, &mut out);
                crate::text::string_of(&out)
            },
            Socks5Error::InvalidRequestVersion => "invalid SOCKS version in request".to_string(),
            Socks5Error::UnsupportedCommand(c) => {
                let mut out = crate::text::chars_of("unsupported SOCKS5 command ");
                push_decimal(c as u64, &mut out);
                crate::text::string_of(&out)
            },
            Socks5Error::UnsupportedAddressType(a) => {
                let mut out = crate::text::chars_of("unsupported address type ");
                push_decimal(a as u64, &mut out);
                crate::text::string_of(&out)
            },
        }
    }
}

/// Where the client wants to go.
#[derive(Clone, Debug)]
pub enum Target {
    /// IPv4 address, formatted as dotted decimal.
    Ipv4(String),
    /// Domain name, decoded lossily as UTF-8.
    Domain(String),
    /// IPv6 address, as its sixteen bytes in network order.
    Ipv6(Vec<u8>),
}

pub enum TargetView {
    Ipv4(Seq<char>),
    Domain(Seq<char>),
    Ipv6(Seq<u8>),
}

impl View for Target {
    type V = TargetView;

    open spec fn view(&self) -> TargetView {
        match self {
            Target::Ipv4(s) => TargetView::Ipv4(s@),
            Target::Domain(s) => TargetView::Domain(s@),
            Target::Ipv6(b) => TargetView::Ipv6(b@),
        }
    }
}

/// What to do after feeding bytes in.
#[derive(Debug)]
pub enum Step {
    /// Read `want()` more bytes.
    Continue,
    /// Send these bytes, then read `want()` more.
    Send(Vec<u8>),
    /// The request is complete: open a channel to `target:port`.
    Connect { target: Target, port: u16 },
    /// Refuse the client: send `reply` if there is one, then drop it.
    Refuse { reply: Option<Vec<u8>>, error: Socks5Error },
}

pub enum StepView {
    Continue,
    Send(Seq<u8>),
    Connect { target: TargetView, port: u16 },
    Refuse { reply: Option<Seq<u8>>, error: Socks5Error },
}

impl View for Step {
    type V = StepView;

    open spec fn view(&self) -> StepView {
        match self {
            Step::Continue => StepView::Continue,
            Step::Send(b) => StepView::Send(b@),
            Step::Connect { target, port } => StepView::Connect { target: target@, port: *port },
            Step::Refuse { reply, error } => StepView::Refuse {
                reply: match reply {
                    Some(r) => Some(r@),
                    None => None,
                },
                error: *error,
            },
        }
    }
}

/// How far the handshake has got.
#[derive(PartialEq, Eq, Structural, Clone, Copy, Debug)]
pub enum Stage {
    /// Waiting for VER and NMETHODS.
    Greeting,
    /// Waiting for the offered methods (ignored).
    Methods(u8),
    /// Waiting for VER, CMD, RSV, ATYP.
    Request,
    /// Waiting for an IPv4 address and port.
    Ipv4,
    /// Waiting for the length of a domain name.
    DomainLen,
    /// Waiting for a domain name of this length and the port.
    Domain(u8),
    /// Waiting for an IPv6 address and port.
    Ipv6,
    /// The handshake is over.
    Finished,
}

/// Bytes the handshake wants in `stage`.
pub open spec fn want_spec(stage: Stage) -> nat {
    match stage {
        Stage::Greeting => 2,
        Stage::Methods(n) => n as nat,
        Stage::Request => 4,
        Stage::Ipv4 => 6,
        Stage::DomainLen => 1,
        Stage::Domain(n) => n as nat + 2,
        Stage::Ipv6 => 18,
        Stage::Finished => 0,
    }
}

/// "No authentication required".
pub open spec fn greeting_reply() -> Seq<u8> {
    seq![0x05u8, 0x00u8]
}

/// A reply with status `code` and an empty IPv4 bind address.
pub open spec fn failure_reply(code: u8) -> Seq<u8> {
    seq![0x05u8, code, 0x00u8, 0x01u8, 0u8, 0u8, 0u8, 0u8, 0u8, 0u8]
}

/// The reply once the channel to the target is open: success, bound to
/// 127.0.0.1 port 0.
pub open spec fn success_reply() -> Seq<u8> {
    seq![0x05u8, 0x00u8, 0x00u8, 0x01u8, 127u8, 0u8, 0u8, 1u8, 0u8, 0u8]
}

/// Big-endian port from two bytes.
pub open spec fn port_of(hi: u8, lo: u8) -> u16 {
    (hi as nat * 256 + lo as nat) as u16
}

/// Dotted-decimal text of an IPv4 address.
pub open spec fn ipv4_text(b: Seq<u8>) -> Seq<char> {
    decimal(b[0] as nat).push('.') + decimal(b[1] as nat).push('.') + decimal(b[2] as nat).push('.')
        + decimal(b[3] as nat)
}

/// The next stage and step after feeding `b` (of `want_spec(stage)` bytes).
pub open spec fn feed_spec(stage: Stage, b: Seq<u8>) -> (Stage, StepView) {
    match stage {
        Stage::Greeting => if b[0] != 5 {
            (Stage::Finished, StepView::Refuse { reply: None, error: Socks5Error::UnsupportedVersion(b[0]) })
        } else if b[1] == 0 {
            (Stage::Request, StepView::Send(greeting_reply()))
        } else {
            (Stage::Methods(b[1]), StepView::Continue)
        },
        Stage::Methods(_) => (Stage::Request, StepView::Send(greeting_reply())),
        Stage::Request => if b[0] != 5 {
            (Stage::Finished, StepView::Refuse { reply: None, error: Socks5Error::InvalidRequestVersion })
        } else if b[1] != 1 {
            (
                Stage::Finished,
                StepView::Refuse { reply: Some(failure_reply(0x07)), error: Socks5Error::UnsupportedCommand(b[1]) },
            )
        } else if b[3] == 1 {
            (Stage::Ipv4, StepView::Continue)
        } else if b[3] == 3 {
            (Stage::DomainLen, StepView::Continue)
        } else if b[3] == 4 {
            (Stage::Ipv6, StepView::Continue)
        } else {
            (
                Stage::Finished,
                StepView::Refuse { reply: Some(failure_reply(0x08)), error: Socks5Error::UnsupportedAddressType(b[3]) },
            )
        },
        Stage::Ipv4 => (
            Stage::Finished,
            StepView::Connect { target: TargetView::Ipv4(ipv4_text(b.take(4))), port: port_of(b[4], b[5]) },
        ),
        Stage::DomainLen => (Stage::Domain(b[0]), StepView::Continue),
        Stage::Domain(n) => (
            Stage::Finished,
            StepView::Connect {
                target: TargetView::Domain(lossy_text(b.take(n as int))),
                port: port_of(b[n as int], b[n as int + 1]),
            },
        ),
        Stage::Ipv6 => (
            Stage::Finished,
            StepView::Connect { target: TargetView::Ipv6(b.take(16)), port: port_of(b[16], b[17]) },
        ),
        Stage::Finished => (Stage::Finished, StepView::Continue),
    }
}


/// How many feeds, at most, are left before the handshake is over.
pub open spec fn feeds_left(stage: Stage) -> nat {
    match stage {
        Stage::Greeting => 5,
        Stage::Methods(_) => 4,
        Stage::Request => 3,
        Stage::DomainLen => 2,
        Stage::Ipv4 => 1,
        Stage::Domain(_) => 1,
        Stage::Ipv6 => 1,
        Stage::Finished => 0,
    }
}

/// Every feed moves an unfinished handshake forward, so a client gets an
/// answer (a target to connect to, or a refusal) after at most five reads;
/// and once it is over, it stays over.
pub proof fn handshake_always_progresses(stage: Stage, b: Seq<u8>)
    requires
        b.len() == want_spec(stage),
    ensures
        stage != Stage::Finished ==> feeds_left(feed_spec(stage, b).0) < feeds_left(stage),
        stage == Stage::Finished ==> feed_spec(stage, b).0 == Stage::Finished,
        feed_spec(stage, b).0 == Stage::Finished <==> (stage == Stage::Finished || feed_spec(stage, b).1 is Connect
            || feed_spec(stage, b).1 is Refuse),
{
}

/// The first `n` bytes of `b`.
fn prefix(b: &[u8], n: usize) -> (r: Vec<u8>)
    requires
        n <= b@.len(),
    ensures
        r@ == b@.take(n as int),
{
    let mut r: Vec<u8> = Vec::new();
    let mut i: usize = 0;
    while i < n
        invariant
            i <= n <= b@.len(),
            r@ == b@.take(i as int),
        decreases n - i,
    {
        r.push(b[i]);
        i = i + 1;
    }
    r
}

/// Dotted-decimal text of the IPv4 address in `b[0..4]`.
pub fn ipv4_string(b: &[u8]) -> (r: String)
    requires
        b@.len() >= 4,
    ensures
        r@ == ipv4_text(b@),
{
    let mut v: Vec<char> = Vec::new();
    push_decimal(b[0] as u64, &mut v);
    v.push('.');
    push_decimal(b[1] as u64, &mut v);
    v.push('.');
    push_decimal(b[2] as u64, &mut v);
    v.push('.');
    push_decimal(b[3] as u64, &mut v);
    crate::text::string_of(&v)
}

/// The reply that tells the client its channel is open.
pub fn connect_succeeded_reply() -> (r: Vec<u8>)
    ensures
        r@ == success_reply(),
{
    let r = vec![0x05u8, 0x00u8, 0x00u8, 0x01u8, 127u8, 0u8, 0u8, 1u8, 0u8, 0u8];
    assert(r@ == success_reply());
    r
}

/// The reply that tells the client the channel could not be opened
/// (general failure).
pub fn connect_failed_reply() -> (r: Vec<u8>)
    ensures
        r@ == failure_reply(0x01),
{
    let r = vec![0x05u8, 0x01u8, 0x00u8, 0x01u8, 0u8, 0u8, 0u8, 0u8, 0u8, 0u8];
    assert(r@ == failure_reply(0x01));
    r
}

fn failure(code: u8) -> (r: Vec<u8>)
    ensures
        r@ == failure_reply(code),
{
    let r = vec![0x05u8, code, 0x00u8, 0x01u8, 0u8, 0u8, 0u8, 0u8, 0u8, 0u8];
    assert(r@ == failure_reply(code));
    r
}

/// One client's SOCKS5 handshake.
pub struct Socks5Handshake {
    stage: Stage,
}

impl Socks5Handshake {
    pub closed spec fn stage(&self) -> Stage {
        self.stage
    }

    /// A handshake waiting for the client's greeting.
    pub fn new() -> (r: Socks5Handshake)
        ensures
            r.stage() == Stage::Greeting,
    {
        Socks5Handshake { stage: Stage::Greeting }
    }

    /// How many bytes to read next.
    pub fn want(&self) -> (n: usize)
        ensures
            n == want_spec(self.stage()),
    {
        match self.stage {
            Stage::Greeting => 2,
            Stage::Methods(n) => n as usize,
            Stage::Request => 4,
            Stage::Ipv4 => 6,
            Stage::DomainLen => 1,
            Stage::Domain(n) => n as usize + 2,
            Stage::Ipv6 => 18,
            Stage::Finished => 0,
        }
    }

    /// Whether the handshake is over.
    pub fn is_finished(&self) -> (r: bool)
        ensures
            r == (self.stage() == Stage::Finished),
    {
        match self.stage {
            Stage::Finished => true,
            _ => false,
        }
    }

    /// Feeds in exactly `want()` bytes read from the client.
    pub fn feed(&mut self, b: &[u8]) -> (step: Step)
        requires
            b@.len() == want_spec(old(self).stage()),
        ensures
            (final(self).stage(), step@) == feed_spec(old(self).stage(), b@),
    {
        match self.stage {
            Stage::Greeting => {
                if b[0] != 5 {
                    self.stage = Stage::Finished;
                    Step::Refuse { reply: None, error: Socks5Error::UnsupportedVersion(b[0]) }
                } else if b[1] == 0 {
                    self.stage = Stage::Request;
                    let r = vec![0x05u8, 0x00u8];
                    assert(r@ == greeting_reply());
                    Step::Send(r)
                } else {
                    self.stage = Stage::Methods(b[1]);
                    Step::Continue
                }
            },
            Stage::Methods(_) => {
                self.stage = Stage::Request;
                let r = vec![0x05u8, 0x00u8];
                assert(r@ == greeting_reply());
                Step::Send(r)
            },
            Stage::Request => {
                if b[0] != 5 {
                    self.stage = Stage::Finished;
                    Step::Refuse { reply: None, error: Socks5Error::InvalidRequestVersion }
                } else if b[1] != 1 {
                    self.stage = Stage::Finished;
                    Step::Refuse { reply: Some(failure(0x07)), error: Socks5Error::UnsupportedCommand(b[1]) }
                } else if b[3] == 1 {
                    self.stage = Stage::Ipv4;
                    Step::Continue
                } else if b[3] == 3 {
                    self.stage = Stage::DomainLen;
                    Step::Continue
                } else if b[3] == 4 {
                    self.stage = Stage::Ipv6;
                    Step::Continue
                } else {
                    self.stage = Stage::Finished;
                    Step::Refuse { reply: Some(failure(0x08)), error: Socks5Error::UnsupportedAddressType(b[3]) }
                }
            },
            Stage::Ipv4 => {
                self.stage = Stage::Finished;
                let host = ipv4_string(b);
                assert(ipv4_text(b@) == ipv4_text(b@.take(4)));
                let port = (b[4] as u16) * 256 + (b[5] as u16);
                Step::Connect { target: Target::Ipv4(host), port }
            },
            Stage::DomainLen => {
                self.stage = Stage::Domain(b[0]);
                Step::Continue
            },
            Stage::Domain(n) => {
                self.stage = Stage::Finished;
                let n = n as usize;
                let name = prefix(b, n);
                let host = lossy(name.as_slice());
                let port = (b[n] as u16) * 256 + (b[n + 1] as u16);
                Step::Connect { target: Target::Domain(host), port }
            },
            Stage::Ipv6 => {
                self.stage = Stage::Finished;
                let addr = prefix(b, 16);
                let port = (b[16] as u16) * 256 + (b[17] as u16);
                Step::Connect { target: Target::Ipv6(addr), port }
            },
            Stage::Finished => Step::Continue,
        }
    }
}

} // verus!
