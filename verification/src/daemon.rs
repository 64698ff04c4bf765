//! The daemon's bookkeeping: what an output subscriber receives, what the
//! session lists report and in which order, and where the daemon keeps its
//! files.

use vstd::prelude::*;
use crate::b64::{base64_encode, base64_standard, encodable};
use crate::text::{chars_of, decimal, push_decimal, string_of};
use crate::transport::{joined, TransportSpec};

verus! {

broadcast use vstd::seq_lib::group_to_multiset_ensures;

/// What a subscriber to a session's output receives, per chunk.
#[derive(Clone, Debug)]
pub enum OutputEvent {
    /// Session bytes, in base64 because the stream is JSON.
    Output { data_b64: String },
    /// The process exited; always the last event.
    Exit,
}

impl OutputEvent {
    /// The event carrying a chunk of output.
    pub fn output(data: &[u8]) -> (r: OutputEvent)
        requires
            encodable(data@.len()),
        ensures
            r matches OutputEvent::Output { data_b64 } && data_b64@ == base64_standard(data@),
    {
        OutputEvent::Output { data_b64: base64_encode(data) }
    }

    /// Whether the stream ends after this event.
    pub fn is_last(&self) -> (r: bool)
        ensures
            r == (*self is Exit),
    {
        match self {
            OutputEvent::Exit => true,
            OutputEvent::Output { .. } => false,
        }
    }
}

/// A live session, as the list endpoint reports it.
#[derive(Debug)]
pub struct SessionInfo {
    pub id: String,
    pub spec: TransportSpec,
    pub alive: bool,
    /// When it was opened, in milliseconds since the epoch.
    pub opened_at_ms: i64,
}

/// A session recorded in the daemon's database: `closed_at_ms` is `None`
/// while it is alive.
#[derive(Debug)]
pub struct PersistedSession {
    pub id: String,
    pub spec: TransportSpec,
    pub opened_at_ms: i64,
    pub closed_at_ms: Option<i64>,
}

impl PersistedSession {
    /// A session not yet closed.
    pub fn is_open(&self) -> (r: bool)
        ensures
            r == (self.closed_at_ms is None),
    {
        self.closed_at_ms.is_none()
    }
}

/// A live remote desktop, as the list endpoint reports it.
#[derive(Clone, Debug)]
pub struct RdpInfo {
    pub id: String,
    pub host: String,
    pub port: u16,
    pub user: String,
    /// The desktop size negotiated at the handshake.
    pub width: u16,
    pub height: u16,
    pub alive: bool,
    pub opened_at_ms: i64,
}

/// Most recently opened first.
pub open spec fn newest_first(s: Seq<SessionInfo>) -> bool {
    forall|i: int, j: int| 0 <= i < j < s.len() ==> #[trigger] s[i].opened_at_ms >= #[trigger] s[j].opened_at_ms
}

/// Whether a session was opened at the same millisecond as `e`.
pub open spec fn opened_with(e: SessionInfo) -> spec_fn(SessionInfo) -> bool {
    |y: SessionInfo| y.opened_at_ms == e.opened_at_ms
}

/// The sessions of `s` opened at the same millisecond as `e`, in order.
pub open spec fn opened_level(s: Seq<SessionInfo>, e: SessionInfo) -> Seq<SessionInfo> {
    s.filter(opened_with(e))
}

/// Orders the session list most recently opened first, keeping every
/// session; sessions opened at the same millisecond keep their order.
pub fn sort_newest_first(sessions: &mut Vec<SessionInfo>)
    ensures
        final(sessions)@.to_multiset() == old(sessions)@.to_multiset(),
        final(sessions)@.len() == old(sessions)@.len(),
        newest_first(final(sessions)@),
        forall|e: SessionInfo| #[trigger] opened_level(final(sessions)@, e) == opened_level(old(sessions)@, e),
{
    let ghost orig = sessions@;
    let mut input: Vec<SessionInfo> = Vec::new();
    std::mem::swap(&mut input, sessions);
    let mut out: Vec<SessionInfo> = Vec::new();
    assert(out@.to_multiset() =~= vstd::multiset::Multiset::empty());
    assert(orig.skip(orig.len() as int) =~= Seq::<SessionInfo>::empty());
    assert forall|e: SessionInfo| #[trigger] opened_level(out@, e) == opened_level(orig.skip(input@.len() as int), e) by {
        assert(opened_level(out@, e) =~= Seq::<SessionInfo>::empty());
        assert(opened_level(orig.skip(input@.len() as int), e) =~= Seq::<SessionInfo>::empty());
    }
    while input.len() > 0
        invariant
            newest_first(out@),
            out@.to_multiset().add(input@.to_multiset()) == orig.to_multiset(),
            out@.len() + input@.len() == orig.len(),
            input@ == orig.take(input@.len() as int),
            forall|e: SessionInfo| #[trigger] opened_level(out@, e) == opened_level(orig.skip(input@.len() as int), e),
        decreases input@.len(),
    {
        let ghost before = input@;
        let ghost n: int = input@.len() as int;
        let x = input.pop().unwrap();
        assert(before =~= input@.push(x));
        assert(input@ =~= orig.take(n - 1));
        assert(before[n - 1] == x);
        assert(orig.take(n)[n - 1] == orig[n - 1]);
        let mut p: usize = 0;
        while p < out.len() && out[p].opened_at_ms > x.opened_at_ms
            invariant
                p <= out@.len(),
                forall|k: int| 0 <= k < p ==> #[trigger] out@[k].opened_at_ms > x.opened_at_ms,
            decreases out.len() - p,
        {
            p = p + 1;
        }
        let ghost ov = out@;
        out.insert(p, x);
        proof {
            assert(out@ =~= ov.insert(p as int, x));
            assert forall|i: int, j: int| 0 <= i < j < out@.len() implies #[trigger] out@[i].opened_at_ms
                >= #[trigger] out@[j].opened_at_ms by {
                if j < p {
                    assert(out@[i] == ov[i] && out@[j] == ov[j]);
                } else if j == p {
                    assert(out@[i] == ov[i]);
                } else if i < p {
                    assert(out@[i] == ov[i] && out@[j] == ov[j - 1]);
                    if p < ov.len() {
                        assert(ov[p as int].opened_at_ms <= x.opened_at_ms);
                        assert(ov[j - 1].opened_at_ms <= ov[p as int].opened_at_ms || j - 1 == p);
                    }
                } else if i == p {
                    assert(out@[j] == ov[j - 1]);
                    assert(ov[p as int].opened_at_ms <= x.opened_at_ms);
                    assert(ov[j - 1].opened_at_ms <= ov[p as int].opened_at_ms || j - 1 == p);
                } else {
                    assert(out@[i] == ov[i - 1] && out@[j] == ov[j - 1]);
                }
            }
            let nv = out@;
            let suffix = orig.skip(n - 1);
            assert(suffix =~= seq![x] + orig.skip(n));
            let a = ov.take(p as int);
            let b = ov.skip(p as int);
            assert(a + seq![x] + b =~= nv);
            assert(a + b =~= ov);
            assert forall|e: SessionInfo| #[trigger] opened_level(nv, e) == opened_level(suffix, e) by {
                let pred = opened_with(e);
                assert(opened_level(ov, e) == opened_level(orig.skip(n), e));
                Seq::filter_distributes_over_add(a + seq![x], b, pred);
                Seq::filter_distributes_over_add(a, seq![x], pred);
                Seq::filter_distributes_over_add(a, b, pred);
                Seq::filter_distributes_over_add(seq![x], orig.skip(n), pred);
                assert(nv.filter(pred) == a.filter(pred) + seq![x].filter(pred) + b.filter(pred));
                assert(ov.filter(pred) == a.filter(pred) + b.filter(pred));
                assert(suffix.filter(pred) == seq![x].filter(pred) + orig.skip(n).filter(pred));
                if x.opened_at_ms == e.opened_at_ms {
                    assert(a.filter(pred) =~= Seq::<SessionInfo>::empty()) by {
                        a.lemma_filter_len(pred);
                        if a.filter(pred).len() > 0 {
                            let w = a.filter(pred)[0];
                            a.lemma_filter_contains_rev(pred, w);
                            assert(a.filter(pred).contains(w));
                            let k = choose|k: int| 0 <= k < a.len() && a[k] == w;
                            assert(ov[k].opened_at_ms > x.opened_at_ms);
                        }
                    }
                    assert(seq![x].filter(pred) =~= seq![x]) by {
                        reveal_with_fuel(Seq::filter, 2);
                        assert(seq![x].drop_last() =~= Seq::<SessionInfo>::empty());
                    }
                    assert(nv.filter(pred) =~= seq![x] + b.filter(pred));
                    assert(ov.filter(pred) =~= b.filter(pred));
                } else {
                    assert(seq![x].filter(pred) =~= Seq::<SessionInfo>::empty()) by {
                        reveal_with_fuel(Seq::filter, 2);
                        assert(seq![x].drop_last() =~= Seq::<SessionInfo>::empty());
                    }
                    assert(nv.filter(pred) =~= a.filter(pred) + b.filter(pred));
                    assert(suffix.filter(pred) =~= orig.skip(n).filter(pred));
                }
            }
        }
    }
    proof {
        assert(input@.to_multiset() =~= vstd::multiset::Multiset::empty());
        assert(orig.skip(0) =~= orig);
    }
    *sessions = out;
}

/// The daemon's data directory on Linux and the BSDs:
/// `$XDG_DATA_HOME/terminator`, else `$HOME/.local/share/terminator`.
/// `None` when neither variable is set.
pub open spec fn data_dir_spec(xdg_data_home: Option<Seq<char>>, home: Option<Seq<char>>) -> Option<Seq<char>> {
    match xdg_data_home {
        Some(x) => Some(joined(x, "terminator"@)),
        None => match home {
            Some(h) => Some(joined(joined(joined(h, ".local"@), "share"@), "terminator"@)),
            None => None,
        },
    }
}

fn join_str(dir: &Vec<char>, name: &str) -> (r: Vec<char>)
    ensures
        r@ == joined(dir@, name@),
{
    let mut out = dir.clone();
    if !(out.len() == 0 || out[out.len() - 1] == '/') {
        out.push('/');
    }
    let n = chars_of(name);
    let ghost head = out@;
    let mut i: usize = 0;
    while i < n.len()
        invariant
            i <= n@.len(),
            out@ == head + n@.take(i as int),
        decreases n.len() - i,
    {
        out.push(n[i]);
        i = i + 1;
    }
    assert(n@.take(i as int) =~= name@);
    out
}

/// Where the daemon keeps its port file, database and logs, from the
/// environment the caller read.
pub fn data_dir(xdg_data_home: Option<String>, home: Option<String>) -> (r: Option<String>)
    ensures
        match r {
            Some(d) => data_dir_spec(
                match xdg_data_home {
                    Some(x) => Some(x@),
                    None => None,
                },
                match home {
                    Some(h) => Some(h@),
                    None => None,
                },
            ) == Some(d@),
            None => xdg_data_home is None && home is None,
        },
{
    match xdg_data_home {
        Some(x) => Some(string_of(&join_str(&chars_of(x.as_str()), "terminator"))),
        None => match home {
            Some(h) => {
                let a = join_str(&chars_of(h.as_str()), ".local");
                let b = join_str(&a, "share");
                Some(string_of(&join_str(&b, "terminator")))
            },
            None => None,
        },
    }
}

/// The file that records the daemon's port, inside the data directory.
pub fn port_file(data_dir: &str) -> (r: String)
    ensures
        r@ == joined(data_dir@, "daemon.port"@),
{
    string_of(&join_str(&chars_of(data_dir), "daemon.port"))
}

/// What the daemon writes to its port file: the port in decimal.
pub fn port_text(port: u16) -> (r: String)
    ensures
        r@ == decimal(port as nat),
{
    let mut out: Vec<char> = Vec::new();
    push_decimal(port as u64, &mut out);
    string_of(&out)
}

} // verus!
