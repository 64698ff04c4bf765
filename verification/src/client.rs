//! The UI side of the daemon link: finding the daemon from its port file,
//! and cutting the daemon's server-sent-event stream into events.
//!
//! The daemon only ever sends single-line `data:` fields, but the framing
//! follows the SSE rules that matter here: events end at a blank line
//! (`\n\n` or `\r\n\r\n`), and every `data:` line of an event contributes
//! a line of its data.

use vstd::prelude::*;
use vstd::utf8::{decode_utf8, valid_utf8};
use crate::text::{
    chars_of, decimal, push_decimal, split_chars, split_seq, string_of, trim_chars, trim_seq, trim_start_seq,
    utf8_decode,
};

verus! {

/// Progress of a file transfer, as streamed by the daemon.
#[derive(Clone, Debug)]
pub enum TransferEvent {
    /// `transferred` bytes so far of `total` (0: unknown).
    Progress { transferred: u64, total: u64 },
    /// Finished; `bytes` were written.
    Done { bytes: u64 },
    Failed { message: String },
}

/// A session output event as it arrives from the daemon.
#[derive(Clone, Debug)]
pub enum OutputEvent {
    Output { data: String },
    Exit,
}

/// Whether a blank line starts at `i`: `\n\n`, or `\r\n\r\n`.
pub open spec fn blank_at(b: Seq<u8>, i: int) -> bool {
    (i + 1 < b.len() && b[i] == 10 && b[i + 1] == 10) || (i + 3 < b.len() && b[i] == 13 && b[i + 1] == 10
        && b[i + 2] == 13 && b[i + 3] == 10)
}

/// Where the first event ends: the first position where a blank line
/// starts.
pub open spec fn first_blank(b: Seq<u8>, i: int) -> bool {
    &&& 0 <= i
    &&& blank_at(b, i)
    &&& forall|k: int| 0 <= k < i ==> !blank_at(b, k)
}

/// The position of the first blank line in `buf`, if any.
pub fn find_double_newline(buf: &[u8]) -> (r: Option<usize>)
    ensures
        match r {
            Some(i) => first_blank(buf@, i as int),
            None => forall|k: int| 0 <= k < buf@.len() ==> !blank_at(buf@, k),
        },
{
    let n = buf.len();
    let mut i: usize = 0;
    while i < n
        invariant
            n == buf@.len(),
            i <= n,
            forall|k: int| 0 <= k < i ==> !blank_at(buf@, k),
        decreases n - i,
    {
        if n - i >= 2 && buf[i] == 10 && buf[i + 1] == 10 {
            return Some(i);
        }
        if n - i >= 4 && buf[i] == 13 && buf[i + 1] == 10 && buf[i + 2] == 13 && buf[i + 3] == 10 {
            return Some(i);
        }
        i = i + 1;
    }
    None
}

pub open spec fn data_prefix() -> Seq<char> {
    seq!['d', 'a', 't', 'a', ':']
}

/// `l` without the `\r` characters at its end.
pub open spec fn trim_crs(l: Seq<char>) -> Seq<char>
    decreases l.len(),
{
    if l.len() > 0 && l.last() == '\r' {
        trim_crs(l.drop_last())
    } else {
        l
    }
}

/// The value of a `data:` line, without leading whitespace; `None` for
/// other lines.
pub open spec fn data_value(line: Seq<char>) -> Option<Seq<char>> {
    let l = trim_crs(line);
    if l.len() >= 5 && l.take(5) == data_prefix() {
        Some(trim_start_seq(l.skip(5)))
    } else {
        None
    }
}

/// The data of an event: the values of its `data:` lines joined with
/// `\n`.
pub open spec fn event_data(lines: Seq<Seq<char>>) -> Seq<char>
    decreases lines.len(),
{
    if lines.len() == 0 {
        Seq::empty()
    } else {
        let prev = event_data(lines.drop_last());
        match data_value(lines.last()) {
            Some(v) => if prev.len() > 0 {
                prev.push('\n') + v
            } else {
                prev + v
            },
            None => prev,
        }
    }
}

/// What taking an event from `buf` leaves in the buffer, and which data it
/// yields: nothing is taken until a blank line has arrived; then the event
/// and its blank line go, and the event's data comes out when the event is
/// UTF-8 and has any.
pub open spec fn take_spec(buf: Seq<u8>) -> (Seq<u8>, Option<Seq<char>>) {
    if exists|i: int| first_blank(buf, i) {
        let i = choose|i: int| first_blank(buf, i);
        let sep: int = if i + 3 < buf.len() && buf[i] == 13 && buf[i + 1] == 10 && buf[i + 2] == 13 && buf[i + 3]
            == 10 {
            4
        } else {
            2
        };
        let ev = buf.take(i);
        let rest = buf.skip(i + sep);
        if valid_utf8(ev) {
            let d = event_data(split_seq(decode_utf8(ev), '\n'));
            (rest, if d.len() > 0 { Some(d) } else { None })
        } else {
            (rest, None)
        }
    } else {
        (buf, None)
    }
}

proof fn lemma_first_blank_unique(b: Seq<u8>, i: int, j: int)
    requires
        first_blank(b, i),
        first_blank(b, j),
    ensures
        i == j,
{
    if i < j {
        assert(!blank_at(b, i));
    } else if j < i {
        assert(!blank_at(b, j));
    }
}

/// Takes the first complete event out of `buf` and returns its data (the
/// caller parses it as JSON). `None` when no complete event has arrived,
/// and also for an event that is not UTF-8 or has no `data:` line, which
/// is dropped.
pub fn take_event_data(buf: &mut Vec<u8>) -> (r: Option<String>)
    ensures
        final(buf)@ == take_spec(old(buf)@).0,
        match r {
            Some(d) => take_spec(old(buf)@).1 == Some(d@),
            None => take_spec(old(buf)@).1 is None,
        },
{
    let sep = match find_double_newline(buf.as_slice()) {
        Some(i) => i,
        None => {
            return None;
        },
    };
    let ghost b = buf@;
    proof {
        assert(first_blank(b, sep as int));
        let i = choose|i: int| first_blank(b, i);
        lemma_first_blank_unique(b, i, sep as int);
    }
    let sep_len: usize = if buf.len() - sep > 3 && buf[sep] == 13 && buf[sep + 1] == 10 && buf[sep + 2] == 13
        && buf[sep + 3] == 10 {
        4
    } else {
        2
    };
    let event_bytes = crate::text::sub_bytes(buf.as_slice(), 0, sep);
    let rest = crate::text::sub_bytes(buf.as_slice(), sep + sep_len, buf.len());
    assert(event_bytes@ =~= b.take(sep as int));
    assert(rest@ =~= b.skip(sep + sep_len));
    *buf = rest;
    let text = match utf8_decode(event_bytes.as_slice()) {
        Some(t) => t,
        None => {
            return None;
        },
    };
    let v = chars_of(text.as_str());
    let lines = split_chars(&v, '\n');
    let ghost ls = split_seq(v@, '\n');
    let mut data: Vec<char> = Vec::new();
    let mut k: usize = 0;
    assert(ls.take(0) =~= Seq::<Seq<char>>::empty());
    while k < lines.len()
        invariant
            lines@.len() == ls.len(),
            forall|j: int| 0 <= j < lines@.len() ==> #[trigger] lines@[j]@ == ls[j],
            k <= lines@.len(),
            data@ == event_data(ls.take(k as int)),
        decreases lines.len() - k,
    {
        assert(ls.take(k + 1).drop_last() =~= ls.take(k as int));
        assert(ls.take(k + 1).last() == lines@[k as int]@);
        let mut l = lines[k].clone();
        assert(l@ == ls[k as int]);
        while l.len() > 0 && l[l.len() - 1] == '\r'
            invariant
                k < ls.len(),
                trim_crs(l@) == trim_crs(ls[k as int]),
            decreases l.len(),
        {
            l.pop();
        }
        let is_data = l.len() >= 5 && l[0] == 'd' && l[1] == 'a' && l[2] == 't' && l[3] == 'a' && l[4] == ':';
        proof {
            if l@.len() >= 5 {
                if l@.take(5) == data_prefix() {
                    assert(l@.take(5)[0] == l@[0] && l@.take(5)[1] == l@[1] && l@.take(5)[2] == l@[2]);
                    assert(l@.take(5)[3] == l@[3] && l@.take(5)[4] == l@[4]);
                }
                if is_data {
                    assert(l@.take(5) =~= data_prefix());
                }
            }
        }
        if is_data {
            let tail = crate::text::slice_chars(&l, 5, l.len());
            let start = crate::text::trim_start_index(&tail);
            let value = crate::text::slice_chars(&tail, start, tail.len());
            assert(tail@ =~= l@.skip(5));
            if data.len() > 0 {
                data.push('\n');
            }
            let ghost head = data@;
            let mut j: usize = 0;
            while j < value.len()
                invariant
                    j <= value@.len(),
                    data@ == head + value@.take(j as int),
                decreases value.len() - j,
            {
                data.push(value[j]);
                j = j + 1;
            }
            assert(value@.take(j as int) =~= value@);
        }
        k = k + 1;
    }
    assert(ls.take(k as int) =~= ls);
    if data.len() == 0 {
        None
    } else {
        Some(string_of(&data))
    }
}

/// What `str::parse::<u16>` returns: an optional `+`, then one or more
/// ASCII digits whose value fits in 16 bits.
pub open spec fn parse_u16_spec(s: Seq<char>) -> Option<u16> {
    let digits = if s.len() > 0 && s[0] == '+' { s.drop_first() } else { s };
    if digits.len() == 0 || !crate::text::all_digits(digits) || crate::text::digits_value(digits) > 0xffff {
        None
    } else {
        Some(crate::text::digits_value(digits) as u16)
    }
}

/// The daemon's port, as its port file records it (surrounding whitespace
/// ignored); `None` when the file does not hold one.
pub fn parse_port_file(contents: &str) -> (r: Option<u16>)
    ensures
        r == parse_u16_spec(trim_seq(contents@)),
{
    let t = trim_chars(&chars_of(contents));
    if t.len() > 0 && t[0] == '-' {
        return None;
    }
    let r = crate::text::parse_i32(&t);
    match r {
        Some(v) => {
            if 0 <= v && v <= 0xffff {
                Some(v as u16)
            } else {
                None
            }
        },
        None => None,
    }
}

/// The daemon's base URL for a port.
pub fn base_url(port: u16) -> (r: String)
    ensures
        r@ == "http://127.0.0.1:"@ + decimal(port as nat),
{
    let mut out = chars_of("http://127.0.0.1:");
    push_decimal(port as u64, &mut out);
    string_of(&out)
}

/// Where one call through the self-healing daemon client stands. A call
/// that cannot reach the daemon gets one fresh daemon and one more try;
/// any other failure is the answer, since a fresh daemon would fail the
/// same way.
#[derive(PartialEq, Eq, Structural, Clone, Copy, Debug)]
pub enum RetryPhase {
    /// The first call is under way.
    FirstCall,
    /// The first call could not reach the daemon; a daemon is being found
    /// or started.
    Respawning,
    /// The call is being made again, against the new daemon.
    Retrying,
    /// The answer has been handed back.
    Finished,
}

/// What the caller reports back.
#[derive(PartialEq, Eq, Structural, Clone, Copy, Debug)]
pub enum RetryEvent {
    /// The call returned; `connection_error` tells whether it failed to
    /// reach the daemon at all.
    CallReturned { connection_error: bool },
    /// Finding or starting a daemon succeeded (`ok`) or failed.
    RespawnReturned { ok: bool },
}

/// What the caller does next.
#[derive(PartialEq, Eq, Structural, Clone, Copy, Debug)]
pub enum RetryAction {
    /// Make the call, against the current daemon.
    Call,
    /// Find or start a daemon and switch to it.
    Respawn,
    /// Hand back what the first call returned.
    ReturnFirst,
    /// Hand back what the second call returned.
    ReturnSecond,
}

/// Whether `e` is what the caller can report in phase `p`.
pub open spec fn retry_expects(p: RetryPhase, e: RetryEvent) -> bool {
    match p {
        RetryPhase::FirstCall => e is CallReturned,
        RetryPhase::Respawning => e is RespawnReturned,
        RetryPhase::Retrying => e is CallReturned,
        RetryPhase::Finished => false,
    }
}

/// The next phase and action.
pub open spec fn retry_next(p: RetryPhase, e: RetryEvent) -> (RetryPhase, RetryAction) {
    match (p, e) {
        (RetryPhase::FirstCall, RetryEvent::CallReturned { connection_error }) => if connection_error {
            (RetryPhase::Respawning, RetryAction::Respawn)
        } else {
            (RetryPhase::Finished, RetryAction::ReturnFirst)
        },
        (RetryPhase::Respawning, RetryEvent::RespawnReturned { ok }) => if ok {
            (RetryPhase::Retrying, RetryAction::Call)
        } else {
            (RetryPhase::Finished, RetryAction::ReturnFirst)
        },
        (RetryPhase::Retrying, RetryEvent::CallReturned { .. }) => (RetryPhase::Finished, RetryAction::ReturnSecond),
        _ => (p, RetryAction::ReturnFirst),
    }
}

impl RetryPhase {
    /// A call starts: make it.
    pub fn begin() -> (r: (RetryPhase, RetryAction))
        ensures
            r == (RetryPhase::FirstCall, RetryAction::Call),
    {
        (RetryPhase::FirstCall, RetryAction::Call)
    }

    /// The next phase and action after `event`.
    pub fn step(self, event: RetryEvent) -> (r: (RetryPhase, RetryAction))
        requires
            retry_expects(self, event),
        ensures
            r == retry_next(self, event),
    {
        match (self, event) {
            (RetryPhase::FirstCall, RetryEvent::CallReturned { connection_error }) => if connection_error {
                (RetryPhase::Respawning, RetryAction::Respawn)
            } else {
                (RetryPhase::Finished, RetryAction::ReturnFirst)
            },
            (RetryPhase::Respawning, RetryEvent::RespawnReturned { ok }) => if ok {
                (RetryPhase::Retrying, RetryAction::Call)
            } else {
                (RetryPhase::Finished, RetryAction::ReturnFirst)
            },
            (_, _) => (RetryPhase::Finished, RetryAction::ReturnSecond),
        }
    }
}

/// The phase after the caller reported `events`, from the start of a call.
pub open spec fn phase_after(events: Seq<RetryEvent>) -> RetryPhase
    decreases events.len(),
{
    if events.len() == 0 {
        RetryPhase::FirstCall
    } else {
        retry_next(phase_after(events.drop_last()), events.last()).0
    }
}

/// Every event was one the caller could report at that point.
pub open spec fn valid_run(events: Seq<RetryEvent>) -> bool {
    forall|i: int| 0 <= i < events.len() ==> retry_expects(phase_after(events.take(i)), #[trigger] events[i])
}

/// The action answering the `i`-th event.
pub open spec fn action_at(events: Seq<RetryEvent>, i: int) -> RetryAction {
    retry_next(phase_after(events.take(i)), events[i]).1
}

/// A call is made at most twice: the daemon is respawned only when the
/// first call could not reach it, the call is repeated only after a
/// successful respawn, and the run ends once an answer is handed back.
pub proof fn a_call_is_retried_at_most_once(events: Seq<RetryEvent>)
    requires
        valid_run(events),
    ensures
        events.len() <= 3,
        forall|i: int| 0 <= i < events.len() && (action_at(events, i) is Respawn) ==> i == 0 && events[0]
            == (RetryEvent::CallReturned { connection_error: true }),
        forall|i: int| 0 <= i < events.len() && (action_at(events, i) is Call) ==> i == 1,
        events.len() > 0 && events[0] == (RetryEvent::CallReturned { connection_error: false }) ==> events.len() == 1
            && (action_at(events, 0) is ReturnFirst),
{
    assert(events.take(0) =~= Seq::<RetryEvent>::empty());
    if events.len() >= 1 {
        assert(events.take(1).drop_last() =~= events.take(0));
        assert(retry_expects(phase_after(events.take(0)), events[0]));
    }
    if events.len() >= 2 {
        assert(events.take(2).drop_last() =~= events.take(1));
        assert(retry_expects(phase_after(events.take(1)), events[1]));
    }
    if events.len() >= 3 {
        assert(events.take(3).drop_last() =~= events.take(2));
        assert(retry_expects(phase_after(events.take(2)), events[2]));
    }
    if events.len() >= 4 {
        assert(retry_expects(phase_after(events.take(3)), events[3]));
    }
}

} // verus!
