//! The byte tap: one session stream, many consumers.
//!
//! Every byte that flows through a session is offered to each registered
//! tap; rendering, logging and command history are all taps, so none of
//! them depends on the UI being alive. Taps are called inline and must not
//! block: anything slow buffers internally, and the flush policy here
//! decides when buffered log output goes to disk.

use vstd::prelude::*;

verus! {

/// Which way a chunk of data travelled.
#[derive(PartialEq, Eq, Structural, Clone, Copy, Debug)]
pub enum Direction {
    /// Remote to us: program output.
    Output,
    /// Us to remote: keystrokes, paste.
    Input,
}

/// A consumer of a session's byte stream. Every method does nothing unless
/// the tap overrides it.
pub trait Tap: Send + Sync {
    fn on_data(&self, dir: Direction, data: &[u8]) {
    }

    fn on_resize(&self, cols: u16, rows: u16) {
    }

    /// Periodic tick, so buffered writers reach disk on idle sessions.
    fn flush(&self) {
    }

    /// The session ended: flush and close.
    fn on_close(&self) {
    }
}

/// Fan-out to every registered tap, in registration order.
pub struct TapSet<T: Tap> {
    taps: Vec<T>,
}

impl<T: Tap> View for TapSet<T> {
    type V = Seq<T>;

    closed spec fn view(&self) -> Seq<T> {
        self.taps@
    }
}

impl<T: Tap> TapSet<T> {
    pub fn new() -> (r: TapSet<T>)
        ensures
            r@.len() == 0,
    {
        TapSet { taps: Vec::new() }
    }

    /// Registers a tap after the others.
    pub fn push(&mut self, tap: T)
        ensures
            final(self)@ == old(self)@.push(tap),
    {
        self.taps.push(tap);
    }

    pub fn is_empty(&self) -> (r: bool)
        ensures
            r == (self@.len() == 0),
    {
        self.taps.len() == 0
    }

    pub fn len(&self) -> (r: usize)
        ensures
            r == self@.len(),
    {
        self.taps.len()
    }

    /// Offers a chunk to every tap, in order.
    /// Returns the taps offered the chunk, in the order they were told: every
    /// registered tap, once each, in registration order.
    pub fn on_data(&self, dir: Direction, data: &[u8]) -> (told: Ghost<Seq<T>>)
        ensures
            told@ == self@,
    {
        let mut i: usize = 0;
        let ghost mut seen: Seq<T> = Seq::empty();
        while i < self.taps.len()
            invariant
                i <= self.taps@.len(),
                seen == self.taps@.take(i as int),
            decreases self.taps.len() - i,
        {
            self.taps[i].on_data(dir, data);
            proof {
                seen = seen.push(self.taps@[i as int]);
            }
            assert(seen =~= self.taps@.take(i + 1));
            i = i + 1;
        }
        assert(seen =~= self.taps@);
        Ghost(seen)
    }

    /// Tells every tap the window size changed.
    /// Returns the taps told of the new size, in the order they were told: every
    /// registered tap, once each, in registration order.
    pub fn on_resize(&self, cols: u16, rows: u16) -> (told: Ghost<Seq<T>>)
        ensures
            told@ == self@,
    {
        let mut i: usize = 0;
        let ghost mut seen: Seq<T> = Seq::empty();
        while i < self.taps.len()
            invariant
                i <= self.taps@.len(),
                seen == self.taps@.take(i as int),
            decreases self.taps.len() - i,
        {
            self.taps[i].on_resize(cols, rows);
            proof {
                seen = seen.push(self.taps@[i as int]);
            }
            assert(seen =~= self.taps@.take(i + 1));
            i = i + 1;
        }
        assert(seen =~= self.taps@);
        Ghost(seen)
    }

    /// Tells every tap the session ended.
    /// Returns the taps told the session ended, in the order they were told: every
    /// registered tap, once each, in registration order.
    pub fn on_close(&self) -> (told: Ghost<Seq<T>>)
        ensures
            told@ == self@,
    {
        let mut i: usize = 0;
        let ghost mut seen: Seq<T> = Seq::empty();
        while i < self.taps.len()
            invariant
                i <= self.taps@.len(),
                seen == self.taps@.take(i as int),
            decreases self.taps.len() - i,
        {
            self.taps[i].on_close();
            proof {
                seen = seen.push(self.taps@[i as int]);
            }
            assert(seen =~= self.taps@.take(i + 1));
            i = i + 1;
        }
        assert(seen =~= self.taps@);
        Ghost(seen)
    }

    /// Asks every tap to push buffered output to disk.
    /// Returns the taps asked to flush, in the order they were told: every
    /// registered tap, once each, in registration order.
    pub fn flush(&self) -> (told: Ghost<Seq<T>>)
        ensures
            told@ == self@,
    {
        let mut i: usize = 0;
        let ghost mut seen: Seq<T> = Seq::empty();
        while i < self.taps.len()
            invariant
                i <= self.taps@.len(),
                seen == self.taps@.take(i as int),
            decreases self.taps.len() - i,
        {
            self.taps[i].flush();
            proof {
                seen = seen.push(self.taps@[i as int]);
            }
            assert(seen =~= self.taps@.take(i + 1));
            i = i + 1;
        }
        assert(seen =~= self.taps@);
        Ghost(seen)
    }
}

/// Flush after this many bytes, to bound what a hard crash can lose.
pub const FLUSH_EVERY: usize = 32768;
/// Also flush after this long, so an idle session's output does not sit in
/// a buffer.
pub const FLUSH_INTERVAL_MS: u64 = 500;

/// When the asciinema recorder flushes its buffered writer. The clock is
/// the caller's: it says whether the interval has passed since the last
/// flush.
pub struct FlushPolicy {
    since_flush: usize,
    closed: bool,
}

pub struct FlushPolicyView {
    /// Bytes written since the last flush.
    pub pending: nat,
    pub closed: bool,
}

impl View for FlushPolicy {
    type V = FlushPolicyView;

    closed spec fn view(&self) -> FlushPolicyView {
        FlushPolicyView { pending: self.since_flush as nat, closed: self.closed }
    }
}

impl FlushPolicy {
    #[verifier::type_invariant]
    closed spec fn bounded(self) -> bool {
        self.since_flush < FLUSH_EVERY
    }

    pub fn new() -> (r: FlushPolicy)
        ensures
            r@.pending == 0,
            !r@.closed,
    {
        FlushPolicy { since_flush: 0, closed: false }
    }

    /// Whether events are still written: not after the recorder closed.
    pub fn accepts(&self) -> (r: bool)
        ensures
            r == !self@.closed,
    {
        !self.closed
    }

    /// A line of `written` bytes went into the buffer; returns whether to
    /// flush now: once `FLUSH_EVERY` bytes are pending, or when the interval
    /// has passed.
    pub fn wrote(&mut self, written: usize, interval_elapsed: bool) -> (flush: bool)
        requires
            !old(self)@.closed,
        ensures
            flush == (old(self)@.pending + written >= FLUSH_EVERY || interval_elapsed),
            final(self)@.pending == (if flush { 0 } else { old(self)@.pending + written }),
            !final(self)@.closed,
            final(self)@.pending < FLUSH_EVERY,
    {
        proof {
            use_type_invariant(&*self);
        }
        if written >= FLUSH_EVERY - self.since_flush || interval_elapsed {
            self.since_flush = 0;
            true
        } else {
            self.since_flush = self.since_flush + written;
            false
        }
    }

    /// The periodic tick: flush when something is pending and the recorder
    /// is open.
    pub fn tick(&mut self) -> (flush: bool)
        ensures
            flush == (!old(self)@.closed && old(self)@.pending > 0),
            final(self)@.pending == (if flush { 0 } else { old(self)@.pending }),
            final(self)@.closed == old(self)@.closed,
    {
        if self.closed || self.since_flush == 0 {
            false
        } else {
            self.since_flush = 0;
            true
        }
    }

    /// The session ended: the caller flushes once more, and nothing is
    /// written afterwards.
    pub fn close(&mut self)
        ensures
            final(self)@.closed,
            final(self)@.pending == old(self)@.pending,
    {
        proof {
            use_type_invariant(&*self);
        }
        self.closed = true;
    }
}

/// The asciinema event code for a chunk: `o` for output, `i` for input.
pub fn event_code(dir: Direction) -> (r: &'static str)
    ensures
        r@ == (match dir {
            Direction::Output => "o"@,
            Direction::Input => "i"@,
        }),
{
    match dir {
        Direction::Output => "o",
        Direction::Input => "i",
    }
}

/// The asciinema event code for a resize.
pub fn resize_code() -> (r: &'static str)
    ensures
        r@ == "r"@,
{
    "r"
}

/// The payload of a resize event: `<cols>x<rows>`.
pub fn resize_payload(cols: u16, rows: u16) -> (r: String)
    ensures
        r@ == crate::text::decimal(cols as nat).push('x') + crate::text::decimal(rows as nat),
{
    let mut out: Vec<char> = Vec::new();
    crate::text::push_decimal(cols as u64, &mut out);
    out.push('x');
    crate::text::push_decimal(rows as u64, &mut out);
    crate::text::string_of(&out)
}

} // verus!
