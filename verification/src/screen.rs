//! Headless VT model: turns the escape-code soup of a session's output into
//! clean log lines and, through the OSC 133 shell-integration markers, into
//! one record per executed command.
//!
//! The model is driven by the events of a VT parser (printable characters,
//! C0 controls, CSI and OSC sequences). It never writes anything itself:
//! finished log lines and command records queue up until the owner drains
//! them, and the owner supplies a monotonic millisecond clock for command
//! durations.

use vstd::prelude::*;
use crate::text::{
    chars_of, contains_chars, lossy, parse_i32, parse_i32_spec, string_of, trim_chars, trim_end_len,
    trim_end_seq, trim_seq, utf8_decode, lossy_text,
};

verus! {

/// Where the shell is in the OSC 133 prompt/command/output cycle.
#[derive(PartialEq, Eq, Structural, Clone, Copy, Debug)]
pub enum Phase {
    Idle,
    /// Between OSC 133;B and ;C: the shell is echoing the command line.
    Command,
    /// After OSC 133;C: command output.
    Output,
}

/// One executed command, delimited by OSC 133 markers.
#[derive(Clone, Debug)]
pub struct CommandRecord {
    pub command: String,
    pub exit_code: Option<i32>,
    pub duration_ms: u64,
}

pub struct RecordView {
    pub command: Seq<char>,
    pub exit_code: Option<i32>,
    pub duration_ms: u64,
}

impl View for CommandRecord {
    type V = RecordView;

    open spec fn view(&self) -> RecordView {
        RecordView { command: self.command@, exit_code: self.exit_code, duration_ms: self.duration_ms }
    }
}

/// The abstract state of the screen model.
pub struct ScreenView {
    /// Current logical line.
    pub line: Seq<char>,
    /// Write cursor within `line`, in characters.
    pub col: nat,
    /// Whether a full-screen application holds the alternate screen.
    pub alt_screen: bool,
    pub phase: Phase,
    /// Command text collected so far.
    pub cmd_buf: Seq<char>,
    /// Whether `133;E` reported the command line verbatim.
    pub cmd_explicit: bool,
    /// Clock reading at `133;C`.
    pub cmd_start: Option<u64>,
    /// Finished log lines not yet drained.
    pub log: Seq<Seq<char>>,
    /// Finished command records not yet drained.
    pub records: Seq<RecordView>,
}

/// The fresh state of a session's screen model.
pub open spec fn initial_screen() -> ScreenView {
    ScreenView {
        line: Seq::empty(),
        col: 0,
        alt_screen: false,
        phase: Phase::Idle,
        cmd_buf: Seq::empty(),
        cmd_explicit: false,
        cmd_start: None,
        log: Seq::empty(),
        records: Seq::empty(),
    }
}

/// End of the current line: it is logged (without trailing whitespace)
/// unless the alternate screen is up or nothing visible is on it.
pub open spec fn flush_line_spec(s: ScreenView) -> ScreenView {
    let t = trim_end_seq(s.line);
    ScreenView {
        log: if !s.alt_screen && t.len() > 0 { s.log.push(t) } else { s.log },
        line: Seq::empty(),
        col: 0,
        ..s
    }
}

/// A printable character: collected into the command text while the command
/// is being echoed (and was not reported explicitly), and written over the
/// cursor position unless the alternate screen is up.
pub open spec fn print_spec(s: ScreenView, c: char) -> ScreenView {
    let cmd_buf = if s.phase == Phase::Command && !s.cmd_explicit { s.cmd_buf.push(c) } else { s.cmd_buf };
    if s.alt_screen {
        ScreenView { cmd_buf, ..s }
    } else {
        ScreenView {
            cmd_buf,
            line: if s.col < s.line.len() { s.line.update(s.col as int, c) } else { s.line.push(c) },
            col: s.col + 1,
            ..s
        }
    }
}

/// `n` printable characters `c` in a row.
pub open spec fn print_n_spec(s: ScreenView, c: char, n: nat) -> ScreenView
    decreases n,
{
    if n == 0 {
        s
    } else {
        print_n_spec(print_spec(s, c), c, (n - 1) as nat)
    }
}

/// The next tab stop after column `col` (stops every 8 columns).
pub open spec fn next_tab_stop(col: nat) -> nat {
    (col / 8 + 1) * 8
}

/// A C0 control: newline ends the line, carriage return goes to column 0,
/// tab pads with spaces to the next tab stop, backspace moves left.
pub open spec fn execute_spec(s: ScreenView, byte: u8) -> ScreenView {
    if byte == 0x0a {
        flush_line_spec(s)
    } else if byte == 0x0d {
        ScreenView { col: 0, ..s }
    } else if byte == 0x09 {
        print_n_spec(s, ' ', (next_tab_stop(s.col) - s.col) as nat)
    } else if byte == 0x08 {
        ScreenView { col: if s.col > 0 { (s.col - 1) as nat } else { 0 }, ..s }
    } else {
        s
    }
}

/// Whether a private-mode parameter names the alternate screen (1049, 1047
/// or 47).
pub open spec fn is_alt_param(p: Seq<u16>) -> bool {
    p.len() > 0 && (p[0] == 1049 || p[0] == 1047 || p[0] == 47)
}

pub open spec fn any_alt_param(params: Seq<Seq<u16>>) -> bool {
    exists|i: int| 0 <= i < params.len() && is_alt_param(#[trigger] params[i])
}

/// `CSI ? 1049 h` and friends: entering ends the current line and hides
/// what follows; leaving discards whatever was drawn.
pub open spec fn csi_mode_spec(s: ScreenView, params: Seq<Seq<u16>>, intermediates: Seq<u8>, action: char) -> ScreenView {
    if intermediates.len() > 0 && intermediates[0] == 0x3f && (action == 'h' || action == 'l') && any_alt_param(params) {
        if action == 'h' {
            ScreenView { alt_screen: true, ..flush_line_spec(s) }
        } else {
            ScreenView { alt_screen: false, line: Seq::empty(), col: 0, ..s }
        }
    } else {
        s
    }
}

/// The first parameter of a CSI sequence, 0 when absent.
pub open spec fn first_param(params: Seq<Seq<u16>>) -> u16 {
    if params.len() > 0 && params[0].len() > 0 { params[0][0] } else { 0 }
}

/// `CSI K` (erase from the cursor to the end of the line) outside the
/// alternate screen.
pub open spec fn csi_erase_spec(s: ScreenView, params: Seq<Seq<u16>>, action: char) -> ScreenView {
    if action == 'K' && !s.alt_screen && first_param(params) == 0 && s.col < s.line.len() {
        ScreenView { line: s.line.take(s.col as int), ..s }
    } else {
        s
    }
}

pub open spec fn csi_spec(s: ScreenView, params: Seq<Seq<u16>>, intermediates: Seq<u8>, action: char) -> ScreenView {
    csi_erase_spec(csi_mode_spec(s, params, intermediates, action), params, action)
}

/// The OSC parameters from the third on, each decoded lossily and joined
/// with `;` (OSC parameters are split on `;`, so a command line containing
/// one arrives in pieces).
pub open spec fn join_lossy(ps: Seq<Seq<u8>>) -> Seq<char>
    decreases ps.len(),
{
    if ps.len() == 0 {
        Seq::empty()
    } else if ps.len() == 1 {
        lossy_text(ps[0])
    } else {
        join_lossy(ps.drop_last()).push(';') + lossy_text(ps.last())
    }
}

/// The exit code carried by `133;D`: the third parameter, if it is UTF-8 and
/// parses as an `i32` once trimmed.
pub open spec fn exit_code_spec(params: Seq<Seq<u8>>) -> Option<i32> {
    if params.len() > 2 && vstd::utf8::valid_utf8(params[2]) {
        parse_i32_spec(trim_seq(vstd::utf8::decode_utf8(params[2])))
    } else {
        None
    }
}

pub open spec fn is_osc133(params: Seq<Seq<u8>>) -> bool {
    params.len() >= 2 && params[0] == seq![0x31u8, 0x33u8, 0x33u8] && params[1].len() > 0
}

/// `133;D`: the command ended. A record is produced when the command text is
/// not blank, and the command state resets.
pub open spec fn finish_command_spec(s: ScreenView, params: Seq<Seq<u8>>, now_ms: u64) -> ScreenView {
    let cmd = trim_seq(s.cmd_buf);
    let dur: u64 = match s.cmd_start {
        Some(t) => if now_ms >= t { (now_ms - t) as u64 } else { 0 },
        None => 0,
    };
    ScreenView {
        records: if cmd.len() > 0 {
            s.records.push(RecordView { command: cmd, exit_code: exit_code_spec(params), duration_ms: dur })
        } else {
            s.records
        },
        cmd_buf: Seq::empty(),
        cmd_explicit: false,
        cmd_start: None,
        phase: Phase::Idle,
        ..s
    }
}

/// An OSC sequence. Only `133;<kind>` matters: A (prompt), B (command
/// entry), E (explicit command line), C (output) and D (finished).
pub open spec fn osc_spec(s: ScreenView, params: Seq<Seq<u8>>, now_ms: u64) -> ScreenView {
    if !is_osc133(params) {
        s
    } else {
        let k = params[1][0];
        if k == 0x41 {
            ScreenView { phase: Phase::Idle, ..flush_line_spec(s) }
        } else if k == 0x42 {
            ScreenView {
                cmd_buf: if !s.cmd_explicit { Seq::empty() } else { s.cmd_buf },
                phase: Phase::Command,
                ..s
            }
        } else if k == 0x45 {
            if params.len() > 2 {
                ScreenView { cmd_buf: join_lossy(params.skip(2)), cmd_explicit: true, ..s }
            } else {
                s
            }
        } else if k == 0x43 {
            ScreenView { phase: Phase::Output, cmd_start: Some(now_ms), ..s }
        } else if k == 0x44 {
            finish_command_spec(s, params, now_ms)
        } else {
            s
        }
    }
}

/// The byte strings of a vector of byte vectors.
pub open spec fn byte_seqs(v: Seq<Vec<u8>>) -> Seq<Seq<u8>> {
    v.map_values(|p: Vec<u8>| p@)
}

/// The parameter lists of a vector of CSI parameters.
pub open spec fn param_seqs(v: Seq<Vec<u16>>) -> Seq<Seq<u16>> {
    v.map_values(|p: Vec<u16>| p@)
}

/// The character sequences of a vector of strings.
pub open spec fn string_seqs(v: Seq<String>) -> Seq<Seq<char>> {
    v.map_values(|l: String| l@)
}

pub open spec fn record_views(v: Seq<CommandRecord>) -> Seq<RecordView> {
    v.map_values(|r: CommandRecord| r@)
}

/// The state once the finished log lines have been handed over.
pub open spec fn log_drained(s: ScreenView) -> ScreenView {
    ScreenView { log: Seq::empty(), ..s }
}

/// The state once the finished command records have been handed over.
pub open spec fn records_drained(s: ScreenView) -> ScreenView {
    ScreenView { records: Seq::empty(), ..s }
}

/// The screen model of one session.
pub struct Screen {
    line: Vec<char>,
    col: usize,
    alt_screen: bool,
    phase: Phase,
    cmd_buf: Vec<char>,
    cmd_explicit: bool,
    cmd_start: Option<u64>,
    log: Vec<String>,
    records: Vec<CommandRecord>,
}

impl View for Screen {
    type V = ScreenView;

    closed spec fn view(&self) -> ScreenView {
        ScreenView {
            line: self.line@,
            col: self.col as nat,
            alt_screen: self.alt_screen,
            phase: self.phase,
            cmd_buf: self.cmd_buf@,
            cmd_explicit: self.cmd_explicit,
            cmd_start: self.cmd_start,
            log: string_seqs(self.log@),
            records: record_views(self.records@),
        }
    }
}

/// Room left in the current line before a position would no longer fit in a
/// `usize`; a line that long cannot be held in memory.
pub open spec fn line_fits(s: ScreenView) -> bool {
    s.line.len() + 8 < usize::MAX && s.col <= s.line.len()
}


impl Screen {
    /// A fresh model: empty line, main screen, no command in flight.
    pub fn new() -> (r: Screen)
        ensures
            r@ == initial_screen(),
    {
        let r = Screen {
            line: Vec::new(),
            col: 0,
            alt_screen: false,
            phase: Phase::Idle,
            cmd_buf: Vec::new(),
            cmd_explicit: false,
            cmd_start: None,
            log: Vec::new(),
            records: Vec::new(),
        };
        assert(r@.log == Seq::<Seq<char>>::empty());
        assert(r@.records == Seq::<RecordView>::empty());
        r
    }

    /// Whether the alternate screen is up.
    pub fn alt_screen(&self) -> (r: bool)
        ensures
            r == self@.alt_screen,
    {
        self.alt_screen
    }

    /// Length of the current line, in characters.
    pub fn line_len(&self) -> (r: usize)
        ensures
            r == self@.line.len(),
    {
        self.line.len()
    }

    /// Cursor column.
    pub fn col(&self) -> (r: usize)
        ensures
            r == self@.col,
    {
        self.col
    }

    fn flush_line(&mut self)
        ensures
            final(self)@ == flush_line_spec(old(self)@),
    {
        let n = trim_end_len(&self.line);
        if !self.alt_screen && n > 0 {
            let mut t: Vec<char> = Vec::new();
            let mut i: usize = 0;
            while i < n
                invariant
                    n <= self.line.len(),
                    i <= n,
                    t@ == self.line@.take(i as int),
                decreases n - i,
            {
                t.push(self.line[i]);
                i = i + 1;
            }
            assert(t@ == trim_end_seq(self.line@));
            let ghost old_log = self@.log;
            self.log.push(string_of(&t));
            assert(self@.log == old_log.push(t@));
        }
        self.line = Vec::new();
        self.col = 0;
    }

    /// A printable character from the parser.
    pub fn print(&mut self, c: char)
        requires
            old(self)@.line.len() + 1 < usize::MAX,
            old(self)@.col <= old(self)@.line.len(),
        ensures
            final(self)@ == print_spec(old(self)@, c),
            final(self)@.line.len() <= old(self)@.line.len() + 1,
            final(self)@.col <= final(self)@.line.len(),
    {
        if self.phase == Phase::Command && !self.cmd_explicit {
            self.cmd_buf.push(c);
        }
        if self.alt_screen {
            return;
        }
        if self.col < self.line.len() {
            self.line.set(self.col, c);
        } else {
            self.line.push(c);
        }
        self.col = self.col + 1;
    }

    /// A C0 control byte from the parser.
    ///
    /// A tab while the alternate screen is up is left out: the column does
    /// not advance there, so padding to the next tab stop never finishes.
    pub fn execute(&mut self, byte: u8)
        requires
            line_fits(old(self)@),
            !(byte == 0x09 && old(self)@.alt_screen),
        ensures
            final(self)@ == execute_spec(old(self)@, byte),
            final(self)@.col <= final(self)@.line.len(),
            final(self)@.line.len() <= old(self)@.line.len() + 8,
    {
        if byte == 0x0a {
            self.flush_line();
        } else if byte == 0x0d {
            self.col = 0;
        } else if byte == 0x09 {
            let next = (self.col / 8 + 1) * 8;
            let ghost start = self@;
            let ghost total: nat = (next - self.col) as nat;
            assert(next <= start.col + 8 && next > start.col) by (nonlinear_arith)
                requires next == (start.col / 8 + 1) * 8;
            while self.col < next
                invariant
                    !self.alt_screen,
                    start.col <= self.col <= next,
                    next == next_tab_stop(start.col),
                    next <= start.col + 8,
                    total == next - start.col,
                    start.line.len() + 8 < usize::MAX,
                    start.col <= start.line.len(),
                    self.line@.len() <= start.line.len() + (self.col - start.col),
                    self.col <= self.line@.len(),
                    print_n_spec(start, ' ', total) == print_n_spec(self@, ' ', (next - self.col) as nat),
                decreases next - self.col,
            {
                self.print(' ');
            }
        } else if byte == 0x08 {
            if self.col > 0 {
                self.col = self.col - 1;
            }
        }
    }

    /// A CSI sequence from the parser: alternate-screen switches and
    /// erase-in-line.
    pub fn csi_dispatch(&mut self, params: &Vec<Vec<u16>>, intermediates: &Vec<u8>, action: char)
        requires
            line_fits(old(self)@),
        ensures
            final(self)@ == csi_spec(old(self)@, param_seqs(params@), intermediates@, action),
            line_fits(final(self)@),
            final(self)@.line.len() <= old(self)@.line.len(),
    {
        let ghost s0 = self@;
        let ghost ps = param_seqs(params@);
        if intermediates.len() > 0 && intermediates[0] == 0x3f && (action == 'h' || action == 'l') {
            let ghost applied = if action == 'h' {
                ScreenView { alt_screen: true, ..flush_line_spec(s0) }
            } else {
                ScreenView { alt_screen: false, line: Seq::empty(), col: 0, ..s0 }
            };
            let mut i: usize = 0;
            while i < params.len()
                invariant
                    i <= params.len(),
                    ps == param_seqs(params@),
                    applied == (if action == 'h' {
                        ScreenView { alt_screen: true, ..flush_line_spec(s0) }
                    } else {
                        ScreenView { alt_screen: false, line: Seq::empty(), col: 0, ..s0 }
                    }),
                    action == 'h' || action == 'l',
                    line_fits(s0),
                    self@ == (if any_alt_param(ps.take(i as int)) { applied } else { s0 }),
                decreases params.len() - i,
            {
                let p = &params[i];
                assert(ps[i as int] == p@);
                if p.len() > 0 && (p[0] == 1049 || p[0] == 1047 || p[0] == 47) {
                    assert(is_alt_param(ps.take(i + 1)[i as int]));
                    if action == 'h' {
                        self.flush_line();
                        self.alt_screen = true;
                    } else {
                        self.alt_screen = false;
                        self.line = Vec::new();
                        self.col = 0;
                    }
                    assert(self@ == applied);
                } else {
                    assert(any_alt_param(ps.take(i + 1)) == any_alt_param(ps.take(i as int))) by {
                        if any_alt_param(ps.take(i + 1)) {
                            let k = choose|k: int| 0 <= k < i + 1 && is_alt_param(#[trigger] ps.take(i + 1)[k]);
                            assert(k < i);
                            assert(ps.take(i as int)[k] == ps.take(i + 1)[k]);
                        }
                        if any_alt_param(ps.take(i as int)) {
                            let k = choose|k: int| 0 <= k < i && is_alt_param(#[trigger] ps.take(i as int)[k]);
                            assert(ps.take(i as int)[k] == ps.take(i + 1)[k]);
                        }
                    }
                }
                i = i + 1;
            }
            assert(ps.take(params.len() as int) == ps);
        }
        let ghost s1 = self@;
        assert(s1 == csi_mode_spec(s0, ps, intermediates@, action));
        if action == 'K' && !self.alt_screen {
            let n: u16 = if params.len() > 0 && params[0].len() > 0 { params[0][0] } else { 0 };
            assert(n == first_param(ps));
            if n == 0 && self.col < self.line.len() {
                self.line.truncate(self.col);
            }
        }
    }

    /// An OSC sequence from the parser, with the current reading of a
    /// monotonic millisecond clock.
    pub fn osc_dispatch(&mut self, params: &Vec<Vec<u8>>, now_ms: u64)
        requires
            line_fits(old(self)@),
        ensures
            final(self)@ == osc_spec(old(self)@, byte_seqs(params@), now_ms),
            line_fits(final(self)@),
            final(self)@.line.len() <= old(self)@.line.len(),
    {
        let ghost ps = byte_seqs(params@);
        if params.len() < 2 {
            return;
        }
        let first = &params[0];
        assert(ps[0] == first@);
        if !(first.len() == 3 && first[0] == 0x31 && first[1] == 0x33 && first[2] == 0x33) {
            assert(ps[0] != seq![0x31u8, 0x33u8, 0x33u8]) by {
                if ps[0] == seq![0x31u8, 0x33u8, 0x33u8] {
                    assert(first@.len() == 3);
                    assert(first@[0] == 0x31 && first@[1] == 0x33 && first@[2] == 0x33);
                }
            }
            return;
        }
        assert(first@ == seq![0x31u8, 0x33u8, 0x33u8]);
        let kind = &params[1];
        assert(ps[1] == kind@);
        if kind.len() == 0 {
            return;
        }
        let k = kind[0];
        if k == 0x41 {
            self.flush_line();
            self.phase = Phase::Idle;
        } else if k == 0x42 {
            if !self.cmd_explicit {
                self.cmd_buf = Vec::new();
            }
            self.phase = Phase::Command;
        } else if k == 0x45 {
            if params.len() > 2 {
                let mut joined: Vec<char> = Vec::new();
                let mut i: usize = 2;
                while i < params.len()
                    invariant
                        2 <= i <= params.len(),
                        ps == byte_seqs(params@),
                        joined@ == join_lossy(ps.subrange(2, i as int)),
                    decreases params.len() - i,
                {
                    let piece = chars_of(lossy(params[i].as_slice()).as_str());
                    assert(ps[i as int] == params[i as int]@);
                    if i > 2 {
                        joined.push(';');
                    }
                    let mut j: usize = 0;
                    let ghost before = joined@;
                    while j < piece.len()
                        invariant
                            j <= piece.len(),
                            joined@ == before + piece@.take(j as int),
                        decreases piece.len() - j,
                    {
                        joined.push(piece[j]);
                        j = j + 1;
                    }
                    assert(piece@.take(piece.len() as int) == piece@);
                    assert(ps.subrange(2, i + 1).drop_last() == ps.subrange(2, i as int));
                    assert(ps.subrange(2, i + 1).last() == ps[i as int]);
                    if i == 2 {
                        assert(ps.subrange(2, 3) == seq![ps[2]]);
                    }
                    i = i + 1;
                }
                assert(ps.subrange(2, params.len() as int) == ps.skip(2));
                self.cmd_buf = joined;
                self.cmd_explicit = true;
            }
        } else if k == 0x43 {
            self.phase = Phase::Output;
            self.cmd_start = Some(now_ms);
        } else if k == 0x44 {
            let exit: Option<i32> = if params.len() > 2 {
                assert(ps[2] == params[2]@);
                match utf8_decode(params[2].as_slice()) {
                    Some(text) => {
                        let cs = chars_of(text.as_str());
                        let t = trim_chars(&cs);
                        parse_i32(&t)
                    },
                    None => None,
                }
            } else {
                None
            };
            assert(exit == exit_code_spec(ps));
            let cmd = trim_chars(&self.cmd_buf);
            let dur: u64 = match self.cmd_start {
                Some(t) => if now_ms >= t { now_ms - t } else { 0 },
                None => 0,
            };
            if cmd.len() > 0 {
                let ghost old_records = self@.records;
                self.records.push(CommandRecord { command: string_of(&cmd), exit_code: exit, duration_ms: dur });
                assert(self@.records == old_records.push(RecordView { command: cmd@, exit_code: exit, duration_ms: dur }));
            }
            self.cmd_buf = Vec::new();
            self.cmd_explicit = false;
            self.cmd_start = None;
            self.phase = Phase::Idle;
        }
    }

    /// The session ended: the line in progress goes to the log, as a
    /// newline would send it.
    pub fn close(&mut self)
        ensures
            final(self)@ == flush_line_spec(old(self)@),
    {
        self.flush_line();
    }

    /// Hands over the finished log lines, oldest first.
    pub fn take_log(&mut self) -> (r: Vec<String>)
        ensures
            string_seqs(r@) == old(self)@.log,
            final(self)@ == log_drained(old(self)@),
    {
        let mut r: Vec<String> = Vec::new();
        std::mem::swap(&mut r, &mut self.log);
        assert(self@.log == Seq::<Seq<char>>::empty());
        r
    }

    /// Hands over the finished command records, oldest first.
    pub fn take_records(&mut self) -> (r: Vec<CommandRecord>)
        ensures
            record_views(r@) == old(self)@.records,
            final(self)@ == records_drained(old(self)@),
    {
        let mut r: Vec<CommandRecord> = Vec::new();
        std::mem::swap(&mut r, &mut self.records);
        assert(self@.records == Seq::<RecordView>::empty());
        r
    }
}


/// Printing `n` characters on the main screen moves the cursor `n` columns
/// right and keeps everything but the line and the command text.
proof fn lemma_print_n(s: ScreenView, c: char, n: nat)
    requires
        !s.alt_screen,
    ensures
        print_n_spec(s, c, n).col == s.col + n,
        print_n_spec(s, c, n).alt_screen == s.alt_screen,
        print_n_spec(s, c, n).log == s.log,
        print_n_spec(s, c, n).records == s.records,
        print_n_spec(s, c, n).phase == s.phase,
    decreases n,
{
    if n > 0 {
        lemma_print_n(print_spec(s, c), c, (n - 1) as nat);
    }
}

/// While a full-screen application holds the alternate screen, nothing it
/// draws reaches the log: no event adds a log line.
pub proof fn alternate_screen_is_never_logged(
    s: ScreenView,
    c: char,
    byte: u8,
    params: Seq<Seq<u16>>,
    intermediates: Seq<u8>,
    action: char,
    osc: Seq<Seq<u8>>,
    now_ms: u64,
)
    requires
        s.alt_screen,
        byte != 0x09,
    ensures
        print_spec(s, c).log == s.log,
        execute_spec(s, byte).log == s.log,
        csi_spec(s, params, intermediates, action).log == s.log,
        osc_spec(s, osc, now_ms).log == s.log,
{
}

/// A tab on the main screen moves the cursor to the next multiple of 8 and
/// produces no log line or record.
pub proof fn tab_moves_to_next_tab_stop(s: ScreenView)
    requires
        !s.alt_screen,
    ensures
        execute_spec(s, 0x09).col == next_tab_stop(s.col),
        execute_spec(s, 0x09).col % 8 == 0,
        execute_spec(s, 0x09).col > s.col,
        execute_spec(s, 0x09).log == s.log,
        execute_spec(s, 0x09).records == s.records,
{
    assert(next_tab_stop(s.col) > s.col && next_tab_stop(s.col) % 8 == 0) by (nonlinear_arith)
        requires next_tab_stop(s.col) == (s.col / 8 + 1) * 8;
    lemma_print_n(s, ' ', (next_tab_stop(s.col) - s.col) as nat);
}

/// Once `133;E` has reported the command line, echoed text never replaces
/// it: neither printing nor a later `133;B` changes the command text.
pub proof fn explicit_command_wins_over_echo(s: ScreenView, c: char, now_ms: u64)
    requires
        s.cmd_explicit,
    ensures
        print_spec(s, c).cmd_buf == s.cmd_buf,
        osc_spec(s, seq![seq![0x31u8, 0x33u8, 0x33u8], seq![0x42u8]], now_ms).cmd_buf == s.cmd_buf,
{
    let p = seq![seq![0x31u8, 0x33u8, 0x33u8], seq![0x42u8]];
    assert(is_osc133(p));
    assert(p[1][0] == 0x42u8);
}

/// Command records are only ever appended: every event leaves the records
/// already made in place and adds at most one.
pub proof fn records_are_append_only(
    s: ScreenView,
    c: char,
    byte: u8,
    params: Seq<Seq<u16>>,
    intermediates: Seq<u8>,
    action: char,
    osc: Seq<Seq<u8>>,
    now_ms: u64,
)
    requires
        !(byte == 0x09 && s.alt_screen),
    ensures
        print_spec(s, c).records == s.records,
        execute_spec(s, byte).records == s.records,
        csi_spec(s, params, intermediates, action).records == s.records,
        osc_spec(s, osc, now_ms).records == s.records || (osc_spec(s, osc, now_ms).records
            == s.records.push(osc_spec(s, osc, now_ms).records.last())),
{
    if byte == 0x09 {
        lemma_print_n(s, ' ', (next_tab_stop(s.col) - s.col) as nat);
    }
}

/// `133;D` closes the command: a record is made exactly when the collected
/// command text is not blank, it carries that text trimmed, and the command
/// state starts afresh.
pub proof fn finishing_a_command_resets_the_cycle(s: ScreenView, osc: Seq<Seq<u8>>, now_ms: u64)
    requires
        is_osc133(osc),
        osc[1][0] == 0x44,
    ensures
        ({
            let t = osc_spec(s, osc, now_ms);
            &&& t.phase == Phase::Idle
            &&& t.cmd_buf.len() == 0
            &&& !t.cmd_explicit
            &&& t.cmd_start is None
            &&& (trim_seq(s.cmd_buf).len() > 0 ==> t.records == s.records.push(
                RecordView {
                    command: trim_seq(s.cmd_buf),
                    exit_code: exit_code_spec(osc),
                    duration_ms: t.records.last().duration_ms,
                },
            ))
            &&& (trim_seq(s.cmd_buf).len() == 0 ==> t.records == s.records)
        }),
{
}

/// `133;A` starts the prompt on a fresh line: whatever is on the current
/// line is logged first (trailing whitespace dropped, and only when it is
/// not blank and the main screen is up), the line is emptied with the
/// cursor at its start, and nothing else but the phase changes.
pub proof fn a_prompt_starts_on_a_fresh_line(s: ScreenView, osc: Seq<Seq<u8>>, now_ms: u64)
    requires
        is_osc133(osc),
        osc[1][0] == 0x41,
    ensures
        ({
            let t = osc_spec(s, osc, now_ms);
            &&& t.line.len() == 0
            &&& t.col == 0
            &&& t.phase == Phase::Idle
            &&& t.log == (if !s.alt_screen && trim_end_seq(s.line).len() > 0 {
                s.log.push(trim_end_seq(s.line))
            } else {
                s.log
            })
            &&& t.records == s.records
            &&& t.cmd_buf == s.cmd_buf
            &&& t.cmd_explicit == s.cmd_explicit
            &&& t.cmd_start == s.cmd_start
            &&& t.alt_screen == s.alt_screen
        }),
{
}

} // verus!
