use terminator::screen::{CommandRecord, Screen};

/// Drives the screen model from the VT parser, as the plain-text tap does.
struct Feed {
    screen: Screen,
    now_ms: u64,
}

impl vte::Perform for Feed {
    fn print(&mut self, c: char) {
        self.screen.print(c);
    }

    fn execute(&mut self, byte: u8) {
        if byte == b'\t' && self.screen.alt_screen() {
            return;
        }
        self.screen.execute(byte);
    }

    fn csi_dispatch(&mut self, params: &vte::Params, intermediates: &[u8], _ignore: bool, action: char) {
        let ps: Vec<Vec<u16>> = params.iter().map(|p| p.to_vec()).collect();
        self.screen.csi_dispatch(&ps, &intermediates.to_vec(), action);
    }

    fn osc_dispatch(&mut self, params: &[&[u8]], _bell_terminated: bool) {
        let ps: Vec<Vec<u8>> = params.iter().map(|p| p.to_vec()).collect();
        self.screen.osc_dispatch(&ps, self.now_ms);
    }
}

/// Feeds `bytes` through a fresh screen and returns the command records and
/// the plain-text log.
fn run(bytes: &[u8]) -> (Vec<CommandRecord>, String) {
    let mut parser = vte::Parser::new();
    let mut feed = Feed { screen: Screen::new(), now_ms: 0 };
    parser.advance(&mut feed, bytes);
    feed.screen.close();
    let log: String = feed.screen.take_log().into_iter().map(|l| l + "\n").collect();
    (feed.screen.take_records(), log)
}

#[test]
fn captures_command_exit_code_and_output() {
    let stream = [
        "\x1b]133;A\x07",
        "user@host ~ $ ",
        "\x1b]133;E;echo hi\x07",
        "echo hi\r\n",
        "\x1b]133;C\x07",
        "hi\r\n",
        "\x1b]133;D;0\x07",
    ].concat();
    let (recs, log) = run(stream.as_bytes());

    assert_eq!(recs.len(), 1, "expected exactly one command");
    assert_eq!(recs[0].command, "echo hi");
    assert_eq!(recs[0].exit_code, Some(0));
    assert!(log.contains("hi"), "output missing from log:\n{log}");
    assert!(!log.contains('\u{1b}'), "escape codes leaked:\n{log}");
}

#[test]
fn captures_nonzero_exit_code() {
    let stream = ["\x1b]133;A\x07", "\x1b]133;E;false\x07", "\x1b]133;C\x07", "\x1b]133;D;1\x07"].concat();
    let (recs, _) = run(stream.as_bytes());
    assert_eq!(recs.len(), 1);
    assert_eq!(recs[0].command, "false");
    assert_eq!(recs[0].exit_code, Some(1));
}

#[test]
fn command_containing_semicolons_survives_osc_param_splitting() {
    let stream = [
        "\x1b]133;A\x07",
        "\x1b]133;E;cd /tmp; ls -la; echo done\x07",
        "\x1b]133;C\x07",
        "\x1b]133;D;0\x07",
    ].concat();
    let (recs, _) = run(stream.as_bytes());
    assert_eq!(recs.len(), 1);
    assert_eq!(recs[0].command, "cd /tmp; ls -la; echo done");
}

#[test]
fn falls_back_to_echoed_text_when_no_explicit_command_marker() {
    let stream = [
        "\x1b]133;A\x07",
        "$ ",
        "\x1b]133;B\x07",
        "uptime",
        "\r\n\x1b]133;C\x07",
        "load average: 1.0\r\n",
        "\x1b]133;D;0\x07",
    ].concat();
    let (recs, _) = run(stream.as_bytes());
    assert_eq!(recs.len(), 1, "expected one command");
    assert_eq!(recs[0].command, "uptime");
}

#[test]
fn explicit_marker_wins_over_echoed_text() {
    let stream = [
        "\x1b]133;A\x07",
        "\x1b]133;E;git status\x07",
        "\x1b]133;B\x07",
        "git \x1b[32mstatus\x1b[0m",
        "\x1b]133;C\x07",
        "\x1b]133;D;0\x07",
    ].concat();
    let (recs, _) = run(stream.as_bytes());
    assert_eq!(recs.len(), 1);
    assert_eq!(recs[0].command, "git status");
}

#[test]
fn bare_prompt_with_no_command_records_nothing() {
    let stream = "\x1b]133;D;0\x07\x1b]133;A\x07user@host ~ $ ";
    let (recs, _) = run(stream.as_bytes());
    assert!(recs.is_empty(), "recorded a phantom command");
}

#[test]
fn state_resets_between_commands() {
    let stream = [
        "\x1b]133;A\x07\x1b]133;E;first\x07\x1b]133;C\x07\x1b]133;D;0\x07",
        "\x1b]133;A\x07\x1b]133;E;second\x07\x1b]133;C\x07\x1b]133;D;2\x07",
    ].concat();
    let (recs, _) = run(stream.as_bytes());
    assert_eq!(recs.len(), 2);
    assert_eq!(recs[0].command, "first");
    assert_eq!(recs[0].exit_code, Some(0));
    assert_eq!(recs[1].command, "second");
    assert_eq!(recs[1].exit_code, Some(2));
}

#[test]
fn carriage_return_overwrites_in_place() {
    let (_, log) = run(b"progress 10%\rprogress 99%\r\ndone\r\n");
    assert_eq!(log, "progress 99%\ndone\n");
}

#[test]
fn the_alternate_screen_is_not_logged() {
    let (_, log) = run(b"before\r\n\x1b[?1049hvim noise\r\n\x1b[?1049lafter\r\n");
    assert_eq!(log, "before\nafter\n");
}

#[test]
fn tabs_pad_to_the_next_stop_and_erase_clears_to_the_end() {
    let (_, log) = run(b"a\tb\r\n");
    assert_eq!(log, "a       b\n");
    let (_, log) = run(b"hello world\x08\x08\x08\x08\x08\x08\x1b[K\r\n");
    assert_eq!(log, "hello\n");
}

#[test]
fn duration_comes_from_the_clock_given_at_each_marker() {
    let mut s = Screen::new();
    s.osc_dispatch(&vec![b"133".to_vec(), b"E".to_vec(), b"make".to_vec()], 0);
    s.osc_dispatch(&vec![b"133".to_vec(), b"C".to_vec()], 1000);
    s.osc_dispatch(&vec![b"133".to_vec(), b"D".to_vec(), b" 7 ".to_vec()], 1250);
    let recs = s.take_records();
    assert_eq!(recs.len(), 1);
    assert_eq!(recs[0].duration_ms, 250);
    assert_eq!(recs[0].exit_code, Some(7));
}
