use terminator::ringbuffer::OutputRingBuffer;

fn push_str(buf: &mut OutputRingBuffer, s: &str) {
    buf.push(s.as_bytes().to_vec());
}

#[test]
fn search_finds_substring_in_lines() {
    let mut buf = OutputRingBuffer::new();
    push_str(&mut buf, "first line\n");
    push_str(&mut buf, "second line with NEEDLE here\n");
    push_str(&mut buf, "third line\n");
    let hits = buf.search("NEEDLE", false, 100);
    assert_eq!(hits.len(), 1);
    assert_eq!(hits[0].line_number, 2);
    assert!(hits[0].text.contains("NEEDLE"));
}

#[test]
fn search_is_case_insensitive_by_default() {
    let mut buf = OutputRingBuffer::new();
    push_str(&mut buf, "Foo bar baz\n");
    push_str(&mut buf, "BAZ qux\n");
    let hits = buf.search("baz", false, 100);
    assert_eq!(hits.len(), 2);
}

#[test]
fn search_respects_case_sensitive_flag() {
    let mut buf = OutputRingBuffer::new();
    push_str(&mut buf, "Foo bar\n");
    push_str(&mut buf, "BAZ qux\n");
    let hits = buf.search("foo", true, 100);
    assert!(hits.is_empty());
    let hits = buf.search("BAZ", true, 100);
    assert_eq!(hits.len(), 1);
}

#[test]
fn search_caps_at_max_results() {
    let mut buf = OutputRingBuffer::new();
    for i in 0..100 {
        push_str(&mut buf, &format!("line {} with NEEDLE here\n", i));
    }
    let hits = buf.search("NEEDLE", false, 5);
    assert_eq!(hits.len(), 5);
    assert_eq!(hits[0].line_number, 1);
    assert_eq!(hits[4].line_number, 5);
}

#[test]
fn search_returns_empty_when_no_match() {
    let mut buf = OutputRingBuffer::new();
    push_str(&mut buf, "hello world\n");
    assert!(buf.search("NEEDLE", false, 100).is_empty());
}

#[test]
fn search_finds_match_across_chunk_boundary() {
    let mut buf = OutputRingBuffer::new();
    push_str(&mut buf, "this is a NEE");
    push_str(&mut buf, "DLE that crosses\n");
    let hits = buf.search("NEEDLE", false, 100);
    assert_eq!(hits.len(), 1);
}

#[test]
fn oldest_chunks_are_evicted_to_make_room() {
    let mut buf = OutputRingBuffer::with_capacity(10);
    buf.push(b"abcd".to_vec());
    buf.push(b"efgh".to_vec());
    buf.push(b"ijkl".to_vec());
    assert_eq!(buf.len(), 8);
    assert_eq!(buf.snapshot(), vec![b"efgh".to_vec(), b"ijkl".to_vec()]);
}

#[test]
fn an_oversized_chunk_keeps_its_tail() {
    let mut buf = OutputRingBuffer::with_capacity(4);
    buf.push(b"ab".to_vec());
    buf.push(b"0123456789".to_vec());
    assert_eq!(buf.snapshot(), vec![b"6789".to_vec()]);
    assert_eq!(buf.len(), 4);
}
