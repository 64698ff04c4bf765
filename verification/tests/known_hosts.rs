use terminator::known_hosts::KnownHostsManager;

fn lines(text: &str) -> Vec<Option<String>> {
    text.lines().map(|l| Some(l.to_string())).collect()
}

const ED25519: &str = "AAAAC3NzaC1lZDI1NTE5AAAAIAECAwQFBgcICQoLDA0ODxAREhMUFRYXGBkaGxwdHh8g";

#[test]
fn entries_skip_blank_lines_and_comments_and_keep_line_numbers() {
    let text = format!("# comment\n\nhost1 ssh-ed25519 {ED25519}\n  \n@cert-authority *.example ssh-ed25519 {ED25519} ca key\n");
    let es = KnownHostsManager::list_from_lines(&lines(&text)).unwrap();
    assert_eq!(es.len(), 2);
    assert_eq!(es[0].line_number, 3);
    assert_eq!(es[0].host_pattern, "host1");
    assert_eq!(es[0].key_type, "ssh-ed25519");
    assert_eq!(es[0].public_key, ED25519);
    assert_eq!(es[0].comment.as_deref(), Some(""));
    assert_eq!(es[0].id, "host1:ssh-ed25519:3");
    assert_eq!(es[1].line_number, 5);
    assert_eq!(es[1].host_pattern, "*.example");
    assert_eq!(es[1].comment.as_deref(), Some("ca key"));
}

#[test]
fn a_parseable_key_gets_real_fingerprints() {
    let es = KnownHostsManager::list_from_lines(&lines(&format!("h ssh-ed25519 {ED25519}"))).unwrap();
    assert!(es[0].fingerprint_sha256.starts_with("SHA256:"));
    assert!(es[0].fingerprint_md5.starts_with("SHA512:"));
}

#[test]
fn an_unparseable_key_falls_back_to_its_first_32_bytes() {
    let key = "notbase64atallbutlongerthanthirtytwobytes";
    let es = KnownHostsManager::list_from_lines(&lines(&format!("h ssh-rsa {key}"))).unwrap();
    assert_eq!(es[0].fingerprint_sha256, format!("SHA256:{}", &key[..32]));
    assert_eq!(es[0].fingerprint_md5, "N/A");
}

#[test]
fn hashed_hosts_are_flagged() {
    let es = KnownHostsManager::list_from_lines(&lines("|1|abc=|def= ssh-rsa AAAA")).unwrap();
    assert!(es[0].is_hashed);
    let es = KnownHostsManager::list_from_lines(&lines("plain ssh-rsa AAAA")).unwrap();
    assert!(!es[0].is_hashed);
}

#[test]
fn short_lines_and_unreadable_lines_are_skipped_but_counted() {
    let mut ls = lines("a b\n@marker a b\n");
    ls.insert(0, None);
    ls.push(Some("x ssh-rsa KEY".to_string()));
    let es = KnownHostsManager::list_from_lines(&ls).unwrap();
    assert_eq!(es.len(), 1);
    assert_eq!(es[0].line_number, 4);
}

#[test]
fn a_key_cut_inside_a_character_is_refused() {
    // 31 ASCII bytes and then a two-byte character: byte 32 falls inside it.
    let key = format!("{}é", "a".repeat(31));
    assert!(KnownHostsManager::list_from_lines(&lines(&format!("h t {key}"))).is_none());
    assert!(KnownHostsManager::calculate_fingerprints(&key, "t").is_none());
}

#[test]
fn deleting_by_line_removes_exactly_that_line() {
    let text = "a ssh-rsa K1\nb ssh-rsa K2\nc ssh-rsa K3\n";
    assert_eq!(KnownHostsManager::delete_from(text, 2, "b"), "a ssh-rsa K1\nc ssh-rsa K3\n");
}

#[test]
fn deleting_by_pattern_keeps_comments_and_blank_lines() {
    let text = "# b here\nb ssh-rsa K1\n\nb2 ssh-rsa K2\nc ssh-rsa K3\r\n";
    // Line 5 does not mention "b", so every entry line that does goes.
    assert_eq!(KnownHostsManager::delete_from(text, 5, "b"), "# b here\n\nc ssh-rsa K3\n");
    assert_eq!(KnownHostsManager::delete_from(text, 0, "zzz"), "# b here\nb ssh-rsa K1\n\nb2 ssh-rsa K2\nc ssh-rsa K3\n");
}

#[test]
fn new_entries_are_trimmed_and_end_with_a_newline() {
    assert_eq!(
        KnownHostsManager::entry_line(" host ", "ssh-ed25519", " KEY ", Some(" my laptop ")),
        "host ssh-ed25519 KEY my laptop\n"
    );
    assert_eq!(KnownHostsManager::entry_line("h", "t", "k", Some("   ")), "h t k\n");
    assert_eq!(KnownHostsManager::entry_line("h", "t", "k", None), "h t k\n");
}

#[test]
fn parse_line_reports_skips() {
    assert!(matches!(KnownHostsManager::parse_line("# x y z", 1), Some(None)));
    assert!(matches!(KnownHostsManager::parse_line("", 1), Some(None)));
}
