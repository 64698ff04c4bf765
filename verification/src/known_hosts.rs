//! OpenSSH `known_hosts` handling: parsing entries out of the file's lines,
//! deleting entries, and formatting a new one.
//!
//! A line reads `[@marker] host_pattern key_type base64_key [comment]`;
//! blank lines and `#` comments are skipped. Opening, reading and writing
//! the file is the caller's business.

use vstd::prelude::*;
use crate::text::{
    byte_prefix, char_views, chars_of, contains_chars, contains_seq, decimal, join_spaced, join_words, lines_of,
    prefix_bytes, push_decimal, split_words, string_of, text_lines, trim_chars, trim_seq, words,
};

verus! {

/// One parsed `known_hosts` entry.
#[derive(Clone, Debug)]
pub struct KnownHostEntry {
    /// `host_pattern:key_type:line_number`.
    pub id: String,
    /// 1-based.
    pub line_number: usize,
    pub host_pattern: String,
    pub key_type: String,
    pub public_key: String,
    pub comment: Option<String>,
    pub fingerprint_sha256: String,
    /// Despite the name, the SHA-512 fingerprint (or `N/A`).
    pub fingerprint_md5: String,
    /// Whether the host name is hashed (`|1|...`).
    pub is_hashed: bool,
}

pub struct KnownHostEntryView {
    pub id: Seq<char>,
    pub line_number: int,
    pub host_pattern: Seq<char>,
    pub key_type: Seq<char>,
    pub public_key: Seq<char>,
    pub comment: Option<Seq<char>>,
    pub fingerprint_sha256: Seq<char>,
    pub fingerprint_md5: Seq<char>,
    pub is_hashed: bool,
}

impl View for KnownHostEntry {
    type V = KnownHostEntryView;

    open spec fn view(&self) -> KnownHostEntryView {
        KnownHostEntryView {
            id: self.id@,
            line_number: self.line_number as int,
            host_pattern: self.host_pattern@,
            key_type: self.key_type@,
            public_key: self.public_key@,
            comment: match self.comment {
                Some(c) => Some(c@),
                None => None,
            },
            fingerprint_sha256: self.fingerprint_sha256@,
            fingerprint_md5: self.fingerprint_md5@,
            is_hashed: self.is_hashed,
        }
    }
}

/// The SHA-256 and SHA-512 fingerprints, as their `Display` renders them,
/// of the OpenSSH public key line `key_type key`; `None` when it does not
/// parse as one.
pub uninterp spec fn openssh_fingerprints(key_type: Seq<char>, key: Seq<char>) -> Option<(Seq<char>, Seq<char>)>;

/// Calls `ssh_key::PublicKey::from_openssh` on `"{key_type} {key}"`, then
/// `fingerprint(HashAlg::Sha256)` and `fingerprint(HashAlg::Sha512)` and
/// renders both. Nothing is claimed of the result beyond its name.
#[verifier::external_body]
fn key_fingerprints(key_type: &str, key: &str) -> (r: Option<(String, String)>)
    ensures
        match r {
            Some(p) => openssh_fingerprints(key_type@, key@) == Some((p.0@, p.1@)),
            None => openssh_fingerprints(key_type@, key@) is None,
        },
{
    let pk = russh::keys::PublicKey::from_openssh(&format!("{} {}", key_type, key)).ok()?;
    let sha256 = pk.fingerprint(russh::keys::HashAlg::Sha256).to_string();
    let sha512 = pk.fingerprint(russh::keys::HashAlg::Sha512).to_string();
    Some((sha256, sha512))
}

/// What a line of the file gives.
pub enum LineOutcome {
    /// Blank, a comment, or too few fields.
    Skip,
    Entry(KnownHostEntryView),
    /// The key neither parses nor can be cut at 32 bytes; reading the file
    /// panics there.
    Unsliceable,
}

pub open spec fn sha256_label() -> Seq<char> {
    seq!['S', 'H', 'A', '2', '5', '6', ':']
}

pub open spec fn not_available() -> Seq<char> {
    seq!['N', '/', 'A']
}

/// The two fingerprints shown for a key: the real ones when the key parses,
/// otherwise `SHA256:` and the key's first 32 bytes, and `N/A`.
pub open spec fn fingerprints_spec(key_type: Seq<char>, key: Seq<char>) -> Option<(Seq<char>, Seq<char>)> {
    match openssh_fingerprints(key_type, key) {
        Some(p) => Some(p),
        None => match byte_prefix(key, 32) {
            Some(head) => Some((sha256_label() + head, not_available())),
            None => None,
        },
    }
}

/// What line `n` (1-based) of the file says.
pub open spec fn line_spec(line: Seq<char>, n: int) -> LineOutcome {
    let t = trim_seq(line);
    let w = words(t);
    let marker = w.len() > 0 && w[0].len() > 0 && w[0][0] == '@';
    let k: int = if marker { 1 } else { 0 };
    if t.len() == 0 || t[0] == '#' || w.len() < 3 || (marker && w.len() < 4) {
        LineOutcome::Skip
    } else {
        let host = w[k];
        let key_type = w[k + 1];
        let key = w[k + 2];
        match fingerprints_spec(key_type, key) {
            None => LineOutcome::Unsliceable,
            Some(fp) => LineOutcome::Entry(
                KnownHostEntryView {
                    id: host.push(':') + key_type.push(':') + decimal(n as nat),
                    line_number: n,
                    host_pattern: host,
                    key_type,
                    public_key: key,
                    comment: Some(join_spaced(w.skip(k + 3))),
                    fingerprint_sha256: fp.0,
                    fingerprint_md5: fp.1,
                    is_hashed: host.len() >= 3 && host.take(3) == seq!['|', '1', '|'],
                },
            ),
        }
    }
}

/// The entries of a file whose lines are `lines` (`None`: a line that could
/// not be read, which still counts); `None` when some line is
/// `Unsliceable`.
pub open spec fn listing_spec(lines: Seq<Option<Seq<char>>>) -> Option<Seq<KnownHostEntryView>>
    decreases lines.len(),
{
    if lines.len() == 0 {
        Some(Seq::empty())
    } else {
        match listing_spec(lines.drop_last()) {
            None => None,
            Some(prev) => match lines.last() {
                None => Some(prev),
                Some(l) => match line_spec(l, lines.len() as int) {
                    LineOutcome::Skip => Some(prev),
                    LineOutcome::Entry(e) => Some(prev.push(e)),
                    LineOutcome::Unsliceable => None,
                },
            },
        }
    }
}

/// Once a line panics, so does every longer file.
proof fn lemma_listing_stops(s: Seq<Option<Seq<char>>>, i: int)
    requires
        0 <= i <= s.len(),
        listing_spec(s.take(i)) is None,
    ensures
        listing_spec(s) is None,
    decreases s.len() - i,
{
    if s.len() == i {
        assert(s.take(i) =~= s);
    } else {
        assert(s.drop_last().take(i) =~= s.take(i));
        lemma_listing_stops(s.drop_last(), i);
    }
}

pub open spec fn opt_line_views(lines: Seq<Option<String>>) -> Seq<Option<Seq<char>>> {
    lines.map_values(
        |l: Option<String>|
            match l {
                Some(s) => Some(s@),
                None => None,
            },
    )
}

pub open spec fn entry_views(es: Seq<KnownHostEntry>) -> Seq<KnownHostEntryView> {
    es.map_values(|e: KnownHostEntry| e@)
}

/// Whether `retain` keeps a line when deleting by pattern: blank lines and
/// comments always stay, others only when they do not mention `pat`.
pub open spec fn kept(l: Seq<char>, pat: Seq<char>) -> bool {
    let t = trim_seq(l);
    t.len() == 0 || t[0] == '#' || !contains_seq(l, pat)
}

pub open spec fn keep_lines(ls: Seq<Seq<char>>, pat: Seq<char>) -> Seq<Seq<char>>
    decreases ls.len(),
{
    if ls.len() == 0 {
        Seq::empty()
    } else if kept(ls.last(), pat) {
        keep_lines(ls.drop_last(), pat).push(ls.last())
    } else {
        keep_lines(ls.drop_last(), pat)
    }
}

/// The lines left after deleting the entry at `line_number` (1-based) when
/// that line mentions `pat`, otherwise every entry line mentioning `pat`.
pub open spec fn deleted_lines(ls: Seq<Seq<char>>, line_number: int, pat: Seq<char>) -> Seq<Seq<char>> {
    if 1 <= line_number <= ls.len() && (contains_seq(ls[line_number - 1], pat) || pat.len() == 0) {
        ls.remove(line_number - 1)
    } else {
        keep_lines(ls, pat)
    }
}

/// Each line followed by `\n`.
pub open spec fn rendered(ls: Seq<Seq<char>>) -> Seq<char>
    decreases ls.len(),
{
    if ls.len() == 0 {
        Seq::empty()
    } else {
        rendered(ls.drop_last()) + ls.last().push('\n')
    }
}

/// The line appended for a new entry: the trimmed fields separated by
/// spaces, the comment only when it is not blank.
pub open spec fn entry_line_spec(host: Seq<char>, key_type: Seq<char>, key: Seq<char>, comment: Option<Seq<char>>) -> Seq<
    char,
> {
    let base = trim_seq(host).push(' ') + trim_seq(key_type).push(' ') + trim_seq(key);
    match comment {
        Some(c) => if trim_seq(c).len() > 0 {
            base.push(' ') + trim_seq(c).push('\n')
        } else {
            base.push('\n')
        },
        None => base.push('\n'),
    }
}

fn push_all(out: &mut Vec<char>, w: &Vec<char>)
    ensures
        final(out)@ == old(out)@ + w@,
{
    let ghost head = out@;
    let mut j: usize = 0;
    while j < w.len()
        invariant
            j <= w@.len(),
            out@ == head + w@.take(j as int),
        decreases w.len() - j,
    {
        out.push(w[j]);
        j = j + 1;
    }
    assert(w@.take(j as int) =~= w@);
}

/// Reads and writes `known_hosts` contents.
pub struct KnownHostsManager;

impl KnownHostsManager {
    /// The fingerprints shown for `key`: `None` where cutting the key at 32
    /// bytes would split a character.
    pub fn calculate_fingerprints(key_b64: &str, key_type: &str) -> (r: Option<(String, String)>)
        ensures
            match r {
                Some(p) => fingerprints_spec(key_type@, key_b64@) == Some((p.0@, p.1@)),
                None => fingerprints_spec(key_type@, key_b64@) is None,
            },
    {
        match key_fingerprints(key_type, key_b64) {
            Some(p) => Some(p),
            None => {
                let key = chars_of(key_b64);
                match prefix_bytes(&key, 32) {
                    None => None,
                    Some(head) => {
                        let mut a: Vec<char> = vec!['S', 'H', 'A', '2', '5', '6', ':'];
                        push_all(&mut a, &head);
                        let b: Vec<char> = vec!['N', '/', 'A'];
                        assert(b@ =~= not_available());
                        Some((string_of(&a), string_of(&b)))
                    },
                }
            },
        }
    }

    /// Parses line `line_number` of the file.
    pub fn parse_line(line: &str, line_number: usize) -> (r: Option<Option<KnownHostEntry>>)
        ensures
            match line_spec(line@, line_number as int) {
                LineOutcome::Skip => r == Some(None::<KnownHostEntry>),
                LineOutcome::Entry(e) => r is Some && r->Some_0 is Some && r->Some_0->Some_0@ == e,
                LineOutcome::Unsliceable => r is None,
            },
    {
        let v = chars_of(line);
        let t = trim_chars(&v);
        let w = split_words(&t);
        let ghost wv = char_views(w@);
        let marker = w.len() > 0 && w[0].len() > 0 && w[0][0] == '@';
        proof {
            if w@.len() > 0 {
                assert(wv[0] == w@[0]@);
            }
        }
        if t.len() == 0 || t[0] == '#' || w.len() < 3 || (marker && w.len() < 4) {
            return Some(None);
        }
        let k: usize = if marker { 1 } else { 0 };
        assert(wv[k as int] == w@[k as int]@ && wv[k + 1] == w@[k + 1]@ && wv[k + 2] == w@[k + 2]@);
        let host = string_of(&w[k]);
        let key_type = string_of(&w[k + 1]);
        let key = string_of(&w[k + 2]);
        let fp = match KnownHostsManager::calculate_fingerprints(key.as_str(), key_type.as_str()) {
            Some(p) => p,
            None => return None,
        };
        let comment = string_of(&join_words(&w, k + 3));
        let hv = &w[k];
        let is_hashed = hv.len() >= 3 && hv[0] == '|' && hv[1] == '1' && hv[2] == '|';
        proof {
            if hv@.len() >= 3 {
                if hv@.take(3) == seq!['|', '1', '|'] {
                    assert(hv@.take(3)[0] == hv@[0] && hv@.take(3)[1] == hv@[1] && hv@.take(3)[2] == hv@[2]);
                }
                if is_hashed {
                    assert(hv@.take(3) =~= seq!['|', '1', '|']);
                }
            }
        }
        let mut id: Vec<char> = Vec::new();
        push_all(&mut id, &w[k]);
        id.push(':');
        push_all(&mut id, &w[k + 1]);
        id.push(':');
        push_decimal(line_number as u64, &mut id);
        assert(id@ =~= hv@.push(':') + w@[k + 1]@.push(':') + decimal(line_number as nat));
        Some(
            Some(
                KnownHostEntry {
                    id: string_of(&id),
                    line_number,
                    host_pattern: host,
                    key_type,
                    public_key: key,
                    comment: Some(comment),
                    fingerprint_sha256: fp.0,
                    fingerprint_md5: fp.1,
                    is_hashed,
                },
            ),
        )
    }

    /// The entries of a file read line by line (`None`: a line that could
    /// not be read); `None` where reading it panics.
    pub fn list_from_lines(lines: &Vec<Option<String>>) -> (r: Option<Vec<KnownHostEntry>>)
        ensures
            match r {
                Some(es) => listing_spec(opt_line_views(lines@)) == Some(entry_views(es@)),
                None => listing_spec(opt_line_views(lines@)) is None,
            },
    {
        let ghost lv = opt_line_views(lines@);
        let mut out: Vec<KnownHostEntry> = Vec::new();
        let mut i: usize = 0;
        assert(lv.take(0) =~= Seq::<Option<Seq<char>>>::empty());
        while i < lines.len()
            invariant
                i <= lines@.len(),
                lv == opt_line_views(lines@),
                listing_spec(lv.take(i as int)) == Some(entry_views(out@)),
            decreases lines.len() - i,
        {
            let ghost prev = entry_views(out@);
            assert(lv.take(i + 1).drop_last() =~= lv.take(i as int));
            assert(lv.take(i + 1).last() == lv[i as int]);
            match &lines[i] {
                None => {},
                Some(l) => {
                    match KnownHostsManager::parse_line(l.as_str(), i + 1) {
                        None => {
                            proof {
                                lemma_listing_stops(lv, i + 1);
                            }
                            return None;
                        },
                        Some(None) => {},
                        Some(Some(e)) => {
                            out.push(e);
                            assert(entry_views(out@) =~= prev.push(out@.last()@));
                        },
                    }
                },
            }
            i = i + 1;
        }
        assert(lv.take(i as int) =~= lv);
        Some(out)
    }

    /// The file contents after deleting an entry: the line `line_number`
    /// (1-based) when it mentions `host_pattern`, otherwise every entry
    /// line that mentions it. Blank lines and comments survive the second
    /// form.
    pub fn delete_from(content: &str, line_number: usize, host_pattern: &str) -> (r: String)
        ensures
            r@ == rendered(deleted_lines(lines_of(content@), line_number as int, host_pattern@)),
    {
        let v = chars_of(content);
        let pat = chars_of(host_pattern);
        let lines = text_lines(&v);
        let ghost lv = char_views(lines@);
        let n = lines.len();
        let mut out: Vec<char> = Vec::new();
        if line_number > 0 && line_number <= n && (contains_chars(&lines[line_number - 1], &pat) || pat.len() == 0) {
            assert(lv[line_number - 1] == lines@[line_number - 1]@);
            let ghost kept_lines = lv.remove(line_number - 1);
            let mut i: usize = 0;
            let mut j: usize = 0;
            assert(kept_lines.take(0) =~= Seq::<Seq<char>>::empty());
            while i < n
                invariant
                    n == lines@.len() == lv.len(),
                    1 <= line_number <= n,
                    lv == char_views(lines@),
                    kept_lines == lv.remove(line_number - 1),
                    i <= n,
                    j == (if i < line_number { i } else { (i - 1) as usize }),
                    out@ == rendered(kept_lines.take(j as int)),
                decreases n - i,
            {
                if i + 1 != line_number {
                    assert(kept_lines.take(j + 1).drop_last() =~= kept_lines.take(j as int));
                    assert(kept_lines[j as int] == lv[i as int]);
                    assert(lv[i as int] == lines@[i as int]@);
                    push_all(&mut out, &lines[i]);
                    out.push('\n');
                    j = j + 1;
                }
                i = i + 1;
            }
            assert(kept_lines.take(j as int) =~= kept_lines);
        } else {
            let mut i: usize = 0;
            let ghost mut kl: Seq<Seq<char>> = Seq::empty();
            assert(lv.take(0) =~= Seq::<Seq<char>>::empty());
            while i < n
                invariant
                    n == lines@.len() == lv.len(),
                    lv == char_views(lines@),
                    i <= n,
                    kl == keep_lines(lv.take(i as int), pat@),
                    out@ == rendered(kl),
                decreases n - i,
            {
                assert(lv.take(i + 1).drop_last() =~= lv.take(i as int));
                assert(lv.take(i + 1).last() == lines@[i as int]@);
                let l = &lines[i];
                let t = trim_chars(l);
                let keep = t.len() == 0 || t[0] == '#' || !contains_chars(l, &pat);
                if keep {
                    push_all(&mut out, l);
                    out.push('\n');
                    proof {
                        assert(kl.push(l@).drop_last() =~= kl);
                        assert(rendered(kl.push(l@)) =~= rendered(kl) + l@.push('\n'));
                        kl = kl.push(l@);
                    }
                }
                i = i + 1;
            }
            assert(lv.take(i as int) =~= lv);
        }
        string_of(&out)
    }

    /// The line to append for a new entry, newline included.
    pub fn entry_line(host_pattern: &str, key_type: &str, public_key_b64: &str, comment: Option<&str>) -> (r: String)
        ensures
            r@ == entry_line_spec(
                host_pattern@,
                key_type@,
                public_key_b64@,
                match comment {
                    Some(c) => Some(c@),
                    None => None,
                },
            ),
    {
        let mut out: Vec<char> = Vec::new();
        push_all(&mut out, &trim_chars(&chars_of(host_pattern)));
        out.push(' ');
        push_all(&mut out, &trim_chars(&chars_of(key_type)));
        out.push(' ');
        push_all(&mut out, &trim_chars(&chars_of(public_key_b64)));
        match comment {
            Some(c) => {
                let tc = trim_chars(&chars_of(c));
                if tc.len() > 0 {
                    out.push(' ');
                    push_all(&mut out, &tc);
                }
            },
            None => {},
        }
        out.push('\n');
        string_of(&out)
    }
}

} // verus!
