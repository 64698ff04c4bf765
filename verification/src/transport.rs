//! What a session connects to, how it authenticates, and the decisions made
//! while connecting: the title a session gets, whether a server's host key
//! is trusted, which local shells are offered, and where a session's logs
//! go.

use vstd::prelude::*;
use crate::text::{byte_prefix, chars_of, decimal, prefix_bytes, push_decimal, string_of, utf8_len};

verus! {

/// How the user proves who they are. The secret itself is not here, so a
/// profile can be saved without holding a credential.
#[derive(Clone, Debug)]
pub enum SshAuth {
    /// The running ssh-agent.
    Agent,
    Password,
    Key { path: String },
    /// A specific agent socket (1Password, a hardware key's agent, ...).
    AgentSocket { socket_path: String },
}

impl SshAuth {
    /// The agent, which needs no secret.
    pub fn default_auth() -> (r: SshAuth)
        ensures
            r is Agent,
    {
        SshAuth::Agent
    }
}

/// Where a session's bytes come from.
#[derive(Debug)]
pub enum TransportSpec {
    Local {
        /// `None`: the platform's default shell.
        shell: Option<String>,
        cwd: Option<String>,
    },
    Ssh {
        host: String,
        port: u16,
        user: String,
        auth: SshAuth,
        /// A bastion to tunnel through (`ssh -J`).
        jump_host: Option<Box<TransportSpec>>,
    },
    Rdp { host: String, port: u16, user: String, domain: Option<String> },
}

/// Index of the last `/` or `\` in `s`, or -1.
pub open spec fn last_separator(s: Seq<char>) -> int
    decreases s.len(),
{
    if s.len() == 0 {
        -1
    } else if s.last() == '/' || s.last() == '\\' {
        s.len() - 1
    } else {
        last_separator(s.drop_last())
    }
}

/// What follows the last path separator of `s`.
pub open spec fn last_segment(s: Seq<char>) -> Seq<char> {
    s.skip(last_separator(s) + 1)
}

/// The title a session gets.
pub open spec fn label_spec(t: TransportSpec) -> Seq<char> {
    match t {
        TransportSpec::Local { shell, .. } => match shell {
            Some(s) => last_segment(s@),
            None => "shell"@,
        },
        TransportSpec::Ssh { host, user, .. } => user@.push('@') + host@,
        TransportSpec::Rdp { host, user, .. } => seq!['r', 'd', 'p', ' '] + user@.push('@') + host@,
    }
}

fn append_chars(out: &mut Vec<char>, s: &str)
    ensures
        final(out)@ == old(out)@ + s@,
{
    let v = chars_of(s);
    let ghost head = out@;
    let mut i: usize = 0;
    while i < v.len()
        invariant
            i <= v@.len(),
            v@ == s@,
            out@ == head + v@.take(i as int),
        decreases v.len() - i,
    {
        out.push(v[i]);
        i = i + 1;
    }
    assert(v@.take(i as int) =~= s@);
}

impl TransportSpec {
    /// The session title: the shell's file name, `user@host`, or
    /// `rdp user@host`.
    pub fn label(&self) -> (r: String)
        ensures
            r@ == label_spec(*self),
    {
        match self {
            TransportSpec::Local { shell, .. } => match shell {
                Some(s) => {
                    let v = chars_of(s.as_str());
                    let mut i = v.len();
                    assert(v@.take(v@.len() as int) =~= v@);
                    while i > 0 && !(v[i - 1] == '/' || v[i - 1] == '\\')
                        invariant
                            i <= v@.len(),
                            last_separator(v@.take(i as int)) == last_separator(v@),
                        decreases i,
                    {
                        assert(v@.take(i as int).drop_last() =~= v@.take(i - 1));
                        i = i - 1;
                    }
                    proof {
                        assert(v@.take(v@.len() as int) =~= v@);
                        if i > 0 {
                            assert(v@.take(i as int).last() == v@[i - 1]);
                        } else {
                            assert(v@.take(0) =~= Seq::<char>::empty());
                        }
                    }
                    string_of(&crate::text::slice_chars(&v, i, v.len()))
                },
                None => "shell".to_string(),
            },
            TransportSpec::Ssh { host, user, .. } => {
                let mut out: Vec<char> = Vec::new();
                append_chars(&mut out, user.as_str());
                out.push('@');
                append_chars(&mut out, host.as_str());
                string_of(&out)
            },
            TransportSpec::Rdp { host, user, .. } => {
                let mut out: Vec<char> = vec!['r', 'd', 'p', ' '];
                append_chars(&mut out, user.as_str());
                out.push('@');
                append_chars(&mut out, host.as_str());
                assert(out@ =~= seq!['r', 'd', 'p', ' '] + user@.push('@') + host@);
                string_of(&out)
            },
        }
    }
}

/// `p` with a leading `~/` replaced by the home directory (`home`, as the
/// caller read it from the environment); unchanged otherwise.
pub open spec fn expand_tilde_spec(p: Seq<char>, home: Option<Seq<char>>) -> Seq<char> {
    if p.len() >= 2 && p[0] == '~' && p[1] == '/' && home is Some {
        home.unwrap().push('/') + p.skip(2)
    } else {
        p
    }
}

/// Expands a leading `~/` in a key or agent-socket path.
pub fn expand_tilde(p: &str, home: Option<&str>) -> (r: String)
    ensures
        r@ == expand_tilde_spec(
            p@,
            match home {
                Some(h) => Some(h@),
                None => None,
            },
        ),
{
    let v = chars_of(p);
    if v.len() >= 2 && v[0] == '~' && v[1] == '/' {
        match home {
            Some(h) => {
                let mut out = chars_of(h);
                out.push('/');
                let rest = crate::text::slice_chars(&v, 2, v.len());
                let ghost head = out@;
                let mut i: usize = 0;
                while i < rest.len()
                    invariant
                        i <= rest@.len(),
                        out@ == head + rest@.take(i as int),
                    decreases rest.len() - i,
                {
                    out.push(rest[i]);
                    i = i + 1;
                }
                assert(rest@.take(i as int) =~= p@.skip(2));
                string_of(&out)
            },
            None => p.to_owned(),
        }
    } else {
        p.to_owned()
    }
}

/// A credential resolved at connect time; never stored with a profile.
pub struct Credentials {
    pub secret: Option<String>,
    pub key_passphrase: Option<String>,
    pub jump_secret: Option<String>,
    pub jump_key_passphrase: Option<String>,
}

impl Credentials {
    /// No credentials at all.
    pub fn none() -> (r: Credentials)
        ensures
            r.secret is None && r.key_passphrase is None && r.jump_secret is None && r.jump_key_passphrase is None,
    {
        Credentials { secret: None, key_passphrase: None, jump_secret: None, jump_key_passphrase: None }
    }
}

/// The credential an SSH connection is opened with.
pub struct SshCredentials {
    pub secret: Option<String>,
    pub key_passphrase: Option<String>,
    /// For the jump host, if any.
    pub jump_secret: Option<String>,
    pub jump_key_passphrase: Option<String>,
}

impl SshCredentials {
    /// What the session's credentials give the SSH connection: the same
    /// four values.
    pub fn from_credentials(c: Credentials) -> (r: SshCredentials)
        ensures
            r.secret == c.secret,
            r.key_passphrase == c.key_passphrase,
            r.jump_secret == c.jump_secret,
            r.jump_key_passphrase == c.jump_key_passphrase,
    {
        SshCredentials {
            secret: c.secret,
            key_passphrase: c.key_passphrase,
            jump_secret: c.jump_secret,
            jump_key_passphrase: c.jump_key_passphrase,
        }
    }

    /// The credentials for the jump host: its secret and passphrase become
    /// the primary ones, and a jump host has no jump host of its own.
    pub fn for_jump_host(&self) -> (r: SshCredentials)
        ensures
            r.secret == self.jump_secret,
            r.key_passphrase == self.jump_key_passphrase,
            r.jump_secret is None,
            r.jump_key_passphrase is None,
    {
        SshCredentials {
            secret: self.jump_secret.clone(),
            key_passphrase: self.jump_key_passphrase.clone(),
            jump_secret: None,
            jump_key_passphrase: None,
        }
    }
}

/// What a one-shot command returned.
#[derive(Clone, Debug)]
pub struct ExecResult {
    pub exit_code: i32,
    pub stdout: String,
    pub stderr: String,
}

/// The exit code reported for a command: the process's, or -1 when it was
/// killed by a signal and has none.
pub fn exit_code_or_signal(code: Option<i32>) -> (r: i32)
    ensures
        r == (match code {
            Some(c) => c,
            None => -1i32,
        }),
{
    match code {
        Some(c) => c,
        None => -1,
    }
}

/// How unknown host keys are treated.
#[derive(PartialEq, Eq, Structural, Clone, Copy, Debug)]
pub enum HostKeyPolicy {
    /// Trust on first use: accept and remember unknown hosts; still reject
    /// changed keys.
    TofuAccept,
    /// Reject anything not already in known_hosts.
    Strict,
}

/// What looking a server's key up in known_hosts found.
#[derive(Clone, Debug)]
pub enum HostKeyLookup {
    /// The key is on record for this host.
    Known,
    /// The host is not on record.
    Unknown,
    /// A different key is on record: the man-in-the-middle signal.
    Changed { detail: String },
}

/// Whether to go on with the connection.
#[derive(Clone, Debug)]
pub enum HostKeyVerdict {
    Accept,
    /// Accept, and record the key in known_hosts first.
    Learn,
    Reject { reason: String },
}

/// The SSH client's side of the host key check.
pub struct Client {
    pub host: String,
    pub port: u16,
    pub policy: HostKeyPolicy,
    pub known_hosts: String,
}

pub open spec fn host_port(host: Seq<char>, port: u16) -> Seq<char> {
    host.push(':') + decimal(port as nat)
}

/// The decision for a server key: a known key is accepted; an unknown one
/// is learned, unless checking is strict; a changed key is never accepted.
pub open spec fn verdict_spec(c: Client, lookup: HostKeyLookup, v: HostKeyVerdict) -> bool {
    match lookup {
        HostKeyLookup::Known => v is Accept,
        HostKeyLookup::Unknown => if c.policy == HostKeyPolicy::Strict {
            v matches HostKeyVerdict::Reject { reason } && reason@ == "unknown host key for "@ + host_port(
                c.host@,
                c.port,
            ) + " and strict checking is on"@
        } else {
            v is Learn
        },
        HostKeyLookup::Changed { detail } => v matches HostKeyVerdict::Reject { reason } && reason@
            == "host key verification failed for "@ + host_port(c.host@, c.port) + ": "@ + detail@
            + ". If this host was legitimately rebuilt, remove its entry from "@ + c.known_hosts@,
    }
}

impl Client {
    /// Decides on the server's key, given what the known_hosts lookup found.
    pub fn check_server_key(&self, lookup: &HostKeyLookup) -> (r: HostKeyVerdict)
        ensures
            verdict_spec(*self, *lookup, r),
    {
        match lookup {
            HostKeyLookup::Known => HostKeyVerdict::Accept,
            HostKeyLookup::Unknown => {
                if self.policy == HostKeyPolicy::Strict {
                    let mut out: Vec<char> = Vec::new();
                    append_chars(&mut out, "unknown host key for ");
                    append_chars(&mut out, self.host.as_str());
                    out.push(':');
                    push_decimal(self.port as u64, &mut out);
                    append_chars(&mut out, " and strict checking is on");
                    let reason = string_of(&out);
                    assert(reason@ =~= "unknown host key for "@ + host_port(self.host@, self.port)
                        + " and strict checking is on"@);
                    HostKeyVerdict::Reject { reason }
                } else {
                    HostKeyVerdict::Learn
                }
            },
            HostKeyLookup::Changed { detail } => {
                let mut out: Vec<char> = Vec::new();
                append_chars(&mut out, "host key verification failed for ");
                append_chars(&mut out, self.host.as_str());
                out.push(':');
                push_decimal(self.port as u64, &mut out);
                append_chars(&mut out, ": ");
                append_chars(&mut out, detail.as_str());
                append_chars(&mut out, ". If this host was legitimately rebuilt, remove its entry from ");
                append_chars(&mut out, self.known_hosts.as_str());
                let reason = string_of(&out);
                assert(reason@ =~= "host key verification failed for "@ + host_port(self.host@, self.port) + ": "@
                    + detail@ + ". If this host was legitimately rebuilt, remove its entry from "@
                    + self.known_hosts@);
                HostKeyVerdict::Reject { reason }
            },
        }
    }
}

/// A changed host key is rejected whatever the policy: trust on first use
/// never covers a key that differs from the one on record.
pub proof fn changed_key_is_never_accepted(c: Client, detail: String, v: HostKeyVerdict)
    requires
        verdict_spec(c, HostKeyLookup::Changed { detail }, v),
    ensures
        v is Reject,
{
}

/// A key that matches the known_hosts record is accepted whatever the
/// policy; the policy only decides about keys never seen before: trust on
/// first use learns them, strict checking refuses them, and strict
/// checking never learns a key.
pub proof fn a_known_key_is_accepted_under_every_policy(c: Client, lookup: HostKeyLookup, v: HostKeyVerdict)
    requires
        verdict_spec(c, lookup, v),
    ensures
        lookup is Known ==> v is Accept,
        v is Accept ==> lookup is Known,
        v is Learn ==> lookup is Unknown && c.policy != HostKeyPolicy::Strict,
        lookup is Unknown && c.policy != HostKeyPolicy::Strict ==> v is Learn,
        lookup is Unknown && c.policy == HostKeyPolicy::Strict ==> v is Reject,
{
}

/// A shell offered in the New Connection dialog.
#[derive(Clone, Debug)]
pub struct ShellOption {
    pub name: String,
    pub path: String,
}

/// The shells kept from `cands` (name, path, whether the path exists): the
/// existing ones, in order, each path once.
pub open spec fn shells_spec(cands: Seq<(Seq<char>, Seq<char>, bool)>) -> Seq<(Seq<char>, Seq<char>)>
    decreases cands.len(),
{
    if cands.len() == 0 {
        Seq::empty()
    } else {
        let prev = shells_spec(cands.drop_last());
        let c = cands.last();
        if c.2 && !prev.map_values(|s: (Seq<char>, Seq<char>)| s.1).contains(c.1) {
            prev.push((c.0, c.1))
        } else {
            prev
        }
    }
}

pub open spec fn shell_views(v: Seq<ShellOption>) -> Seq<(Seq<char>, Seq<char>)> {
    v.map_values(|s: ShellOption| (s.name@, s.path@))
}

pub open spec fn candidate_views(v: Seq<(String, String, bool)>) -> Seq<(Seq<char>, Seq<char>, bool)> {
    v.map_values(|c: (String, String, bool)| (c.0@, c.1@, c.2))
}

/// The shells to offer, from candidates in preference order (name, path,
/// and whether the path exists): the existing ones, without repeating a
/// path.
pub fn discover_shells(cands: &Vec<(String, String, bool)>) -> (r: Vec<ShellOption>)
    ensures
        shell_views(r@) == shells_spec(candidate_views(cands@)),
{
    let ghost cv = candidate_views(cands@);
    let mut out: Vec<ShellOption> = Vec::new();
    let mut i: usize = 0;
    assert(cv.take(0) =~= Seq::<(Seq<char>, Seq<char>, bool)>::empty());
    while i < cands.len()
        invariant
            i <= cands@.len(),
            cv == candidate_views(cands@),
            shell_views(out@) == shells_spec(cv.take(i as int)),
        decreases cands.len() - i,
    {
        assert(cv.take(i + 1).drop_last() =~= cv.take(i as int));
        assert(cv.take(i + 1).last() == cv[i as int]);
        let ghost prev = shell_views(out@);
        let path = chars_of(cands[i].1.as_str());
        let mut seen = false;
        let mut j: usize = 0;
        while j < out.len()
            invariant
                i < cands@.len(),
                j <= out@.len(),
                prev == shell_views(out@),
                path@ == cands@[i as int].1@,
                seen == prev.map_values(|s: (Seq<char>, Seq<char>)| s.1).take(j as int).contains(path@),
            decreases out.len() - j,
        {
            let ghost ps = prev.map_values(|s: (Seq<char>, Seq<char>)| s.1);
            assert(ps.take(j + 1) =~= ps.take(j as int).push(ps[j as int]));
            assert(ps[j as int] == out@[j as int].path@);
            let eq = crate::text::chars_equal(&chars_of(out[j].path.as_str()), &path);
            proof {
                let a = ps.take(j as int);
                let b = ps.take(j + 1);
                if eq {
                    assert(b[j as int] == path@);
                } else if seen {
                    let k = choose|k: int| 0 <= k < a.len() && a[k] == path@;
                    assert(b[k] == a[k]);
                } else {
                    assert forall|k: int| 0 <= k < b.len() implies b[k] != path@ by {
                        if k < j {
                            assert(b[k] == a[k]);
                        }
                    }
                }
            }
            if eq {
                seen = true;
            }
            j = j + 1;
        }
        proof {
            let ps = prev.map_values(|s: (Seq<char>, Seq<char>)| s.1);
            assert(ps.take(j as int) =~= ps);
        }
        if cands[i].2 && !seen {
            out.push(ShellOption { name: cands[i].0.clone(), path: cands[i].1.clone() });
            assert(shell_views(out@) =~= prev.push((cands@[i as int].0@, cands@[i as int].1@)));
        }
        i = i + 1;
    }
    assert(cv.take(i as int) =~= cv);
    out
}

/// No path is offered twice, and every offered path exists.
pub proof fn offered_shells_are_distinct_and_exist(cands: Seq<(Seq<char>, Seq<char>, bool)>)
    ensures
        forall|i: int, j: int|
            0 <= i < j < shells_spec(cands).len() ==> #[trigger] shells_spec(cands)[i].1
                != #[trigger] shells_spec(cands)[j].1,
        forall|i: int|
            0 <= i < shells_spec(cands).len() ==> exists|k: int|
                0 <= k < cands.len() && cands[k].2 && cands[k].1 == #[trigger] shells_spec(cands)[i].1,
    decreases cands.len(),
{
    if cands.len() > 0 {
        let prev = shells_spec(cands.drop_last());
        offered_shells_are_distinct_and_exist(cands.drop_last());
        let c = cands.last();
        let ps = prev.map_values(|s: (Seq<char>, Seq<char>)| s.1);
        if c.2 && !ps.contains(c.1) {
            let cur = prev.push((c.0, c.1));
            assert forall|i: int, j: int| 0 <= i < j < cur.len() implies #[trigger] cur[i].1 != #[trigger] cur[j].1 by {
                if j == cur.len() - 1 {
                    assert(ps[i] == prev[i].1);
                }
            }
            assert forall|i: int| 0 <= i < cur.len() implies exists|k: int|
                0 <= k < cands.len() && cands[k].2 && cands[k].1 == #[trigger] cur[i].1 by {
                if i == cur.len() - 1 {
                    assert(cands[cands.len() - 1].1 == cur[i].1);
                } else {
                    let k = choose|k: int| 0 <= k < cands.drop_last().len() && cands.drop_last()[k].2
                        && cands.drop_last()[k].1 == prev[i].1;
                    assert(cands[k] == cands.drop_last()[k]);
                }
            }
        } else {
            assert forall|i: int| 0 <= i < prev.len() implies exists|k: int|
                0 <= k < cands.len() && cands[k].2 && cands[k].1 == #[trigger] prev[i].1 by {
                let k = choose|k: int| 0 <= k < cands.drop_last().len() && cands.drop_last()[k].2
                    && cands.drop_last()[k].1 == prev[i].1;
                assert(cands[k] == cands.drop_last()[k]);
            }
        }
    }
}

/// The shell a local session runs when none was chosen: the first one
/// offered, otherwise `fallback` (the platform's own default).
pub fn default_shell(shells: &Vec<ShellOption>, fallback: String) -> (r: String)
    ensures
        shells@.len() > 0 ==> r@ == shells@[0].path@,
        shells@.len() == 0 ==> r@ == fallback@,
{
    if shells.len() > 0 {
        shells[0].path.clone()
    } else {
        fallback
    }
}

/// Where a session's logs go.
#[derive(Clone, Debug)]
pub struct LogPaths {
    /// The asciinema recording.
    pub cast: String,
    /// The plain-text log.
    pub plain: String,
}

/// `name` inside `dir`, as `Path::join` does for a relative name.
pub open spec fn joined(dir: Seq<char>, name: Seq<char>) -> Seq<char> {
    if dir.len() == 0 || dir.last() == '/' {
        dir + name
    } else {
        dir.push('/') + name
    }
}

fn join_name(dir: &Vec<char>, name: &str) -> (r: Vec<char>)
    ensures
        r@ == joined(dir@, name@),
{
    let mut out = dir.clone();
    if !(out.len() == 0 || out[out.len() - 1] == '/') {
        out.push('/');
    }
    append_chars(&mut out, name);
    out
}

/// The directory of one session's logs: `<stamp>-<first 8 bytes of the
/// session id>` under `log_dir`.
pub open spec fn session_dir(log_dir: Seq<char>, stamp: u64, id: Seq<char>) -> Seq<char> {
    joined(log_dir, decimal(stamp as nat).push('-') + byte_prefix(id, 8).unwrap())
}

impl LogPaths {
    /// The log files of a session opened at `stamp` (seconds since the
    /// epoch) with the hyphenated id `id`.
    pub fn for_session(log_dir: &str, stamp: u64, id: &str) -> (r: LogPaths)
        requires
            8 <= utf8_len(id@),
            byte_prefix(id@, 8) is Some,
        ensures
            r.cast@ == joined(session_dir(log_dir@, stamp, id@), "session.cast"@),
            r.plain@ == joined(session_dir(log_dir@, stamp, id@), "session.log"@),
    {
        let idv = chars_of(id);
        let short = prefix_bytes(&idv, 8).unwrap();
        let mut name: Vec<char> = Vec::new();
        push_decimal(stamp, &mut name);
        name.push('-');
        let mut i: usize = 0;
        let ghost head = name@;
        while i < short.len()
            invariant
                i <= short@.len(),
                name@ == head + short@.take(i as int),
            decreases short.len() - i,
        {
            name.push(short[i]);
            i = i + 1;
        }
        assert(short@.take(i as int) =~= short@);
        let dir = chars_of(log_dir);
        let mut d = dir.clone();
        if !(d.len() == 0 || d[d.len() - 1] == '/') {
            d.push('/');
        }
        let ghost dhead = d@;
        let mut k: usize = 0;
        while k < name.len()
            invariant
                k <= name@.len(),
                d@ == dhead + name@.take(k as int),
            decreases name.len() - k,
        {
            d.push(name[k]);
            k = k + 1;
        }
        assert(name@.take(k as int) =~= name@);
        assert(d@ =~= session_dir(log_dir@, stamp, id@));
        LogPaths {
            cast: string_of(&join_name(&d, "session.cast")),
            plain: string_of(&join_name(&d, "session.log")),
        }
    }
}

} // verus!
