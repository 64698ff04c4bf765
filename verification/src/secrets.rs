//! Where credentials are kept.
//!
//! The primary store is the OS keychain. On headless or container Linux there
//! is often no keyring service at all, so the fallback is the
//! passphrase-encrypted vault of [`crate::vault`], which must be unlocked
//! before secrets can be read or written.
//!
//! Talking to the keychain and to the disk is the caller's business. For the
//! file backend the methods here return the sealed vault bytes that must be
//! written to [`Secrets::vault_path`]; for the keychain they keep the
//! read-through cache that spares the user one authorisation prompt per read.

use vstd::prelude::*;
use vstd::utf8::{decode_utf8, encode_utf8, valid_utf8};
use crate::text::{chars_equal, chars_of, string_of, utf8_decode};
use crate::vault::{
    create, derived_key, json_map_bytes, pass_bytes, pass_error, rekey, sealable, unlock, unlock_spec,
    vault_file, map_json_max, Unlocked, UnlockedView, VaultError, HEADER_LEN, NONCE_LEN, SALT_LEN, TAG_LEN,
};

verus! {

/// Which store holds the secrets.
#[derive(PartialEq, Eq, Structural, Clone, Copy, Debug)]
pub enum Backend {
    /// OS-native keychain.
    Keychain,
    /// Encrypted file under the app data dir.
    File,
}

impl Backend {
    /// How the UI names the backend.
    pub fn name(&self) -> (r: &'static str)
        ensures
            r@ == (match *self {
                Backend::Keychain => "keychain"@,
                Backend::File => "file"@,
            }),
    {
        match *self {
            Backend::Keychain => "keychain",
            Backend::File => "file",
        }
    }
}

/// Why a secret operation was refused.
#[derive(PartialEq, Eq, Structural, Clone, Copy, Debug)]
pub enum SecretsError {
    /// The file backend is in use and the vault has not been unlocked.
    Locked,
    /// A passphrase was given for the keychain backend.
    NotForKeychain,
    Vault(VaultError),
}

impl SecretsError {
    /// The text shown to the user.
    pub fn message(&self) -> (r: String)
        ensures
            r@ == (match *self {
                SecretsError::Locked => "secret vault is locked; unlock it with the passphrase first"@,
                SecretsError::NotForKeychain => "passphrase does not apply to the OS keychain backend"@,
                SecretsError::Vault(e) => vault_message(e),
            }),
    {
        match *self {
            SecretsError::Locked => "secret vault is locked; unlock it with the passphrase first".to_string(),
            SecretsError::NotForKeychain => "passphrase does not apply to the OS keychain backend".to_string(),
            SecretsError::Vault(e) => e.message(),
        }
    }
}

/// The text of a vault error, as [`VaultError::message`] gives it.
pub open spec fn vault_message(e: VaultError) -> Seq<char> {
    match e {
        VaultError::BadMagic => "not a Terminator vault (bad magic); refusing to overwrite it"@,
        VaultError::Truncated => "vault file is truncated or corrupt"@,
        VaultError::EmptyPassphrase => "passphrase must not be empty"@,
        VaultError::KeyDerivation => "key derivation failed"@,
        VaultError::WrongPassphrase => "incorrect passphrase, or the vault has been tampered with"@,
        VaultError::Corrupt => "vault contents are not valid"@,
        VaultError::Encryption => "vault encryption failed"@,
    }
}

// ---- the old plaintext store -------------------------------------------

/// Value of an ASCII hex digit, or -1.
pub open spec fn hex_value(c: char) -> int {
    if '0' <= c && c <= '9' {
        c as int - '0' as int
    } else if 'a' <= c && c <= 'f' {
        c as int - 'a' as int + 10
    } else if 'A' <= c && c <= 'F' {
        c as int - 'A' as int + 10
    } else {
        -1
    }
}

/// The byte that a two-character group stands for, as `u8::from_str_radix`
/// with radix 16 reads it: two hex digits, or `+` and one hex digit.
pub open spec fn pair_byte(a: char, b: char) -> Option<u8> {
    if hex_value(a) >= 0 && hex_value(b) >= 0 {
        Some((hex_value(a) * 16 + hex_value(b)) as u8)
    } else if a == '+' && hex_value(b) >= 0 {
        Some(hex_value(b) as u8)
    } else {
        None
    }
}

/// The bytes that a hex name encodes, group by group.
pub open spec fn unhex_bytes(s: Seq<char>) -> Option<Seq<u8>>
    decreases s.len(),
{
    if s.len() == 0 {
        Some(Seq::<u8>::empty())
    } else if s.len() == 1 {
        None
    } else {
        match (pair_byte(s[0], s[1]), unhex_bytes(s.skip(2))) {
            (Some(b), Some(rest)) => Some(seq![b] + rest),
            _ => None,
        }
    }
}

/// The key that a hex-encoded file name stood for: its bytes, when they are
/// valid UTF-8.
pub open spec fn unhex_spec(s: Seq<char>) -> Option<Seq<char>> {
    match unhex_bytes(s) {
        Some(b) => if valid_utf8(b) { Some(decode_utf8(b)) } else { None },
        None => None,
    }
}

fn hex_digit(c: char) -> (r: Option<u8>)
    ensures
        r is Some <==> hex_value(c) >= 0,
        r matches Some(d) ==> d == hex_value(c),
{
    if '0' <= c && c <= '9' {
        Some(((c as u32) - ('0' as u32)) as u8)
    } else if 'a' <= c && c <= 'f' {
        Some(((c as u32) - ('a' as u32) + 10) as u8)
    } else if 'A' <= c && c <= 'F' {
        Some(((c as u32) - ('A' as u32) + 10) as u8)
    } else {
        None
    }
}

/// Reverse of the old hex file-name encoding, for migration only.
pub fn unhex(s: &str) -> (r: Option<String>)
    ensures
        r is Some <==> unhex_spec(s@) is Some,
        r matches Some(k) ==> k@ == unhex_spec(s@).unwrap(),
{
    let v = chars_of(s);
    if v.len() % 2 != 0 {
        proof {
            lemma_unhex_odd(v@);
        }
        return None;
    }
    let mut out: Vec<u8> = Vec::new();
    let mut i: usize = 0;
    assert(v@.skip(0) =~= v@);
    proof {
        match unhex_bytes(v@) {
            Some(rest) => {
                assert(out@ + rest =~= rest);
            },
            None => {},
        }
    }
    while i < v.len()
        invariant
            i <= v@.len(),
            v@ == s@,
            v@.len() % 2 == 0,
            i % 2 == 0,
            unhex_bytes(v@) == (match unhex_bytes(v@.skip(i as int)) {
                Some(rest) => Some(out@ + rest),
                None => None::<Seq<u8>>,
            }),
        decreases v.len() - i,
    {
        let ghost tail = v@.skip(i as int);
        assert(tail.skip(2) =~= v@.skip(i + 2));
        assert(tail[0] == v@[i as int] && tail[1] == v@[i + 1]);
        let b = match (hex_digit(v[i]), hex_digit(v[i + 1])) {
            (Some(h), Some(l)) => h * 16 + l,
            (None, Some(l)) => {
                if v[i] == '+' {
                    l
                } else {
                    return None;
                }
            },
            _ => return None,
        };
        proof {
            assert(pair_byte(tail[0], tail[1]) == Some(b));
            match unhex_bytes(tail.skip(2)) {
                Some(rest) => {
                    assert(out@ + (seq![b] + rest) =~= out@.push(b) + rest);
                },
                None => {},
            }
        }
        out.push(b);
        i = i + 2;
    }
    assert(v@.skip(i as int) =~= Seq::<char>::empty());
    assert(out@ + Seq::<u8>::empty() =~= out@);
    utf8_decode(out.as_slice())
}

/// The digit `format!("{:02x}", ..)` writes for a value below 16.
pub open spec fn hex_char(d: int) -> char {
    if d < 10 {
        (48 + d) as char
    } else {
        (87 + d) as char
    }
}

/// The old store's file-name encoding of a key's bytes: two lowercase hex
/// digits per byte.
pub open spec fn hex_of(b: Seq<u8>) -> Seq<char>
    decreases b.len(),
{
    if b.len() == 0 {
        Seq::empty()
    } else {
        seq![hex_char(b[0] as int / 16), hex_char(b[0] as int % 16)] + hex_of(b.drop_first())
    }
}

proof fn lemma_unhex_hex(b: Seq<u8>)
    ensures
        unhex_bytes(hex_of(b)) == Some(b),
    decreases b.len(),
{
    if b.len() > 0 {
        let h = hex_of(b);
        let hi = b[0] as int / 16;
        let lo = b[0] as int % 16;
        assert(h.skip(2) =~= hex_of(b.drop_first()));
        assert(h[0] == hex_char(hi) && h[1] == hex_char(lo));
        assert(hex_value(hex_char(hi)) == hi);
        assert(hex_value(hex_char(lo)) == lo);
        assert((hi * 16 + lo) as u8 == b[0]);
        lemma_unhex_hex(b.drop_first());
        assert(seq![b[0]] + b.drop_first() =~= b);
    }
}

/// Every key survives the old store's file naming: decoding the hex name
/// of a key gives the key back.
pub proof fn hex_names_read_back(k: Seq<char>)
    ensures
        unhex_spec(hex_of(encode_utf8(k))) == Some(k),
{
    lemma_unhex_hex(encode_utf8(k));
    vstd::utf8::encode_utf8_valid_utf8(k);
    vstd::utf8::encode_utf8_decode_utf8(k);
}

proof fn lemma_unhex_odd(s: Seq<char>)
    requires
        s.len() % 2 == 1,
    ensures
        unhex_bytes(s) is None,
    decreases s.len(),
{
    if s.len() > 1 {
        lemma_unhex_odd(s.skip(2));
    }
}

proof fn lemma_unhex_bad_pair(s: Seq<char>, i: int)
    requires
        0 <= i,
        2 * i + 1 < s.len(),
        pair_byte(s[2 * i], s[2 * i + 1]) is None,
    ensures
        unhex_bytes(s) is None,
    decreases i,
{
    if i > 0 {
        let t = s.skip(2);
        assert(t[2 * (i - 1)] == s[2 * i] && t[2 * (i - 1) + 1] == s[2 * i + 1]);
        lemma_unhex_bad_pair(t, i - 1);
    }
}

/// A name is not taken for a key when its length is odd, when a pair of
/// characters is not a base-16 byte, or when its bytes are not UTF-8.
pub proof fn malformed_hex_names_are_refused(s: Seq<char>, i: int)
    ensures
        s.len() % 2 == 1 ==> unhex_spec(s) is None,
        0 <= i && 2 * i + 1 < s.len() && pair_byte(s[2 * i], s[2 * i + 1]) is None ==> unhex_spec(s) is None,
        unhex_bytes(s) matches Some(b) && !valid_utf8(b) ==> unhex_spec(s) is None,
{
    if s.len() % 2 == 1 {
        lemma_unhex_odd(s);
    }
    if 0 <= i && 2 * i + 1 < s.len() && pair_byte(s[2 * i], s[2 * i + 1]) is None {
        lemma_unhex_bad_pair(s, i);
    }
}

/// The file-name suffix of the old plaintext store.
pub open spec fn secret_suffix() -> Seq<char> {
    seq!['.', 's', 'e', 'c', 'r', 'e', 't']
}

/// The stem of a `<stem>.secret` file name (a bare `.secret` has none).
pub open spec fn legacy_stem(name: Seq<char>) -> Option<Seq<char>> {
    if name.len() > 7 && name.skip(name.len() - 7) == secret_suffix() {
        Some(name.take(name.len() - 7))
    } else {
        None
    }
}

/// The key that a file of the old plaintext store held: `Some` exactly for
/// a `<hex>.secret` file name.
pub fn legacy_key(file_name: &str) -> (r: Option<String>)
    ensures
        r is Some <==> (legacy_stem(file_name@) is Some && unhex_spec(legacy_stem(file_name@).unwrap()) is Some),
        r matches Some(k) ==> k@ == unhex_spec(legacy_stem(file_name@).unwrap()).unwrap(),
{
    let v = chars_of(file_name);
    let n = v.len();
    if n <= 7 {
        return None;
    }
    let s = n - 7;
    let suffix_ok = v[s] == '.' && v[s + 1] == 's' && v[s + 2] == 'e' && v[s + 3] == 'c' && v[s + 4] == 'r'
        && v[s + 5] == 'e' && v[s + 6] == 't';
    proof {
        let t = v@.skip(s as int);
        if t == secret_suffix() {
            assert(t[0] == v@[s as int] && t[1] == v@[s + 1] && t[2] == v@[s + 2] && t[3] == v@[s + 3]);
            assert(t[4] == v@[s + 4] && t[5] == v@[s + 5] && t[6] == v@[s + 6]);
        }
        if suffix_ok {
            assert(t =~= secret_suffix());
        }
    }
    if !suffix_ok {
        return None;
    }
    let stem = string_of(&crate::text::slice_chars(&v, 0, s));
    assert(stem@ =~= v@.take(s as int));
    unhex(stem.as_str())
}

/// A file of the old plaintext store, as the caller found it: the key its
/// name stood for, and its contents (`None` when it could not be read).
pub open spec fn legacy_view(l: (String, Option<Vec<u8>>)) -> (Seq<char>, Option<Seq<u8>>) {
    (l.0@, match l.1 { Some(b) => Some(b@), None => None })
}

/// `m` with the readable, UTF-8 secrets of the old store added, later files
/// taking precedence.
pub open spec fn migrated(m: Map<Seq<char>, Seq<char>>, legacy: Seq<(Seq<char>, Option<Seq<u8>>)>) -> Map<
    Seq<char>,
    Seq<char>,
>
    decreases legacy.len(),
{
    if legacy.len() == 0 {
        m
    } else {
        let prev = migrated(m, legacy.drop_last());
        let l = legacy.last();
        match l.1 {
            Some(b) => if valid_utf8(b) { prev.insert(l.0, decode_utf8(b)) } else { prev },
            None => prev,
        }
    }
}

/// Adopts the secrets left behind by the old plaintext store. The caller
/// deletes those files afterwards, readable or not.
pub fn migrate_plaintext(v: &mut Unlocked, legacy: &Vec<(String, Option<Vec<u8>>)>)
    ensures
        final(v)@.map == migrated(old(v)@.map, legacy@.map_values(|l: (String, Option<Vec<u8>>)| legacy_view(l))),
        final(v)@.key == old(v)@.key,
        final(v)@.salt == old(v)@.salt,
        final(v)@.pass == old(v)@.pass,
{
    let ghost lv = legacy@.map_values(|l: (String, Option<Vec<u8>>)| legacy_view(l));
    let mut i: usize = 0;
    while i < legacy.len()
        invariant
            i <= legacy@.len(),
            lv == legacy@.map_values(|l: (String, Option<Vec<u8>>)| legacy_view(l)),
            v@.map == migrated(old(v)@.map, lv.take(i as int)),
            v@.key == old(v)@.key,
            v@.salt == old(v)@.salt,
            v@.pass == old(v)@.pass,
        decreases legacy.len() - i,
    {
        assert(lv.take(i + 1).drop_last() =~= lv.take(i as int));
        assert(lv.take(i + 1).last() == legacy_view(legacy@[i as int]));
        match &legacy[i].1 {
            Some(bytes) => {
                match utf8_decode(bytes.as_slice()) {
                    Some(secret) => {
                        v.insert(legacy[i].0.as_str(), secret.as_str());
                    },
                    None => {},
                }
            },
            None => {},
        }
        i = i + 1;
    }
    assert(lv.take(i as int) =~= lv);
}

// ---- the store -----------------------------------------------------------

/// The keychain cache: later entries win.
pub open spec fn cache_map(c: Seq<(String, Option<String>)>) -> Map<Seq<char>, Option<Seq<char>>>
    decreases c.len(),
{
    if c.len() == 0 {
        Map::empty()
    } else {
        cache_map(c.drop_last()).insert(c.last().0@, opt_chars(c.last().1))
    }
}

pub open spec fn opt_chars(o: Option<String>) -> Option<Seq<char>> {
    match o {
        Some(s) => Some(s@),
        None => None,
    }
}

pub open spec fn opt_unlocked(o: Option<Unlocked>) -> Option<UnlockedView> {
    match o {
        Some(v) => Some(v@),
        None => None,
    }
}

pub open spec fn opt_bytes(o: Option<&[u8]>) -> Option<Seq<u8>> {
    match o {
        Some(b) => Some(b@),
        None => None,
    }
}

/// Credential storage: the backend in use, the vault once unlocked, and the
/// keychain read-through cache.
pub struct Secrets {
    fallback_dir: String,
    backend: Backend,
    vault: Option<Unlocked>,
    cache: Vec<(String, Option<String>)>,
}

pub struct SecretsView {
    pub fallback_dir: Seq<char>,
    pub backend: Backend,
    /// `None` until the passphrase is supplied; only the file backend uses it.
    pub vault: Option<UnlockedView>,
    /// What each keychain key was last known to hold (`None`: no entry).
    pub cache: Map<Seq<char>, Option<Seq<char>>>,
}

impl View for Secrets {
    type V = SecretsView;

    closed spec fn view(&self) -> SecretsView {
        SecretsView {
            fallback_dir: self.fallback_dir@,
            backend: self.backend,
            vault: opt_unlocked(self.vault),
            cache: cache_map(self.cache@),
        }
    }
}

/// `name` inside the directory `dir`, as `Path::join` does it for a
/// relative name.
pub open spec fn dir_join(dir: Seq<char>, name: Seq<char>) -> Seq<char> {
    if dir.len() == 0 || dir.last() == '/' {
        dir + name
    } else {
        dir.push('/') + name
    }
}

/// Only the vault changed.
pub open spec fn same_but_vault(a: SecretsView, b: SecretsView) -> bool {
    a.fallback_dir == b.fallback_dir && a.backend == b.backend && a.cache == b.cache
}

/// The vault `map` under `pass` was sealed and installed, and `r` holds the
/// file to write; or sealing failed and nothing changed.
pub open spec fn installed(
    r: Result<Option<Vec<u8>>, SecretsError>,
    before: SecretsView,
    after: SecretsView,
    pass: Seq<u8>,
    map: Map<Seq<char>, Seq<char>>,
) -> bool {
    &&& json_map_bytes(map).len() <= 2 + map_json_max(map)
    &&& if sealable(json_map_bytes(map)) {
        &&& r is Ok && r->Ok_0 is Some
        &&& same_but_vault(before, after)
        &&& after.vault is Some
        &&& after.vault->Some_0.map == map
        &&& after.vault->Some_0.pass == pass
        &&& after.vault->Some_0.salt.len() == SALT_LEN
        &&& after.vault->Some_0.key == derived_key(pass, after.vault->Some_0.salt)
        &&& r->Ok_0->Some_0@ == vault_file(pass, after.vault->Some_0.salt, r->Ok_0->Some_0@.subrange(24, 48), map)
        &&& r->Ok_0->Some_0@.len() == HEADER_LEN + json_map_bytes(map).len() + TAG_LEN
        &&& map.dom().finite()
    } else {
        r is Err && r->Err_0 == SecretsError::Vault(VaultError::Encryption) && after == before
    }
}

/// What reading `key` from the vault gives: refused while locked,
/// otherwise the stored secret, if any.
pub open spec fn file_get_spec(s: SecretsView, key: Seq<char>) -> Result<Option<Seq<char>>, SecretsError> {
    match s.vault {
        None => Err(SecretsError::Locked),
        Some(v) => Ok(if v.map.contains_key(key) { Some(v.map[key]) } else { None }),
    }
}

/// What a store of `key` does to the unlocked vault `v`.
pub open spec fn after_set(v: UnlockedView, key: Seq<char>, secret: Seq<char>) -> UnlockedView {
    UnlockedView { map: v.map.insert(key, secret), ..v }
}

/// What a delete of `key` does to the unlocked vault `v`.
pub open spec fn after_delete(v: UnlockedView, key: Seq<char>) -> UnlockedView {
    UnlockedView { map: v.map.remove(key), ..v }
}

/// A stored secret reads back, and storing one touches no other: after
/// `file_set(key, secret)` (whether or not sealing succeeded) reading `key`
/// gives `secret`, and reading any other key gives what it gave before.
pub proof fn stored_secret_reads_back(before: SecretsView, after: SecretsView, key: Seq<char>, secret: Seq<char>, other: Seq<char>)
    requires
        before.vault is Some,
        same_but_vault(before, after),
        after.vault == Some(after_set(before.vault->Some_0, key, secret)),
    ensures
        file_get_spec(after, key) == Ok::<Option<Seq<char>>, SecretsError>(Some(secret)),
        other != key ==> file_get_spec(after, other) == file_get_spec(before, other),
{
}

/// A deleted secret is gone, and deleting touches no other key.
pub proof fn deleted_secret_is_gone(before: SecretsView, after: SecretsView, key: Seq<char>, other: Seq<char>)
    requires
        before.vault is Some,
        same_but_vault(before, after),
        after.vault == Some(after_delete(before.vault->Some_0, key)),
    ensures
        file_get_spec(after, key) == Ok::<Option<Seq<char>>, SecretsError>(None),
        other != key ==> file_get_spec(after, other) == file_get_spec(before, other),
{
}

/// A renamed secret moves: afterwards its new name reads the value the old
/// name held, the old name reads nothing, and every other name reads what
/// it did before.
pub proof fn renamed_secret_moves(
    before: SecretsView,
    after: SecretsView,
    from: Seq<char>,
    to: Seq<char>,
    other: Seq<char>,
)
    requires
        before.vault is Some,
        before.vault->Some_0.map.contains_key(from),
        from != to,
        same_but_vault(before, after),
        after.vault == Some(after_delete(after_set(before.vault->Some_0, to, before.vault->Some_0.map[from]), from)),
    ensures
        file_get_spec(after, to) == Ok::<Option<Seq<char>>, SecretsError>(Some(before.vault->Some_0.map[from])),
        file_get_spec(after, from) == Ok::<Option<Seq<char>>, SecretsError>(None),
        other != from && other != to ==> file_get_spec(after, other) == file_get_spec(before, other),
{
}

/// Whether the store refuses to serve secrets: the file backend before its
/// vault is unlocked (what [`Secrets::is_locked`] reports).
pub open spec fn locked_view(s: SecretsView) -> bool {
    s.backend == Backend::File && s.vault is None
}

/// A call on the store, as far as locking goes.
#[derive(PartialEq, Eq, Structural, Clone, Copy, Debug)]
pub enum StoreCall {
    /// `lock`.
    Lock,
    /// `unlock`, and whether it returned `Ok`.
    Unlock { ok: bool },
    /// Any other call that takes the store mutably.
    Other,
}

/// Whether the store is locked after `call`, given whether it was.
pub open spec fn locked_after(locked: bool, backend: Backend, call: StoreCall) -> bool {
    match call {
        StoreCall::Lock => backend == Backend::File,
        StoreCall::Unlock { ok } => if ok {
            false
        } else {
            locked
        },
        StoreCall::Other => locked,
    }
}

/// No `lock` comes after call `j`.
pub open spec fn no_lock_after(calls: Seq<StoreCall>, j: int) -> bool {
    forall|k: int| j < k < calls.len() ==> calls[k] != StoreCall::Lock
}

/// Some call succeeded in unlocking and no lock came after it.
pub open spec fn unlocked_since_last_lock(calls: Seq<StoreCall>) -> bool {
    exists|j: int| 0 <= j < calls.len() && calls[j] == (StoreCall::Unlock { ok: true }) && #[trigger] no_lock_after(calls, j)
}

/// Every call moved the store from one state to the next as the methods'
/// contracts say.
pub open spec fn steps_follow(states: Seq<SecretsView>, calls: Seq<StoreCall>) -> bool {
    &&& states.len() == calls.len() + 1
    &&& forall|k: int| 0 <= k < calls.len() ==> #[trigger] step_follows(states, calls, k)
}

/// Call `k` kept the backend and changed the locked state as it says.
pub open spec fn step_follows(states: Seq<SecretsView>, calls: Seq<StoreCall>, k: int) -> bool {
    &&& states[k + 1].backend == states[k].backend
    &&& locked_view(states[k + 1]) == locked_after(locked_view(states[k]), states[k].backend, calls[k])
}

/// Whether the store is locked after `calls`, starting fresh.
pub open spec fn locked_by(backend: Backend, calls: Seq<StoreCall>) -> bool
    decreases calls.len(),
{
    if calls.len() == 0 {
        backend == Backend::File
    } else {
        locked_after(locked_by(backend, calls.drop_last()), backend, calls.last())
    }
}

proof fn lemma_states_follow(states: Seq<SecretsView>, calls: Seq<StoreCall>)
    requires
        steps_follow(states, calls),
        locked_view(states[0]) == (states[0].backend == Backend::File),
    ensures
        forall|k: int| 0 <= k < states.len() ==> (#[trigger] states[k]).backend == states[0].backend,
        locked_view(states.last()) == locked_by(states[0].backend, calls),
    decreases calls.len(),
{
    if calls.len() > 0 {
        let n = calls.len() - 1;
        let st = states.drop_last();
        let cs = calls.drop_last();
        assert(st.len() == cs.len() + 1);
        assert(steps_follow(st, cs)) by {
            assert forall|k: int| 0 <= k < cs.len() implies #[trigger] step_follows(st, cs, k) by {
                assert(step_follows(states, calls, k));
                assert(cs[k] == calls[k]);
                assert(st[k] == states[k] && st[k + 1] == states[k + 1]);
            }
        }
        assert(st[0] == states[0]);
        lemma_states_follow(st, cs);
        assert(step_follows(states, calls, n));
        assert(calls[n] == calls.last());
        assert(st.last() == states[n]);
        assert forall|k: int| 0 <= k < states.len() implies (#[trigger] states[k]).backend == states[0].backend by {
            if k < n + 1 {
                assert(st[k] == states[k]);
            }
        }
    }
}

proof fn lemma_since_step(calls: Seq<StoreCall>)
    requires
        calls.len() > 0,
    ensures
        unlocked_since_last_lock(calls) <==> (calls.last() == (StoreCall::Unlock { ok: true }) || (calls.last()
            != StoreCall::Lock && unlocked_since_last_lock(calls.drop_last()))),
{
    let n = calls.len() - 1;
    let cs = calls.drop_last();
    if unlocked_since_last_lock(calls) {
        let j = choose|j: int| 0 <= j < calls.len() && calls[j] == (StoreCall::Unlock { ok: true }) && #[trigger] no_lock_after(calls, j);
        if j < n {
            assert(calls[j] == cs[j]);
            assert(no_lock_after(cs, j));
            assert(calls[n] != StoreCall::Lock);
        }
    }
    if calls.last() == (StoreCall::Unlock { ok: true }) {
        assert(no_lock_after(calls, n));
    } else if calls.last() != StoreCall::Lock && unlocked_since_last_lock(cs) {
        let j = choose|j: int| 0 <= j < cs.len() && cs[j] == (StoreCall::Unlock { ok: true }) && #[trigger] no_lock_after(cs, j);
        assert(calls[j] == cs[j]);
        assert forall|k: int| j < k < calls.len() implies calls[k] != StoreCall::Lock by {
            if k < n {
                assert(cs[k] == calls[k]);
            } else {
                assert(calls[k] == calls.last());
            }
        }
        assert(no_lock_after(calls, j));
    }
}

proof fn lemma_locked_by_file(calls: Seq<StoreCall>)
    ensures
        locked_by(Backend::File, calls) <==> !unlocked_since_last_lock(calls),
    decreases calls.len(),
{
    if calls.len() > 0 {
        lemma_locked_by_file(calls.drop_last());
        lemma_since_step(calls);
    }
}

/// Whether the store is locked follows from the calls alone: a keychain
/// store never is; a file store is locked from the start and after every
/// `lock`, unlocked by an `unlock` that succeeded, and left as it was by a
/// failed `unlock` and by every other call. `states[k]` is the store before
/// call `k`.
pub proof fn locking_follows_the_calls(states: Seq<SecretsView>, calls: Seq<StoreCall>)
    requires
        steps_follow(states, calls),
        locked_view(states[0]) == (states[0].backend == Backend::File),
    ensures
        forall|k: int| 0 <= k < states.len() ==> (#[trigger] states[k]).backend == states[0].backend,
        states[0].backend == Backend::Keychain ==> forall|k: int| 0 <= k < states.len() ==> !locked_view(#[trigger] states[k]),
        states[0].backend == Backend::File ==> (locked_view(states.last()) <==> !unlocked_since_last_lock(calls)),
{
    lemma_states_follow(states, calls);
    lemma_locked_by_file(calls);
}

/// While locked, nothing is read or written: every read is refused.
pub proof fn locked_store_serves_nothing(s: SecretsView, key: Seq<char>)
    requires
        s.vault is None,
    ensures
        file_get_spec(s, key) == Err::<Option<Seq<char>>, SecretsError>(SecretsError::Locked),
{
}

/// The outcome of sealing the vault after a change: the file to write, or
/// the encryption error.
pub open spec fn sealed(r: Result<Vec<u8>, SecretsError>, v: UnlockedView) -> bool {
    &&& json_map_bytes(v.map).len() <= 2 + map_json_max(v.map)
    &&& if sealable(json_map_bytes(v.map)) {
        &&& r is Ok
        &&& r->Ok_0@ == vault_file(v.pass, v.salt, r->Ok_0@.subrange(24, 48), v.map)
        &&& r->Ok_0@.len() == HEADER_LEN + json_map_bytes(v.map).len() + TAG_LEN
        &&& v.map.dom().finite()
        &&& v.salt.len() == SALT_LEN
    } else {
        r is Err && r->Err_0 == SecretsError::Vault(VaultError::Encryption)
    }
}

impl Secrets {
    /// Picks the backend: the vault when the user forces it, otherwise the
    /// keychain if the probe round-tripped a value through it.
    pub fn new(fallback_dir: String, forced_file: bool, keychain_works: bool) -> (r: Secrets)
        ensures
            r@.fallback_dir == fallback_dir@,
            r@.backend == (if !forced_file && keychain_works { Backend::Keychain } else { Backend::File }),
            r@.vault is None,
            r@.cache == Map::<Seq<char>, Option<Seq<char>>>::empty(),
            locked_view(r@) == (r@.backend == Backend::File),
    {
        let backend = if !forced_file && keychain_works {
            Backend::Keychain
        } else {
            Backend::File
        };
        Secrets::with_backend(fallback_dir, backend)
    }

    /// A store on the given backend, bypassing the keychain probe.
    pub fn with_backend(fallback_dir: String, backend: Backend) -> (r: Secrets)
        ensures
            r@.fallback_dir == fallback_dir@,
            r@.backend == backend,
            r@.vault is None,
            r@.cache == Map::<Seq<char>, Option<Seq<char>>>::empty(),
            locked_view(r@) == (r@.backend == Backend::File),
    {
        let r = Secrets { fallback_dir, backend, vault: None, cache: Vec::new() };
        assert(r.cache@ =~= Seq::<(String, Option<String>)>::empty());
        r
    }

    pub fn backend(&self) -> (r: Backend)
        ensures
            r == self@.backend,
    {
        self.backend
    }

    /// Where the vault file lives.
    pub fn vault_path(&self) -> (r: String)
        ensures
            r@ == dir_join(self@.fallback_dir, seq!['v', 'a', 'u', 'l', 't', '.', 'b', 'i', 'n']),
    {
        let mut out = chars_of(self.fallback_dir.as_str());
        if !(out.len() == 0 || out[out.len() - 1] == '/') {
            out.push('/');
        }
        let ghost head = out@;
        out.push('v');
        out.push('a');
        out.push('u');
        out.push('l');
        out.push('t');
        out.push('.');
        out.push('b');
        out.push('i');
        out.push('n');
        assert(out@ =~= head + seq!['v', 'a', 'u', 'l', 't', '.', 'b', 'i', 'n']);
        string_of(&out)
    }

    /// True when secrets are unusable until `unlock`; never for the
    /// keychain, which the OS unlocks.
    pub fn is_locked(&self) -> (r: bool)
        ensures
            r == (self@.backend == Backend::File && self@.vault is None),
    {
        match self.backend {
            Backend::Keychain => false,
            Backend::File => self.vault.is_none(),
        }
    }

    /// Forgets the unlocked vault.
    pub fn lock(&mut self)
        ensures
            same_but_vault(old(self)@, final(self)@),
            final(self)@.vault is None,
            final(self)@.backend == old(self)@.backend,
            locked_view(final(self)@) == locked_after(locked_view(old(self)@), old(self)@.backend, StoreCall::Lock),
    {
        if let Some(v) = self.vault.take() {
            v.wipe();
        }
    }

    /// Unlocks the vault whose file holds `stored` (`None`: no file yet, in
    /// which case a new vault is created), adopts the secrets of the old
    /// plaintext store, and returns the file to write. A wrong passphrase
    /// leaves the store locked; it never silently starts a fresh vault. The
    /// keychain needs no unlocking, and nothing is written for it.
    pub fn unlock(&mut self, passphrase: &str, stored: Option<&[u8]>, legacy: &Vec<(String, Option<Vec<u8>>)>) -> (r:
        Result<Option<Vec<u8>>, SecretsError>)
        ensures
            old(self)@.backend == Backend::Keychain ==> r is Ok && r->Ok_0 is None && final(self)@ == old(self)@,
            old(self)@.backend == Backend::File ==> (match unlock_spec(opt_bytes(stored), passphrase@) {
                Err(e) => r is Err && r->Err_0 == SecretsError::Vault(e) && final(self)@ == old(self)@,
                Ok(None) => if pass_error(passphrase@) is Some {
                    r is Err && r->Err_0 == SecretsError::Vault(pass_error(passphrase@).unwrap()) && final(self)@
                        == old(self)@
                } else {
                    installed(
                        r,
                        old(self)@,
                        final(self)@,
                        pass_bytes(passphrase@),
                        migrated(
                            Map::empty(),
                            legacy@.map_values(|l: (String, Option<Vec<u8>>)| legacy_view(l)),
                        ),
                    )
                },
                Ok(Some(v)) => installed(
                    r,
                    old(self)@,
                    final(self)@,
                    v.pass,
                    migrated(v.map, legacy@.map_values(|l: (String, Option<Vec<u8>>)| legacy_view(l))),
                ) && (r is Ok ==> final(self)@.vault->Some_0.salt == v.salt),
            }),
            forall|salt: Seq<u8>, nonce: Seq<u8>, m: Map<Seq<char>, Seq<char>>|
                #![trigger vault_file(pass_bytes(passphrase@), salt, nonce, m)]
                old(self)@.backend == Backend::File && opt_bytes(stored) == Some(vault_file(pass_bytes(passphrase@), salt, nonce, m))
                    && vault_file(pass_bytes(passphrase@), salt, nonce, m).len() >= HEADER_LEN + TAG_LEN && salt.len() == SALT_LEN
                    && nonce.len() == NONCE_LEN && m.dom().finite() && sealable(json_map_bytes(m)) && pass_error(passphrase@) is None
                    ==> installed(
                    r,
                    old(self)@,
                    final(self)@,
                    pass_bytes(passphrase@),
                    migrated(m, legacy@.map_values(|l: (String, Option<Vec<u8>>)| legacy_view(l))),
                ) && (r is Ok ==> final(self)@.vault->Some_0.salt == salt),
            final(self)@.backend == old(self)@.backend,
            locked_view(final(self)@) == locked_after(locked_view(old(self)@), old(self)@.backend, StoreCall::Unlock { ok: r is Ok }),
    {
        if self.backend == Backend::Keychain {
            return Ok(None);
        }
        let mut v = match unlock(stored, passphrase) {
            Err(e) => return Err(SecretsError::Vault(e)),
            Ok(Some(v)) => v,
            Ok(None) => match create(passphrase) {
                Ok(v) => v,
                Err(e) => return Err(SecretsError::Vault(e)),
            },
        };
        migrate_plaintext(&mut v, legacy);
        match v.seal() {
            Ok(bytes) => {
                if let Some(previous) = self.vault.take() {
                    previous.wipe();
                }
                self.vault = Some(v);
                Ok(Some(bytes))
            },
            Err(e) => {
                v.wipe();
                Err(SecretsError::Vault(e))
            },
        }
    }

    /// Re-keys the unlocked vault under a new passphrase and returns the
    /// file to write.
    pub fn change_passphrase(&mut self, new_passphrase: &str) -> (r: Result<Vec<u8>, SecretsError>)
        ensures
            old(self)@.backend == Backend::Keychain ==> r is Err && r->Err_0 == SecretsError::NotForKeychain
                && final(self)@ == old(self)@,
            old(self)@.backend == Backend::File && old(self)@.vault is None ==> r is Err && r->Err_0
                == SecretsError::Locked && final(self)@ == old(self)@,
            old(self)@.backend == Backend::File && old(self)@.vault is Some && pass_error(new_passphrase@) is Some
                ==> r is Err && r->Err_0 == SecretsError::Vault(pass_error(new_passphrase@).unwrap()) && final(self)@
                == old(self)@,
            old(self)@.backend == Backend::File && old(self)@.vault is Some && pass_error(new_passphrase@) is None
                ==> same_but_vault(old(self)@, final(self)@) && final(self)@.vault is Some && final(self)@.vault->Some_0.map
                == old(self)@.vault->Some_0.map && final(self)@.vault->Some_0.pass == pass_bytes(new_passphrase@)
                && final(self)@.vault->Some_0.salt.len() == SALT_LEN && final(self)@.vault->Some_0.key == derived_key(
                final(self)@.vault->Some_0.pass,
                final(self)@.vault->Some_0.salt,
            ) && sealed(r, final(self)@.vault->Some_0),
            final(self)@.backend == old(self)@.backend,
            locked_view(final(self)@) == locked_after(locked_view(old(self)@), old(self)@.backend, StoreCall::Other),
    {
        if self.backend == Backend::Keychain {
            return Err(SecretsError::NotForKeychain);
        }
        let mut v = match self.vault.take() {
            Some(v) => v,
            None => return Err(SecretsError::Locked),
        };
        let res = rekey(&mut v, new_passphrase);
        let sealed = match res {
            Ok(()) => v.seal(),
            Err(e) => {
                self.vault = Some(v);
                return Err(SecretsError::Vault(e));
            },
        };
        self.vault = Some(v);
        match sealed {
            Ok(b) => Ok(b),
            Err(e) => Err(SecretsError::Vault(e)),
        }
    }

    /// Stores a secret in the vault and returns the file to write.
    pub fn file_set(&mut self, key: &str, secret: &str) -> (r: Result<Vec<u8>, SecretsError>)
        ensures
            old(self)@.vault is None ==> r is Err && r->Err_0 == SecretsError::Locked && final(self)@ == old(self)@,
            old(self)@.vault is Some ==> same_but_vault(old(self)@, final(self)@) && final(self)@.vault == Some(
                after_set(old(self)@.vault->Some_0, key@, secret@),
            ) && sealed(r, final(self)@.vault->Some_0),
            final(self)@.backend == old(self)@.backend,
            locked_view(final(self)@) == locked_after(locked_view(old(self)@), old(self)@.backend, StoreCall::Other),
    {
        let mut v = match self.vault.take() {
            Some(v) => v,
            None => return Err(SecretsError::Locked),
        };
        v.insert(key, secret);
        let sealed = v.seal();
        self.vault = Some(v);
        match sealed {
            Ok(b) => Ok(b),
            Err(e) => Err(SecretsError::Vault(e)),
        }
    }

    /// Reads a secret from the vault.
    pub fn file_get(&self, key: &str) -> (r: Result<Option<String>, SecretsError>)
        ensures
            match r {
                Ok(v) => file_get_spec(self@, key@) == Ok::<Option<Seq<char>>, SecretsError>(opt_chars(v)),
                Err(e) => file_get_spec(self@, key@) == Err::<Option<Seq<char>>, SecretsError>(e),
            },
    {
        match &self.vault {
            Some(v) => Ok(v.get(key)),
            None => Err(SecretsError::Locked),
        }
    }

    /// Deletes a secret from the vault and returns the file to write.
    pub fn file_delete(&mut self, key: &str) -> (r: Result<Vec<u8>, SecretsError>)
        ensures
            old(self)@.vault is None ==> r is Err && r->Err_0 == SecretsError::Locked && final(self)@ == old(self)@,
            old(self)@.vault is Some ==> same_but_vault(old(self)@, final(self)@) && final(self)@.vault == Some(
                after_delete(old(self)@.vault->Some_0, key@),
            ) && sealed(r, final(self)@.vault->Some_0),
            final(self)@.backend == old(self)@.backend,
            locked_view(final(self)@) == locked_after(locked_view(old(self)@), old(self)@.backend, StoreCall::Other),
    {
        let mut v = match self.vault.take() {
            Some(v) => v,
            None => return Err(SecretsError::Locked),
        };
        v.remove(key);
        let sealed = v.seal();
        self.vault = Some(v);
        match sealed {
            Ok(b) => Ok(b),
            Err(e) => Err(SecretsError::Vault(e)),
        }
    }

    /// Moves the secret stored under `from` to `to`: stores it under `to`
    /// and then deletes `from`, returning the file to write. Nothing happens
    /// when the names are equal or `from` holds no secret; if sealing the
    /// first step fails, the second is not taken.
    pub fn file_rename(&mut self, from: &str, to: &str) -> (r: Result<Option<Vec<u8>>, SecretsError>)
        ensures
            from@ == to@ ==> r == Ok::<Option<Vec<u8>>, SecretsError>(None) && final(self)@ == old(self)@,
            from@ != to@ && old(self)@.vault is None ==> r == Err::<Option<Vec<u8>>, SecretsError>(SecretsError::Locked)
                && final(self)@ == old(self)@,
            from@ != to@ && old(self)@.vault is Some && !old(self)@.vault->Some_0.map.contains_key(from@) ==> r == Ok::<
                Option<Vec<u8>>,
                SecretsError,
            >(None) && final(self)@ == old(self)@,
            from@ != to@ && old(self)@.vault is Some && old(self)@.vault->Some_0.map.contains_key(from@) ==> ({
                let v = old(self)@.vault->Some_0;
                let moved = after_set(v, to@, v.map[from@]);
                &&& same_but_vault(old(self)@, final(self)@)
                &&& if sealable(json_map_bytes(moved.map)) {
                    &&& final(self)@.vault == Some(after_delete(moved, from@))
                    &&& match r {
                        Ok(Some(b)) => sealed(Ok(b), after_delete(moved, from@)),
                        Ok(None) => false,
                        Err(e) => sealed(Err(e), after_delete(moved, from@)),
                    }
                } else {
                    &&& final(self)@.vault == Some(moved)
                    &&& r == Err::<Option<Vec<u8>>, SecretsError>(SecretsError::Vault(VaultError::Encryption))
                }
            }),
            final(self)@.backend == old(self)@.backend,
            locked_view(final(self)@) == locked_after(locked_view(old(self)@), old(self)@.backend, StoreCall::Other),
    {
        if chars_equal(&chars_of(from), &chars_of(to)) {
            return Ok(None);
        }
        let secret = match self.file_get(from) {
            Err(e) => return Err(e),
            Ok(None) => return Ok(None),
            Ok(Some(v)) => v,
        };
        match self.file_set(to, secret.as_str()) {
            Err(e) => return Err(e),
            Ok(_) => {},
        }
        match self.file_delete(from) {
            Ok(b) => Ok(Some(b)),
            Err(e) => Err(e),
        }
    }

    /// What the keychain was last known to hold for `key`: `None` when it
    /// has not been read yet, `Some(None)` when it has no entry.
    pub fn cached(&self, key: &str) -> (r: Option<Option<String>>)
        ensures
            r is Some <==> self@.cache.contains_key(key@),
            r matches Some(o) ==> opt_chars(o) == self@.cache[key@],
    {
        let k = chars_of(key);
        let mut i = self.cache.len();
        assert(self.cache@.take(i as int) =~= self.cache@);
        while i > 0
            invariant
                i <= self.cache@.len(),
                k@ == key@,
                cache_map(self.cache@.take(i as int)).contains_key(k@) == cache_map(self.cache@).contains_key(k@),
                cache_map(self.cache@).contains_key(k@) ==> cache_map(self.cache@.take(i as int))[k@]
                    == cache_map(self.cache@)[k@],
            decreases i,
        {
            let ghost c = self.cache@.take(i as int);
            assert(c.drop_last() =~= self.cache@.take(i - 1));
            assert(c.last() == self.cache@[i - 1]);
            let name = chars_of(self.cache[i - 1].0.as_str());
            if chars_equal(&name, &k) {
                return Some(copy_opt(&self.cache[i - 1].1));
            }
            i = i - 1;
        }
        assert(self.cache@.take(0) =~= Seq::<(String, Option<String>)>::empty());
        None
    }

    /// Records what the keychain holds for `key` (`None`: no entry).
    pub fn remember(&mut self, key: &str, value: Option<String>)
        ensures
            final(self)@.cache == old(self)@.cache.insert(key@, opt_chars(value)),
            final(self)@.fallback_dir == old(self)@.fallback_dir,
            final(self)@.backend == old(self)@.backend,
            final(self)@.vault == old(self)@.vault,
            final(self)@.backend == old(self)@.backend,
            locked_view(final(self)@) == locked_after(locked_view(old(self)@), old(self)@.backend, StoreCall::Other),
    {
        let ghost before = self.cache@;
        self.cache.push((key.to_owned(), value));
        assert(self.cache@.drop_last() =~= before);
    }

    /// Drops what the cache knows of `key`.
    pub fn forget(&mut self, key: &str)
        ensures
            final(self)@.cache == old(self)@.cache.remove(key@),
            final(self)@.fallback_dir == old(self)@.fallback_dir,
            final(self)@.backend == old(self)@.backend,
            final(self)@.vault == old(self)@.vault,
            final(self)@.backend == old(self)@.backend,
            locked_view(final(self)@) == locked_after(locked_view(old(self)@), old(self)@.backend, StoreCall::Other),
    {
        let k = chars_of(key);
        let mut kept: Vec<(String, Option<String>)> = Vec::new();
        let mut old_cache: Vec<(String, Option<String>)> = Vec::new();
        std::mem::swap(&mut old_cache, &mut self.cache);
        let mut i: usize = 0;
        while i < old_cache.len()
            invariant
                i <= old_cache@.len(),
                k@ == key@,
                cache_map(kept@) == cache_map(old_cache@.take(i as int)).remove(k@),
            decreases old_cache.len() - i,
        {
            let ghost c = old_cache@.take(i + 1);
            assert(c.drop_last() =~= old_cache@.take(i as int));
            assert(c.last() == old_cache@[i as int]);
            let name = chars_of(old_cache[i].0.as_str());
            if chars_equal(&name, &k) {
                assert(cache_map(c).remove(k@) =~= cache_map(old_cache@.take(i as int)).remove(k@));
            } else {
                let ghost before = kept@;
                kept.push((old_cache[i].0.clone(), copy_opt(&old_cache[i].1)));
                assert(kept@.drop_last() =~= before);
                assert(cache_map(kept@) =~= cache_map(c).remove(k@));
            }
            i = i + 1;
        }
        assert(old_cache@.take(i as int) =~= old_cache@);
        self.cache = kept;
    }
}

fn copy_opt(o: &Option<String>) -> (r: Option<String>)
    ensures
        r == *o,
{
    match o {
        Some(s) => Some(s.clone()),
        None => None,
    }
}

/// The keychain key of an SSH password.
pub fn ssh_key(host: &str, user: &str) -> (r: String)
    ensures
        r@ == seq!['s', 's', 'h', ':'] + user@ + seq!['@'] + host@,
{
    tagged_key('s', 's', 'h', host, user)
}

/// The keychain key of an RDP password.
pub fn rdp_key(host: &str, user: &str) -> (r: String)
    ensures
        r@ == seq!['r', 'd', 'p', ':'] + user@ + seq!['@'] + host@,
{
    tagged_key('r', 'd', 'p', host, user)
}

fn tagged_key(a: char, b: char, c: char, host: &str, user: &str) -> (r: String)
    ensures
        r@ == seq![a, b, c, ':'] + user@ + seq!['@'] + host@,
{
    let mut out: Vec<char> = vec![a, b, c, ':'];
    let u = chars_of(user);
    let h = chars_of(host);
    let mut i: usize = 0;
    while i < u.len()
        invariant
            i <= u@.len(),
            out@ == seq![a, b, c, ':'] + u@.take(i as int),
        decreases u.len() - i,
    {
        out.push(u[i]);
        i = i + 1;
    }
    out.push('@');
    let ghost head = out@;
    let mut j: usize = 0;
    while j < h.len()
        invariant
            j <= h@.len(),
            out@ == head + h@.take(j as int),
        decreases h.len() - j,
    {
        out.push(h[j]);
        j = j + 1;
    }
    assert(u@.take(i as int) =~= user@);
    assert(h@.take(j as int) =~= host@);
    assert(out@ =~= seq![a, b, c, ':'] + user@ + seq!['@'] + host@);
    string_of(&out)
}

} // verus!
