//! Passphrase-encrypted secret vault, used when no OS keychain is available.
//!
//! Argon2id derives a 32-byte key from the passphrase; the secret map is
//! serialised as JSON and sealed with XChaCha20-Poly1305. The vault file is
//! `MAGIC | salt | nonce | ciphertext`, and the 48-byte header is
//! authenticated as associated data, so swapping the salt or the nonce is
//! detected. Only the salt is stored, never key material, and one file holds
//! all secrets so that key names do not leak through file names.
//!
//! Reading and writing the file is the caller's business: `unlock` takes the
//! file's bytes (or `None` when there is no file) and `seal` returns the bytes
//! to write.

use vstd::prelude::*;
use vstd::utf8::encode_utf8;
use chacha20poly1305::aead::{Aead, KeyInit, Payload};
use chacha20poly1305::aead::rand_core::RngCore;
use crate::text::{append_bytes, sub_bytes, chars_equal, chars_less, chars_of, lemma_seq_lt_asym, lemma_seq_lt_irrefl, lemma_seq_lt_total, lemma_seq_lt_trans, seq_lt};

verus! {

/// Identifies a vault file.
pub open spec fn magic() -> Seq<u8> {
    seq![0x54u8, 0x52u8, 0x4du8, 0x4eu8, 0x54u8, 0x52u8, 0x56u8, 0x31u8]
}

pub const SALT_LEN: usize = 16;
/// XChaCha20 uses a 192-bit nonce.
pub const NONCE_LEN: usize = 24;
pub const KEY_LEN: usize = 32;
/// Magic, salt and nonce.
pub const HEADER_LEN: usize = 48;
/// The Poly1305 tag that follows the encrypted bytes.
pub const TAG_LEN: usize = 16;

/// Argon2id cost: 19 MiB, 2 passes, 1 lane (OWASP's recommended floor).
pub const M_COST_KIB: u32 = 19456;
pub const T_COST: u32 = 2;
pub const P_COST: u32 = 1;

/// What `argon2::Argon2::hash_password_into` writes, for Argon2id version
/// 0x13 with the given memory, time and lane costs and output length.
pub uninterp spec fn argon2id_key(m_cost: u32, t_cost: u32, p_cost: u32, out_len: usize, pass: Seq<u8>, salt: Seq<u8>) -> Seq<u8>;

/// Calls `argon2::Params::new` and `Argon2::hash_password_into` for
/// Argon2id v0x13. With valid parameters and a salt of 8 to 2^32-1 bytes the
/// only refusal left is a password longer than 2^32-1 bytes.
#[verifier::external_body]
fn argon2id(m_cost: u32, t_cost: u32, p_cost: u32, out_len: usize, pass: &[u8], salt: &[u8]) -> (r: Option<Vec<u8>>)
    requires
        8 <= m_cost,
        8 * p_cost <= m_cost,
        1 <= t_cost,
        1 <= p_cost <= 0xff_ffff,
        4 <= out_len <= 0xffff_ffff,
        8 <= salt@.len() <= 0xffff_ffff,
    ensures
        r is Some <==> pass@.len() <= 0xffff_ffff,
        r matches Some(k) ==> k@ == argon2id_key(m_cost, t_cost, p_cost, out_len, pass@, salt@) && k@.len() == out_len,
{
    let params = argon2::Params::new(m_cost, t_cost, p_cost, Some(out_len)).ok()?;
    let a2 = argon2::Argon2::new(argon2::Algorithm::Argon2id, argon2::Version::V0x13, params);
    let mut out = vec![0u8; out_len];
    a2.hash_password_into(pass, salt, &mut out).ok()?;
    Some(out)
}

/// What `XChaCha20Poly1305::encrypt` returns: the encrypted message followed
/// by the 16-byte tag.
pub uninterp spec fn xchacha_seal(key: Seq<u8>, nonce: Seq<u8>, aad: Seq<u8>, msg: Seq<u8>) -> Seq<u8>;

/// The longest message the cipher accepts has fewer than 2^32-1 blocks of 64
/// bytes.
pub open spec fn sealable(msg: Seq<u8>) -> bool {
    msg.len() / 64 < 0xffff_ffff
}

/// Calls `XChaCha20Poly1305::encrypt` with `aad` as associated data. It
/// refuses only messages of 2^32-1 blocks or more.
#[verifier::external_body]
fn aead_seal(key: &[u8], nonce: &[u8], aad: &[u8], msg: &[u8]) -> (r: Option<Vec<u8>>)
    requires
        key@.len() == 32,
        nonce@.len() == 24,
    ensures
        r is Some <==> sealable(msg@),
        r matches Some(c) ==> c@ == xchacha_seal(key@, nonce@, aad@, msg@) && c@.len() == msg@.len() + 16,
{
    let cipher = chacha20poly1305::XChaCha20Poly1305::new_from_slice(key).ok()?;
    cipher.encrypt(chacha20poly1305::XNonce::from_slice(nonce), Payload { msg, aad }).ok()
}

/// Calls `XChaCha20Poly1305::decrypt` with `aad` as associated data. The
/// tag check makes it the inverse of sealing: it gives back the message that
/// seals to `ct` under the same key, nonce and associated data, and nothing
/// when there is none.
#[verifier::external_body]
fn aead_open(key: &[u8], nonce: &[u8], aad: &[u8], ct: &[u8]) -> (r: Option<Vec<u8>>)
    requires
        key@.len() == 32,
        nonce@.len() == 24,
    ensures
        r matches Some(m) ==> xchacha_seal(key@, nonce@, aad@, m@) == ct@ && sealable(m@),
        forall|m: Seq<u8>|
            #![trigger xchacha_seal(key@, nonce@, aad@, m)]
            xchacha_seal(key@, nonce@, aad@, m) == ct@ && sealable(m) ==> r is Some && r.unwrap()@ == m,
{
    let cipher = chacha20poly1305::XChaCha20Poly1305::new_from_slice(key).ok()?;
    cipher.decrypt(chacha20poly1305::XNonce::from_slice(nonce), Payload { msg: ct, aad }).ok()
}

/// Calls `OsRng::fill_bytes` (which panics if the operating system cannot
/// supply randomness). Nothing is known of the bytes but their number.
#[verifier::external_body]
fn random_bytes(n: usize) -> (r: Vec<u8>)
    ensures
        r@.len() == n,
{
    let mut b = vec![0u8; n];
    chacha20poly1305::aead::OsRng.fill_bytes(&mut b);
    b
}

/// Calls `zeroize::Zeroize::zeroize` on a string: its bytes are overwritten
/// with zeros and it is left empty.
#[verifier::external_body]
fn wipe_string(s: &mut String)
    ensures
        final(s)@.len() == 0,
{
    zeroize::Zeroize::zeroize(s);
}

/// Calls `zeroize::Zeroize::zeroize` on a byte vector: its bytes are
/// overwritten with zeros and it is left empty.
#[verifier::external_body]
fn wipe_bytes(b: &mut Vec<u8>)
    ensures
        final(b)@.len() == 0,
{
    zeroize::Zeroize::zeroize(b);
}

/// A secret map entry as character sequences.
pub type Entry = (Seq<char>, Seq<char>);

pub open spec fn entry_views(e: Seq<(String, String)>) -> Seq<Entry> {
    e.map_values(|p: (String, String)| (p.0@, p.1@))
}

/// Keys strictly increasing, hence distinct.
pub open spec fn sorted_entries(e: Seq<Entry>) -> bool {
    forall|i: int, j: int| 0 <= i < j < e.len() ==> seq_lt(#[trigger] e[i].0, #[trigger] e[j].0)
}

/// The map that the entries describe.
pub open spec fn entries_map(e: Seq<Entry>) -> Map<Seq<char>, Seq<char>>
    decreases e.len(),
{
    if e.len() == 0 {
        Map::empty()
    } else {
        entries_map(e.drop_last()).insert(e.last().0, e.last().1)
    }
}

/// What `serde_json::to_vec` makes of a `BTreeMap<String, String>` holding
/// this map.
pub uninterp spec fn json_map_bytes(m: Map<Seq<char>, Seq<char>>) -> Seq<u8>;

/// What `serde_json::from_slice::<BTreeMap<String, String>>` makes of these
/// bytes.
pub uninterp spec fn json_map_parse(b: Seq<u8>) -> Option<Map<Seq<char>, Seq<char>>>;

/// The most bytes compact JSON spends on one entry of a map of strings:
/// at most 6 per character (the longest escape is `\u001f`; a character
/// written as UTF-8 takes at most 4), two quotes around each string, the
/// colon and a separating comma.
pub open spec fn entry_json_max(k: Seq<char>, v: Seq<char>) -> nat {
    6 * k.len() + 6 * v.len() + 6
}

/// The bound for all the entries.
pub open spec fn entries_json_max(e: Seq<Entry>) -> nat
    decreases e.len(),
{
    if e.len() == 0 {
        0
    } else {
        entries_json_max(e.drop_last()) + entry_json_max(e.last().0, e.last().1)
    }
}

/// The bound for a map, entry by entry.
pub open spec fn map_json_max(m: Map<Seq<char>, Seq<char>>) -> nat
    decreases m.dom().len(),
{
    if m.dom().finite() && m.dom().len() > 0 {
        let k = m.dom().choose();
        entry_json_max(k, m[k]) + map_json_max(m.remove(k))
    } else {
        0
    }
}

proof fn lemma_map_json_max_remove(m: Map<Seq<char>, Seq<char>>, k: Seq<char>)
    requires
        m.dom().finite(),
        m.dom().contains(k),
    ensures
        map_json_max(m) == entry_json_max(k, m[k]) + map_json_max(m.remove(k)),
    decreases m.dom().len(),
{
    let c = m.dom().choose();
    if c != k {
        assert(m.remove(c).dom() =~= m.dom().remove(c));
        assert(m.remove(k).dom() =~= m.dom().remove(k));
        lemma_map_json_max_remove(m.remove(c), k);
        lemma_map_json_max_remove(m.remove(k), c);
        assert(m.remove(c).remove(k) =~= m.remove(k).remove(c));
    }
}

proof fn lemma_entries_json_max(e: Seq<Entry>)
    requires
        sorted_entries(e),
    ensures
        map_json_max(entries_map(e)) == entries_json_max(e),
    decreases e.len(),
{
    lemma_entries_map(e);
    if e.len() == 0 {
        assert(entries_map(e).dom().len() == 0);
    } else {
        let d = e.drop_last();
        assert(sorted_entries(d));
        lemma_entries_map(d);
        lemma_entries_json_max(d);
        let last = e.last();
        assert forall|i: int| 0 <= i < d.len() implies #[trigger] d[i].0 != last.0 by {
            assert(seq_lt(e[i].0, e[e.len() - 1].0));
            lemma_seq_lt_irrefl(last.0);
        }
        assert(!entries_map(d).contains_key(last.0));
        let m = entries_map(e);
        assert(m.dom().contains(last.0));
        lemma_map_json_max_remove(m, last.0);
        assert(m.remove(last.0) =~= entries_map(d));
    }
}

/// Calls `serde_json::to_vec` on the entries gathered into a `BTreeMap`
/// (their keys are distinct, so every entry is kept). Serialising a map of
/// strings cannot fail, and the compact form is `{`, the entries
/// `"key":"value"` separated by commas, and `}`.
#[verifier::external_body]
fn encode_entries(e: &Vec<(String, String)>) -> (r: Vec<u8>)
    requires
        sorted_entries(entry_views(e@)),
    ensures
        r@ == json_map_bytes(entries_map(entry_views(e@))),
        r@.len() <= 2 + entries_json_max(entry_views(e@)),
{
    let m: std::collections::BTreeMap<&str, &str> = e.iter().map(|(k, v)| (k.as_str(), v.as_str())).collect();
    match serde_json::to_vec(&m) {
        Ok(b) => b,
        Err(_) => Vec::new(),
    }
}

/// Calls `serde_json::from_slice::<BTreeMap<String, String>>` and lists
/// the map's entries. A `BTreeMap` lists its keys in increasing `String`
/// order, and parsing what serialising a map produced gives that map back.
#[verifier::external_body]
fn decode_entries(b: &[u8]) -> (r: Option<Vec<(String, String)>>)
    ensures
        r is Some <==> json_map_parse(b@) is Some,
        r matches Some(e) ==> sorted_entries(entry_views(e@)) && entries_map(entry_views(e@))
            == json_map_parse(b@).unwrap(),
        forall|m: Map<Seq<char>, Seq<char>>|
            #![trigger json_map_bytes(m)]
            m.dom().finite() && b@ == json_map_bytes(m) ==> r is Some && entries_map(entry_views(r.unwrap()@)) == m,
{
    let m: std::collections::BTreeMap<String, String> = serde_json::from_slice(b).ok()?;
    Some(m.into_iter().collect())
}


/// The key that `pass` and `salt` derive.
pub open spec fn derived_key(pass: Seq<u8>, salt: Seq<u8>) -> Seq<u8> {
    argon2id_key(M_COST_KIB, T_COST, P_COST, KEY_LEN, pass, salt)
}

/// The keys of the entries, in order.
pub open spec fn entry_keys(e: Seq<Entry>) -> Seq<Seq<char>> {
    e.map_values(|p: Entry| p.0)
}

/// The map of sorted entries holds exactly their keys, each with its value.
pub proof fn lemma_entries_map(e: Seq<Entry>)
    requires
        sorted_entries(e),
    ensures
        entries_map(e).dom().finite(),
        entries_map(e).dom().len() == e.len(),
        forall|k: Seq<char>| #[trigger] entries_map(e).contains_key(k) <==> exists|i: int| 0 <= i < e.len() && e[i].0 == k,
        forall|i: int| 0 <= i < e.len() ==> #[trigger] entries_map(e)[e[i].0] == e[i].1,
    decreases e.len(),
{
    if e.len() > 0 {
        let d = e.drop_last();
        assert(sorted_entries(d));
        lemma_entries_map(d);
        let last = e.last();
        assert forall|i: int| 0 <= i < d.len() implies #[trigger] d[i].0 != last.0 by {
            assert(seq_lt(e[i].0, e[e.len() - 1].0));
            lemma_seq_lt_irrefl(last.0);
        }
        assert(!entries_map(d).contains_key(last.0));
        assert forall|k: Seq<char>| #[trigger] entries_map(e).contains_key(k) <==> exists|i: int| 0 <= i < e.len() && e[i].0 == k by {
            if entries_map(e).contains_key(k) && k != last.0 {
                let i = choose|i: int| 0 <= i < d.len() && d[i].0 == k;
                assert(e[i].0 == k);
            }
            if exists|i: int| 0 <= i < e.len() && e[i].0 == k {
                let i = choose|i: int| 0 <= i < e.len() && e[i].0 == k;
                if i < d.len() {
                    assert(d[i].0 == k);
                }
            }
        }
        assert forall|i: int| 0 <= i < e.len() implies #[trigger] entries_map(e)[e[i].0] == e[i].1 by {
            if i < d.len() {
                assert(d[i] == e[i]);
                assert(entries_map(d)[d[i].0] == d[i].1);
            }
        }
    }
}

/// Why the vault could not be opened or written.
#[derive(PartialEq, Eq, Structural, Clone, Copy, Debug)]
pub enum VaultError {
    /// The file does not start with the vault magic: someone else's file.
    BadMagic,
    /// The file is too short to hold a header and a tag.
    Truncated,
    EmptyPassphrase,
    /// The passphrase is too long for Argon2.
    KeyDerivation,
    /// The ciphertext does not authenticate: a wrong passphrase or tampering.
    WrongPassphrase,
    /// The decrypted contents are not a JSON map of strings.
    Corrupt,
    /// The secrets are too large to encrypt.
    Encryption,
}

impl VaultError {
    /// The text shown to the user.
    pub fn message(&self) -> (r: String)
        ensures
            r@ == (match *self {
                VaultError::BadMagic => "not a Terminator vault (bad magic); refusing to overwrite it"@,
                VaultError::Truncated => "vault file is truncated or corrupt"@,
                VaultError::EmptyPassphrase => "passphrase must not be empty"@,
                VaultError::KeyDerivation => "key derivation failed"@,
                VaultError::WrongPassphrase => "incorrect passphrase, or the vault has been tampered with"@,
                VaultError::Corrupt => "vault contents are not valid"@,
                VaultError::Encryption => "vault encryption failed"@,
            }),
    {
        match *self {
            VaultError::BadMagic => "not a Terminator vault (bad magic); refusing to overwrite it".to_string(),
            VaultError::Truncated => "vault file is truncated or corrupt".to_string(),
            VaultError::EmptyPassphrase => "passphrase must not be empty".to_string(),
            VaultError::KeyDerivation => "key derivation failed".to_string(),
            VaultError::WrongPassphrase => "incorrect passphrase, or the vault has been tampered with".to_string(),
            VaultError::Corrupt => "vault contents are not valid".to_string(),
            VaultError::Encryption => "vault encryption failed".to_string(),
        }
    }
}

/// The UTF-8 bytes of a passphrase.
pub open spec fn pass_bytes(p: Seq<char>) -> Seq<u8> {
    encode_utf8(p)
}

/// The 48-byte header: magic, salt, nonce.
pub open spec fn header_of(salt: Seq<u8>, nonce: Seq<u8>) -> Seq<u8> {
    magic() + salt + nonce
}

/// The vault file for the secrets `m`, under the key that `pass` and `salt`
/// derive, sealed with `nonce`.
pub open spec fn vault_file(pass: Seq<u8>, salt: Seq<u8>, nonce: Seq<u8>, m: Map<Seq<char>, Seq<char>>) -> Seq<u8> {
    header_of(salt, nonce) + xchacha_seal(derived_key(pass, salt), nonce, header_of(salt, nonce), json_map_bytes(m))
}

/// The message that seals to `ct`, if there is one.
pub open spec fn opened(key: Seq<u8>, nonce: Seq<u8>, aad: Seq<u8>, ct: Seq<u8>) -> Option<Seq<u8>> {
    if exists|m: Seq<u8>| xchacha_seal(key, nonce, aad, m) == ct && sealable(m) {
        Some(choose|m: Seq<u8>| xchacha_seal(key, nonce, aad, m) == ct && sealable(m))
    } else {
        None
    }
}

/// Whether a passphrase can derive a key: not empty, and short enough.
pub open spec fn pass_error(p: Seq<char>) -> Option<VaultError> {
    if p.len() == 0 {
        Some(VaultError::EmptyPassphrase)
    } else if pass_bytes(p).len() > 0xffff_ffff {
        Some(VaultError::KeyDerivation)
    } else {
        None
    }
}

/// What opening the vault file `stored` (`None`: no file) with `pass`
/// gives: nothing when there is no vault yet; otherwise, in this order of
/// checks, a foreign file, a truncated one, an unusable passphrase, a
/// failed authentication, unreadable contents, or the vault.
pub open spec fn unlock_spec(stored: Option<Seq<u8>>, pass: Seq<char>) -> Result<Option<UnlockedView>, VaultError> {
    match stored {
        None => Ok(None),
        Some(b) => if b.len() < 8 || b.take(8) != magic() {
            Err(VaultError::BadMagic)
        } else if b.len() < HEADER_LEN + TAG_LEN {
            Err(VaultError::Truncated)
        } else if pass_error(pass) is Some {
            Err(pass_error(pass).unwrap())
        } else {
            let salt = b.subrange(8, 24);
            let key = derived_key(pass_bytes(pass), salt);
            match opened(key, b.subrange(24, 48), b.take(48), b.skip(48)) {
                None => Err(VaultError::WrongPassphrase),
                Some(plain) => match json_map_parse(plain) {
                    None => Err(VaultError::Corrupt),
                    Some(map) => Ok(Some(UnlockedView { key, salt, pass: pass_bytes(pass), map })),
                },
            }
        },
    }
}

pub open spec fn view_result(r: Result<Option<Unlocked>, VaultError>) -> Result<Option<UnlockedView>, VaultError> {
    match r {
        Ok(Some(v)) => Ok(Some(v@)),
        Ok(None) => Ok(None),
        Err(e) => Err(e),
    }
}

fn derive(passphrase: &str, salt: &Vec<u8>) -> (r: Result<Vec<u8>, VaultError>)
    requires
        salt@.len() == SALT_LEN,
    ensures
        pass_error(passphrase@) is Some ==> r == Err::<Vec<u8>, VaultError>(pass_error(passphrase@).unwrap()),
        pass_error(passphrase@) is None ==> r is Ok && r->Ok_0@ == derived_key(pass_bytes(passphrase@), salt@)
            && r->Ok_0@.len() == KEY_LEN,
{
    if passphrase.is_empty() {
        return Err(VaultError::EmptyPassphrase);
    }
    match argon2id(M_COST_KIB, T_COST, P_COST, KEY_LEN, passphrase.as_bytes(), salt.as_slice()) {
        Some(k) => Ok(k),
        None => Err(VaultError::KeyDerivation),
    }
}

/// An unlocked vault: the derived key, the salt it came from, and the
/// decrypted secret map.
pub struct Unlocked {
    key: Vec<u8>,
    salt: Vec<u8>,
    entries: Vec<(String, String)>,
    pass: Ghost<Seq<u8>>,
}

pub struct UnlockedView {
    pub key: Seq<u8>,
    pub salt: Seq<u8>,
    /// The passphrase (as UTF-8 bytes) the key was derived from.
    pub pass: Seq<u8>,
    pub map: Map<Seq<char>, Seq<char>>,
}

impl View for Unlocked {
    type V = UnlockedView;

    closed spec fn view(&self) -> UnlockedView {
        UnlockedView {
            key: self.key@,
            salt: self.salt@,
            pass: self.pass@,
            map: entries_map(entry_views(self.entries@)),
        }
    }
}

impl Unlocked {
    #[verifier::type_invariant]
    closed spec fn inv(self) -> bool {
        &&& self.salt@.len() == SALT_LEN
        &&& self.key@ == derived_key(self.pass@, self.salt@)
        &&& self.key@.len() == KEY_LEN
        &&& sorted_entries(entry_views(self.entries@))
    }

    /// Index of the entry for `k`, if there is one.
    fn find(&self, k: &Vec<char>) -> (r: Option<usize>)
        ensures
            r matches Some(i) ==> i < self.entries@.len() && entry_views(self.entries@)[i as int].0 == k@,
            r is None ==> forall|i: int| 0 <= i < self.entries@.len() ==> entry_views(self.entries@)[i].0 != k@,
    {
        let mut i: usize = 0;
        while i < self.entries.len()
            invariant
                i <= self.entries@.len(),
                forall|j: int| 0 <= j < i ==> entry_views(self.entries@)[j].0 != k@,
            decreases self.entries.len() - i,
        {
            let name = chars_of(self.entries[i].0.as_str());
            if chars_equal(&name, k) {
                return Some(i);
            }
            i = i + 1;
        }
        None
    }

    /// Stores `secret` under `key`, replacing any earlier value.
    pub fn insert(&mut self, key: &str, secret: &str)
        ensures
            final(self)@.map == old(self)@.map.insert(key@, secret@),
            final(self)@.key == old(self)@.key,
            final(self)@.salt == old(self)@.salt,
            final(self)@.pass == old(self)@.pass,
    {
        proof {
            use_type_invariant(&*self);
        }
        let k = chars_of(key);
        let ghost ev = entry_views(self.entries@);
        let mut i: usize = 0;
        while i < self.entries.len() && chars_less(&chars_of(self.entries[i].0.as_str()), &k)
            invariant
                i <= self.entries@.len(),
                ev == entry_views(self.entries@),
                forall|j: int| 0 <= j < i ==> seq_lt(#[trigger] ev[j].0, k@),
            decreases self.entries.len() - i,
        {
            i = i + 1;
        }
        let entry = (key.to_owned(), secret.to_owned());
        let mut entries: Vec<(String, String)> = Vec::new();
        std::mem::swap(&mut entries, &mut self.entries);
        proof {
            lemma_entries_map(ev);
        }
        if i < entries.len() && chars_equal(&chars_of(entries[i].0.as_str()), &k) {
            let ghost before = entries@;
            let (_, mut replaced) = entries.remove(i);
            entries.insert(i, entry);
            wipe_string(&mut replaced);
            assert(entries@ =~= before.update(i as int, entry));
            let ghost nv = entry_views(entries@);
            assert(nv =~= ev.update(i as int, (k@, secret@)));
            assert(sorted_entries(nv)) by {
                assert forall|a: int, b: int| 0 <= a < b < nv.len() implies seq_lt(#[trigger] nv[a].0, #[trigger] nv[b].0) by {
                    assert(seq_lt(ev[a].0, ev[b].0));
                }
            }
            proof {
                lemma_entries_map(nv);
            }
            assert(entries_map(nv) =~= entries_map(ev).insert(k@, secret@)) by {
                assert forall|x: Seq<char>| entries_map(nv).contains_key(x) implies entries_map(ev).insert(k@, secret@).contains_key(x)
                    && entries_map(nv)[x] == entries_map(ev).insert(k@, secret@)[x] by {
                    let j = choose|j: int| 0 <= j < nv.len() && nv[j].0 == x;
                    assert(entries_map(nv)[nv[j].0] == nv[j].1);
                    if j != i {
                        if j < i {
                            assert(seq_lt(ev[j].0, ev[i as int].0));
                        } else {
                            assert(seq_lt(ev[i as int].0, ev[j].0));
                        }
                        lemma_seq_lt_irrefl(k@);
                        assert(x != k@);
                        assert(entries_map(ev)[ev[j].0] == ev[j].1);
                    }
                }
                assert forall|x: Seq<char>| entries_map(ev).insert(k@, secret@).contains_key(x) implies entries_map(nv).contains_key(x) by {
                    if x != k@ {
                        let j = choose|j: int| 0 <= j < ev.len() && ev[j].0 == x;
                        assert(nv[j].0 == x);
                    } else {
                        assert(nv[i as int].0 == x);
                    }
                }
            }
        } else {
            proof {
                if i < ev.len() {
                    lemma_seq_lt_total(ev[i as int].0, k@);
                }
            }
            entries.insert(i, entry);
            let ghost nv = entry_views(entries@);
            assert(nv =~= ev.insert(i as int, (k@, secret@)));
            assert(sorted_entries(nv)) by {
                assert forall|a: int, b: int| 0 <= a < b < nv.len() implies seq_lt(#[trigger] nv[a].0, #[trigger] nv[b].0) by {
                    if b < i {
                        assert(seq_lt(ev[a].0, ev[b].0));
                    } else if b == i {
                        assert(seq_lt(ev[a].0, k@));
                    } else if a < i {
                        assert(seq_lt(ev[a].0, k@));
                        assert(seq_lt(k@, ev[i as int].0));
                        if b - 1 > i {
                            assert(seq_lt(ev[i as int].0, ev[b - 1].0));
                            lemma_seq_lt_trans(k@, ev[i as int].0, ev[b - 1].0);
                        }
                        lemma_seq_lt_trans(ev[a].0, k@, ev[b - 1].0);
                    } else if a == i {
                        assert(seq_lt(k@, ev[i as int].0));
                        if b - 1 > i {
                            assert(seq_lt(ev[i as int].0, ev[b - 1].0));
                            lemma_seq_lt_trans(k@, ev[i as int].0, ev[b - 1].0);
                        }
                    } else {
                        assert(seq_lt(ev[a - 1].0, ev[b - 1].0));
                    }
                }
            }
            proof {
                lemma_entries_map(nv);
                assert forall|j: int| 0 <= j < ev.len() implies #[trigger] ev[j].0 != k@ by {
                    if j < i {
                        lemma_seq_lt_irrefl(k@);
                    } else {
                        assert(seq_lt(k@, ev[i as int].0));
                        if j > i {
                            assert(seq_lt(ev[i as int].0, ev[j].0));
                            lemma_seq_lt_trans(k@, ev[i as int].0, ev[j].0);
                        }
                        lemma_seq_lt_irrefl(k@);
                    }
                }
            }
            assert(entries_map(nv) =~= entries_map(ev).insert(k@, secret@)) by {
                assert forall|x: Seq<char>| entries_map(nv).contains_key(x) implies entries_map(ev).insert(k@, secret@).contains_key(x)
                    && entries_map(nv)[x] == entries_map(ev).insert(k@, secret@)[x] by {
                    let j = choose|j: int| 0 <= j < nv.len() && nv[j].0 == x;
                    assert(entries_map(nv)[nv[j].0] == nv[j].1);
                    if j < i {
                        assert(entries_map(ev)[ev[j].0] == ev[j].1);
                    } else if j > i {
                        assert(entries_map(ev)[ev[j - 1].0] == ev[j - 1].1);
                    }
                }
                assert forall|x: Seq<char>| entries_map(ev).insert(k@, secret@).contains_key(x) implies entries_map(nv).contains_key(x) by {
                    if x != k@ {
                        let j = choose|j: int| 0 <= j < ev.len() && ev[j].0 == x;
                        if j < i {
                            assert(nv[j].0 == x);
                        } else {
                            assert(nv[j + 1].0 == x);
                        }
                    } else {
                        assert(nv[i as int].0 == x);
                    }
                }
            }
        }
        self.entries = entries;
    }

    /// Deletes the secret stored under `key`, if any.
    pub fn remove(&mut self, key: &str)
        ensures
            final(self)@.map == old(self)@.map.remove(key@),
            final(self)@.key == old(self)@.key,
            final(self)@.salt == old(self)@.salt,
            final(self)@.pass == old(self)@.pass,
    {
        proof {
            use_type_invariant(&*self);
        }
        let k = chars_of(key);
        let ghost ev = entry_views(self.entries@);
        proof {
            lemma_entries_map(ev);
        }
        match self.find(&k) {
            Some(i) => {
                let mut entries: Vec<(String, String)> = Vec::new();
                std::mem::swap(&mut entries, &mut self.entries);
                let (_, mut gone) = entries.remove(i);
                wipe_string(&mut gone);
                let ghost nv = entry_views(entries@);
                assert(nv =~= ev.remove(i as int));
                assert(sorted_entries(nv)) by {
                    assert forall|a: int, b: int| 0 <= a < b < nv.len() implies seq_lt(#[trigger] nv[a].0, #[trigger] nv[b].0) by {
                        if b < i {
                            assert(seq_lt(ev[a].0, ev[b].0));
                        } else if a < i {
                            assert(seq_lt(ev[a].0, ev[b + 1].0));
                        } else {
                            assert(seq_lt(ev[a + 1].0, ev[b + 1].0));
                        }
                    }
                }
                proof {
                    lemma_entries_map(nv);
                }
                proof {
                    assert forall|x: Seq<char>| #[trigger] entries_map(nv).dom().contains(x) implies entries_map(ev).remove(k@).dom().contains(x)
                        && entries_map(nv)[x] == entries_map(ev).remove(k@)[x] by {
                        let j = choose|j: int| 0 <= j < nv.len() && nv[j].0 == x;
                        assert(entries_map(nv)[nv[j].0] == nv[j].1);
                        if j < i {
                            assert(seq_lt(ev[j].0, ev[i as int].0));
                            lemma_seq_lt_irrefl(k@);
                            assert(x != k@);
                            assert(entries_map(ev).contains_key(x));
                            assert(entries_map(ev)[ev[j].0] == ev[j].1);
                            assert(nv[j] == ev[j]);
                        } else {
                            assert(nv[j] == ev[j + 1]);
                            assert(seq_lt(ev[i as int].0, ev[j + 1].0));
                            lemma_seq_lt_irrefl(k@);
                            assert(x != k@);
                            assert(entries_map(ev).contains_key(x));
                            assert(entries_map(ev)[ev[j + 1].0] == ev[j + 1].1);
                        }
                    }
                    assert forall|x: Seq<char>| entries_map(ev).remove(k@).dom().contains(x) implies entries_map(nv).dom().contains(x) by {
                        let j = choose|j: int| 0 <= j < ev.len() && ev[j].0 == x;
                        if j < i {
                            assert(nv[j].0 == x);
                        } else {
                            assert(j != i);
                            assert(nv[j - 1].0 == x);
                        }
                    }
                }
                assert(entries_map(nv) =~= entries_map(ev).remove(k@));
                self.entries = entries;
            },
            None => {
                assert(entries_map(ev).remove(k@) =~= entries_map(ev));
            },
        }
    }

    /// The keys of all stored secrets, in increasing order.
    pub fn keys(&self) -> (r: Vec<String>)
        ensures
            r@.len() == self@.map.dom().len(),
            forall|i: int| 0 <= i < r@.len() ==> self@.map.contains_key(#[trigger] r@[i]@),
            forall|k: Seq<char>| #[trigger] self@.map.contains_key(k) ==> exists|i: int| 0 <= i < r@.len() && r@[i]@ == k,
            forall|i: int, j: int| 0 <= i < j < r@.len() ==> seq_lt(#[trigger] r@[i]@, #[trigger] r@[j]@),
    {
        proof {
            use_type_invariant(self);
            lemma_entries_map(entry_views(self.entries@));
        }
        let ghost ev = entry_views(self.entries@);
        let mut r: Vec<String> = Vec::new();
        let mut i: usize = 0;
        while i < self.entries.len()
            invariant
                i <= self.entries@.len(),
                ev == entry_views(self.entries@),
                r@.len() == i,
                forall|j: int| 0 <= j < i ==> #[trigger] r@[j]@ == ev[j].0,
            decreases self.entries.len() - i,
        {
            r.push(self.entries[i].0.clone());
            i = i + 1;
        }
        proof {
            assert forall|k: Seq<char>| #[trigger] self@.map.contains_key(k) implies exists|i: int| 0 <= i < r@.len() && r@[i]@ == k by {
                let j = choose|j: int| 0 <= j < ev.len() && ev[j].0 == k;
                assert(r@[j]@ == k);
            }
            assert forall|i: int| 0 <= i < r@.len() implies self@.map.contains_key(#[trigger] r@[i]@) by {
                assert(ev[i].0 == r@[i]@);
            }
        }
        r
    }

    /// The vault file that holds these secrets, sealed under a fresh random
    /// nonce (reusing one under the same key would break XChaCha20-Poly1305
    /// outright). The caller writes it out.
    pub fn seal(&self) -> (r: Result<Vec<u8>, VaultError>)
        ensures
            r is Ok <==> sealable(json_map_bytes(self@.map)),
            r is Err ==> r == Err::<Vec<u8>, VaultError>(VaultError::Encryption),
            r matches Ok(b) ==> b@.len() == HEADER_LEN + json_map_bytes(self@.map).len() + TAG_LEN
                && b@ == vault_file(self@.pass, self@.salt, b@.subrange(24, 48), self@.map),
            self@.map.dom().finite(),
            self@.salt.len() == SALT_LEN,
            json_map_bytes(self@.map).len() <= 2 + map_json_max(self@.map),
    {
        proof {
            use_type_invariant(self);
            lemma_entries_map(entry_views(self.entries@));
            lemma_entries_json_max(entry_views(self.entries@));
        }
        let mut plain = encode_entries(&self.entries);
        let nonce = random_bytes(NONCE_LEN);
        let mut header: Vec<u8> = vec![0x54u8, 0x52u8, 0x4du8, 0x4eu8, 0x54u8, 0x52u8, 0x56u8, 0x31u8];
        assert(header@ == magic());
        append_bytes(&mut header, self.salt.as_slice());
        append_bytes(&mut header, nonce.as_slice());
        assert(header@ == header_of(self.salt@, nonce@));
        let sealed = aead_seal(self.key.as_slice(), nonce.as_slice(), header.as_slice(), plain.as_slice());
        wipe_bytes(&mut plain);
        match sealed {
            Some(ct) => {
                let mut out = header;
                append_bytes(&mut out, ct.as_slice());
                assert(out@.subrange(24, 48) =~= nonce@);
                Ok(out)
            },
            None => Err(VaultError::Encryption),
        }
    }

    /// Overwrites the key and every stored secret with zeros and discards
    /// the vault. A locked store calls this on the vault it lets go of.
    pub fn wipe(self) {
        let Unlocked { mut key, salt: _, mut entries, pass: _ } = self;
        wipe_bytes(&mut key);
        loop
            decreases entries@.len(),
        {
            match entries.pop() {
                Some((_, mut secret)) => wipe_string(&mut secret),
                None => break,
            }
        }
    }

    /// The secret stored under `key`.
    pub fn get(&self, key: &str) -> (r: Option<String>)
        ensures
            r is Some <==> self@.map.contains_key(key@),
            r matches Some(v) ==> v@ == self@.map[key@],
    {
        proof {
            use_type_invariant(self);
            lemma_entries_map(entry_views(self.entries@));
        }
        let k = chars_of(key);
        match self.find(&k) {
            Some(i) => {
                let v = self.entries[i].1.clone();
                assert(entry_views(self.entries@)[i as int].1 == self.entries@[i as int].1@);
                Some(v)
            },
            None => None,
        }
    }
}


/// A brand-new empty vault protected by `passphrase`, under a fresh random
/// salt.
pub fn create(passphrase: &str) -> (r: Result<Unlocked, VaultError>)
    ensures
        pass_error(passphrase@) is Some ==> r is Err && r->Err_0 == pass_error(passphrase@).unwrap(),
        pass_error(passphrase@) is None ==> r is Ok,
        r matches Ok(v) ==> v@.map == Map::<Seq<char>, Seq<char>>::empty() && v@.pass == pass_bytes(passphrase@)
            && v@.salt.len() == SALT_LEN && v@.key == derived_key(v@.pass, v@.salt),
{
    let salt = random_bytes(SALT_LEN);
    let key = match derive(passphrase, &salt) {
        Ok(k) => k,
        Err(e) => return Err(e),
    };
    let v = Unlocked { key, salt, entries: Vec::new(), pass: Ghost(pass_bytes(passphrase@)) };
    assert(entry_views(v.entries@) =~= Seq::<Entry>::empty());
    Ok(v)
}

/// Re-keys an unlocked vault under a new passphrase and a fresh salt, so
/// the old passphrase cannot be checked against the new file. The caller
/// must write the sealed vault for it to take effect. On a refused
/// passphrase the vault is left as it was.
pub fn rekey(v: &mut Unlocked, new_passphrase: &str) -> (r: Result<(), VaultError>)
    ensures
        pass_error(new_passphrase@) is Some ==> r == Err::<(), VaultError>(pass_error(new_passphrase@).unwrap())
            && final(v)@ == old(v)@,
        pass_error(new_passphrase@) is None ==> r is Ok && final(v)@.map == old(v)@.map && final(v)@.pass
            == pass_bytes(new_passphrase@) && final(v)@.salt.len() == SALT_LEN && final(v)@.key == derived_key(
            final(v)@.pass,
            final(v)@.salt,
        ),
{
    proof {
        use_type_invariant(&*v);
    }
    let salt = random_bytes(SALT_LEN);
    let key = match derive(new_passphrase, &salt) {
        Ok(k) => k,
        Err(e) => return Err(e),
    };
    let mut entries: Vec<(String, String)> = Vec::new();
    std::mem::swap(&mut entries, &mut v.entries);
    let mut retired = Unlocked { key, salt, entries, pass: Ghost(pass_bytes(new_passphrase@)) };
    std::mem::swap(v, &mut retired);
    retired.wipe();
    Ok(())
}

/// Derives the key and decrypts the vault file `stored` (`None` when no
/// vault exists yet, which is not an error). A vault file that `seal` wrote
/// opens under the passphrase it was sealed with and gives back the same
/// secrets.
pub fn unlock(stored: Option<&[u8]>, passphrase: &str) -> (r: Result<Option<Unlocked>, VaultError>)
    ensures
        view_result(r) == unlock_spec(
            match stored {
                Some(b) => Some(b@),
                None => None,
            },
            passphrase@,
        ),
        forall|salt: Seq<u8>, nonce: Seq<u8>, m: Map<Seq<char>, Seq<char>>|
            #![trigger vault_file(pass_bytes(passphrase@), salt, nonce, m)]
            stored is Some && stored.unwrap()@ == vault_file(pass_bytes(passphrase@), salt, nonce, m)
                && stored.unwrap()@.len() >= HEADER_LEN + TAG_LEN && salt.len() == SALT_LEN && nonce.len()
                == NONCE_LEN && m.dom().finite() && sealable(json_map_bytes(m)) && pass_error(passphrase@) is None
                ==> r is Ok && r->Ok_0 is Some && r->Ok_0->Some_0@.map == m && r->Ok_0->Some_0@.salt == salt,
{
    let raw = match stored {
        None => return Ok(None),
        Some(b) => b,
    };
    if raw.len() < 8 || !(raw[0] == 0x54 && raw[1] == 0x52 && raw[2] == 0x4d && raw[3] == 0x4e && raw[4] == 0x54
        && raw[5] == 0x52 && raw[6] == 0x56 && raw[7] == 0x31) {
        proof {
            if raw@.len() >= 8 && raw@.take(8) == magic() {
                assert(raw@[0] == raw@.take(8)[0]);
                assert(raw@[7] == raw@.take(8)[7]);
                assert(raw@[1] == raw@.take(8)[1] && raw@[2] == raw@.take(8)[2] && raw@[3] == raw@.take(8)[3]);
                assert(raw@[4] == raw@.take(8)[4] && raw@[5] == raw@.take(8)[5] && raw@[6] == raw@.take(8)[6]);
            }
            assert forall|salt: Seq<u8>, nonce: Seq<u8>, m: Map<Seq<char>, Seq<char>>|
                raw@ == vault_file(pass_bytes(passphrase@), salt, nonce, m) && salt.len() == SALT_LEN implies false by {
                assert(raw@.take(8) =~= magic());
            }
        }
        return Err(VaultError::BadMagic);
    }
    assert(raw@.take(8) =~= magic());
    if raw.len() < HEADER_LEN + TAG_LEN {
        return Err(VaultError::Truncated);
    }
    let salt = sub_bytes(raw, 8, 24);
    let nonce = sub_bytes(raw, 24, 48);
    let header = sub_bytes(raw, 0, 48);
    let ct = sub_bytes(raw, 48, raw.len());
    assert(header@ =~= raw@.take(48));
    assert(ct@ =~= raw@.skip(48));
    let mut key = match derive(passphrase, &salt) {
        Ok(k) => k,
        Err(e) => return Err(e),
    };
    proof {
        assert forall|s2: Seq<u8>, n2: Seq<u8>, m: Map<Seq<char>, Seq<char>>|
            raw@ == vault_file(pass_bytes(passphrase@), s2, n2, m) && s2.len() == SALT_LEN && n2.len() == NONCE_LEN
            implies s2 == salt@ && n2 == nonce@ && header@ == header_of(s2, n2) && ct@ == xchacha_seal(
            key@,
            n2,
            header_of(s2, n2),
            json_map_bytes(m),
        ) by {
            let h = header_of(s2, n2);
            assert(raw@.subrange(8, 24) =~= s2);
            assert(raw@.subrange(24, 48) =~= n2);
            assert(raw@.take(48) =~= h);
            assert(raw@.skip(48) =~= xchacha_seal(derived_key(pass_bytes(passphrase@), s2), n2, h, json_map_bytes(m)));
        }
    }
    let mut plain = match aead_open(key.as_slice(), nonce.as_slice(), header.as_slice(), ct.as_slice()) {
        Some(p) => p,
        None => {
            assert(opened(key@, nonce@, header@, ct@) is None);
            wipe_bytes(&mut key);
            return Err(VaultError::WrongPassphrase);
        },
    };
    assert(opened(key@, nonce@, header@, ct@) == Some(plain@));
    let decoded = decode_entries(plain.as_slice());
    wipe_bytes(&mut plain);
    let entries = match decoded {
        Some(e) => e,
        None => {
            wipe_bytes(&mut key);
            return Err(VaultError::Corrupt);
        },
    };
    let v = Unlocked { key, salt, entries, pass: Ghost(pass_bytes(passphrase@)) };
    Ok(Some(v))
}

} // verus!
