use terminator::secrets::{legacy_key, unhex, Backend, Secrets, SecretsError};
use terminator::vault::{self, VaultError};

const PASS: &str = "correct horse battery staple";

fn fresh() -> Secrets {
    Secrets::with_backend("/data/terminator".to_string(), Backend::File)
}

#[test]
fn secrets_round_trip_through_an_encrypted_vault() {
    let mut v = vault::create(PASS).unwrap();
    v.insert("ssh:root@host", "hunter2");
    let file = v.seal().unwrap();
    drop(v);

    let v2 = vault::unlock(Some(&file), PASS).unwrap().expect("vault should exist");
    assert_eq!(v2.get("ssh:root@host").as_deref(), Some("hunter2"));
}

#[test]
fn the_secret_never_appears_in_plaintext_on_disk() {
    let mut v = vault::create(PASS).unwrap();
    v.insert("ssh:root@prod-db-01", "SuperSecret123");
    let raw = v.seal().unwrap();
    let hay = String::from_utf8_lossy(&raw);
    assert!(!hay.contains("SuperSecret123"), "the password is in the file in cleartext");
    assert!(!hay.contains("prod-db-01"), "the vault leaks which hosts are stored");
}

#[test]
fn a_wrong_passphrase_is_rejected() {
    let mut v = vault::create(PASS).unwrap();
    v.insert("k", "v");
    let file = v.seal().unwrap();

    let err = vault::unlock(Some(&file), "not the passphrase").err().unwrap();
    assert_eq!(err, VaultError::WrongPassphrase);
    assert!(err.message().contains("incorrect passphrase"), "unexpected error: {}", err.message());
}

#[test]
fn tampering_with_the_ciphertext_is_detected() {
    let mut v = vault::create(PASS).unwrap();
    v.insert("k", "v");
    let mut raw = v.seal().unwrap();
    let last = raw.len() - 1;
    raw[last] ^= 0x01;
    assert!(vault::unlock(Some(&raw), PASS).is_err(), "modified ciphertext was accepted");
}

#[test]
fn tampering_with_the_header_is_detected() {
    let mut v = vault::create(PASS).unwrap();
    v.insert("k", "v");
    let mut raw = v.seal().unwrap();
    raw[10] ^= 0x01; // inside the salt
    assert!(vault::unlock(Some(&raw), PASS).is_err(), "modified header was accepted");
}

#[test]
fn every_save_uses_a_fresh_nonce() {
    let mut v = vault::create(PASS).unwrap();
    v.insert("k", "v");
    let mut seen = std::collections::HashSet::new();
    for _ in 0..25 {
        let raw = v.seal().unwrap();
        let nonce = raw[24..48].to_vec();
        assert!(seen.insert(nonce), "nonce was reused between saves");
    }
}

#[test]
fn changing_the_passphrase_invalidates_the_old_one() {
    let mut v = vault::create(PASS).unwrap();
    v.insert("k", "v");
    let file = v.seal().unwrap();

    let mut v = vault::unlock(Some(&file), PASS).unwrap().unwrap();
    vault::rekey(&mut v, "a brand new passphrase").unwrap();
    let file = v.seal().unwrap();
    drop(v);

    assert!(vault::unlock(Some(&file), PASS).is_err(), "the old passphrase still opens the vault");
    let v = vault::unlock(Some(&file), "a brand new passphrase").unwrap().unwrap();
    assert_eq!(v.get("k").as_deref(), Some("v"), "contents were lost");
}

#[test]
fn an_empty_passphrase_is_refused() {
    assert!(vault::create("").is_err());
    assert_eq!(vault::create("").err(), Some(VaultError::EmptyPassphrase));
}

#[test]
fn a_foreign_file_is_not_silently_overwritten() {
    let file = b"this is somebody else's file, definitely not a vault";
    let err = vault::unlock(Some(file), PASS).err().unwrap();
    assert!(err.message().contains("bad magic"), "got: {}", err.message());
}

#[test]
fn a_truncated_vault_is_reported() {
    let mut v = vault::create(PASS).unwrap();
    let raw = v.seal().unwrap();
    v.insert("k", "v");
    assert_eq!(vault::unlock(Some(&raw[..40]), PASS).err(), Some(VaultError::Truncated));
}

#[test]
fn missing_vault_reports_absence_rather_than_failing() {
    assert!(vault::unlock(None, PASS).unwrap().is_none());
}

#[test]
fn keys_come_out_sorted_and_removal_forgets() {
    let mut v = vault::create(PASS).unwrap();
    v.insert("b", "2");
    v.insert("a", "1");
    v.insert("b", "3");
    assert_eq!(v.keys(), vec!["a".to_string(), "b".to_string()]);
    assert_eq!(v.get("b").as_deref(), Some("3"));
    v.remove("a");
    assert_eq!(v.get("a"), None);
    assert_eq!(v.keys(), vec!["b".to_string()]);
}

#[test]
fn file_backend_refuses_to_serve_secrets_while_locked() {
    let mut s = fresh();
    assert!(s.is_locked());
    assert_eq!(s.file_set("k", "v").err(), Some(SecretsError::Locked), "wrote a secret while locked");
    assert!(s.file_get("k").is_err(), "read a secret while locked");

    s.unlock(PASS, None, &Vec::new()).unwrap();
    assert!(!s.is_locked());
    s.file_set("k", "v").unwrap();
    assert_eq!(s.file_get("k").unwrap().as_deref(), Some("v"));

    s.lock();
    assert!(s.file_get("k").is_err(), "still readable after locking");
}

#[test]
fn secrets_persist_across_a_lock_unlock_cycle() {
    let mut s = fresh();
    s.unlock(PASS, None, &Vec::new()).unwrap();
    let file = s.file_set("ssh:me@box", "pw").unwrap();
    drop(s);

    let mut s2 = fresh();
    s2.unlock(PASS, Some(&file), &Vec::new()).unwrap();
    assert_eq!(s2.file_get("ssh:me@box").unwrap().as_deref(), Some("pw"));

    s2.file_delete("ssh:me@box").unwrap();
    assert_eq!(s2.file_get("ssh:me@box").unwrap(), None);
}

#[test]
fn a_wrong_passphrase_does_not_destroy_the_existing_vault() {
    let mut s = fresh();
    let first = s.unlock(PASS, None, &Vec::new()).unwrap().expect("a new vault to write");
    let file = s.file_set("k", "precious").unwrap();
    assert_ne!(first, file);
    s.lock();

    assert_eq!(
        s.unlock("wrong", Some(&file), &Vec::new()).err(),
        Some(SecretsError::Vault(VaultError::WrongPassphrase))
    );
    assert!(s.is_locked(), "a failed unlock left the vault usable");

    s.unlock(PASS, Some(&file), &Vec::new()).unwrap();
    assert_eq!(s.file_get("k").unwrap().as_deref(), Some("precious"));
}

#[test]
fn legacy_plaintext_secrets_are_migrated() {
    let key = "ssh:root@legacy";
    let name: String = key.bytes().map(|b| format!("{b:02x}")).collect();
    let file_name = format!("{name}.secret");
    let found = legacy_key(&file_name).expect("a legacy secret file");
    assert_eq!(found, key);

    let legacy = vec![(found, Some(b"old-plaintext-pw".to_vec()))];
    let mut s = fresh();
    s.unlock(PASS, None, &legacy).unwrap();
    assert_eq!(s.file_get(key).unwrap().as_deref(), Some("old-plaintext-pw"));
}

#[test]
fn unreadable_or_binary_legacy_files_are_skipped() {
    let legacy = vec![("a".to_string(), None), ("b".to_string(), Some(vec![0xff, 0xfe]))];
    let mut s = fresh();
    s.unlock(PASS, None, &legacy).unwrap();
    assert_eq!(s.file_get("a").unwrap(), None);
    assert_eq!(s.file_get("b").unwrap(), None);
}

#[test]
fn only_hex_secret_files_are_legacy() {
    assert_eq!(legacy_key("6b.secret").as_deref(), Some("k"));
    assert_eq!(legacy_key(".secret"), None);
    assert_eq!(legacy_key("6b.txt"), None);
    assert_eq!(legacy_key("6.secret"), None);
    assert_eq!(legacy_key("zz.secret"), None);
}

#[test]
fn unhex_reads_byte_pairs_like_from_str_radix() {
    assert_eq!(unhex("6869").as_deref(), Some("hi"));
    assert_eq!(unhex("4A").as_deref(), Some("J"));
    assert_eq!(unhex("+a").as_deref(), Some("\n"));
    assert_eq!(unhex(""), Some(String::new()));
    assert_eq!(unhex("abc"), None);
    assert_eq!(unhex("-1"), None);
    assert_eq!(unhex("ff"), None, "not UTF-8");
}

#[test]
fn changing_the_passphrase_needs_the_file_backend_and_an_unlocked_vault() {
    let mut k = Secrets::with_backend("/d".to_string(), Backend::Keychain);
    assert_eq!(k.change_passphrase("x").err(), Some(SecretsError::NotForKeychain));
    assert!(!k.is_locked());
    assert_eq!(k.unlock(PASS, None, &Vec::new()).unwrap(), None);

    let mut s = fresh();
    assert_eq!(s.change_passphrase("x").err(), Some(SecretsError::Locked));
    s.unlock(PASS, None, &Vec::new()).unwrap();
    s.file_set("k", "v").unwrap();
    assert_eq!(
        s.change_passphrase("").err(),
        Some(SecretsError::Vault(VaultError::EmptyPassphrase))
    );
    let file = s.change_passphrase("new one").unwrap();
    let mut t = fresh();
    assert!(t.unlock(PASS, Some(&file), &Vec::new()).is_err());
    t.unlock("new one", Some(&file), &Vec::new()).unwrap();
    assert_eq!(t.file_get("k").unwrap().as_deref(), Some("v"));
}

#[test]
fn the_vault_lives_in_the_fallback_dir() {
    assert_eq!(fresh().vault_path(), "/data/terminator/vault.bin");
    assert_eq!(Secrets::with_backend("/d/".to_string(), Backend::File).vault_path(), "/d/vault.bin");
}

#[test]
fn the_keychain_cache_remembers_and_forgets() {
    let mut s = Secrets::with_backend("/d".to_string(), Backend::Keychain);
    assert_eq!(s.cached("k"), None);
    s.remember("k", Some("v1".to_string()));
    s.remember("k", Some("v2".to_string()));
    s.remember("gone", None);
    assert_eq!(s.cached("k"), Some(Some("v2".to_string())));
    assert_eq!(s.cached("gone"), Some(None));
    s.forget("k");
    assert_eq!(s.cached("k"), None);
    assert_eq!(s.cached("gone"), Some(None));
}

#[test]
fn backends_are_named_for_the_ui() {
    assert_eq!(Backend::Keychain.name(), "keychain");
    assert_eq!(Backend::File.name(), "file");
}

#[test]
fn backend_choice_follows_the_probe_and_the_override() {
    assert_eq!(Secrets::new("/d".to_string(), false, true).backend(), Backend::Keychain);
    assert_eq!(Secrets::new("/d".to_string(), false, false).backend(), Backend::File);
    assert_eq!(Secrets::new("/d".to_string(), true, true).backend(), Backend::File);
}

#[test]
fn error_messages() {
    assert_eq!(
        SecretsError::Locked.message(),
        "secret vault is locked; unlock it with the passphrase first"
    );
    assert_eq!(
        SecretsError::NotForKeychain.message(),
        "passphrase does not apply to the OS keychain backend"
    );
    assert_eq!(SecretsError::Vault(VaultError::Corrupt).message(), "vault contents are not valid");
}

#[test]
fn keychain_keys_name_the_user_and_host() {
    assert_eq!(terminator::secrets::ssh_key("box", "me"), "ssh:me@box");
    assert_eq!(terminator::secrets::rdp_key("win", "admin"), "rdp:admin@win");
}

#[test]
fn renaming_a_secret_moves_it() {
    let mut s = fresh();
    assert_eq!(s.file_rename("a", "b").err(), Some(SecretsError::Locked));
    assert_eq!(s.file_rename("a", "a"), Ok(None), "renaming to the same name is a no-op, locked or not");

    s.unlock(PASS, None, &Vec::new()).unwrap();
    s.file_set("ssh:old@host", "pw").unwrap();
    s.file_set("other", "keep").unwrap();
    assert_eq!(s.file_rename("missing", "x"), Ok(None));

    let file = s.file_rename("ssh:old@host", "ssh:new@host").unwrap().expect("a file to write");
    assert_eq!(s.file_get("ssh:new@host").unwrap().as_deref(), Some("pw"));
    assert_eq!(s.file_get("ssh:old@host").unwrap(), None);
    assert_eq!(s.file_get("other").unwrap().as_deref(), Some("keep"));

    let mut s2 = fresh();
    s2.unlock(PASS, Some(&file), &Vec::new()).unwrap();
    assert_eq!(s2.file_get("ssh:new@host").unwrap().as_deref(), Some("pw"));
    assert_eq!(s2.file_get("ssh:old@host").unwrap(), None);
}

#[test]
fn hex_file_names_decode_back_to_their_keys() {
    for key in ["ssh:root@legacy", "rdp:ünïcode@host", "", "k"] {
        let name: String = key.bytes().map(|b| format!("{b:02x}")).collect();
        assert_eq!(unhex(&name).as_deref(), Some(key));
    }
    assert_eq!(unhex("6b").as_deref(), Some("k"));
    assert_eq!(unhex("6"), None);
    assert_eq!(unhex("zz"), None);
    assert_eq!(unhex("ff"), None);
}
