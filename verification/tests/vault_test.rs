use portkey::errors::VaultError;
use portkey::models::Server;
use portkey::vault::Vault;

fn sample(name: &str, host: &str, port: u16) -> Server {
    Server::new(
        name.to_string(),
        host.to_string(),
        port,
        "admin".to_string(),
        "p@ss".to_string(),
        None,
    )
}

#[test]
fn scenario_create_add_remove_relock() {
    // Create a vault protected by a password.
    let mut vault = Vault::new();
    assert!(!vault.is_unlocked());
    let bytes = vault
        .create(Some("correct-horse"), false)
        .expect("creating a fresh vault must succeed");
    assert!(vault.is_unlocked());
    assert!(vault.list_servers().unwrap().is_empty());

    // Add one record and check what list returns.
    let record = Server::new(
        "db1".to_string(),
        "10.0.0.5".to_string(),
        5432,
        "admin".to_string(),
        "p@ss".to_string(),
        None,
    );
    let id = record.id;
    let bytes_after_add = vault.add_server(record).expect("vault is unlocked");
    assert_ne!(bytes, bytes_after_add);
    {
        let listed = vault.list_servers().unwrap();
        assert_eq!(listed.len(), 1);
        assert_eq!(listed[0].name, "db1");
        assert_eq!(listed[0].host, "10.0.0.5");
        assert_eq!(listed[0].port, 5432);
        assert_eq!(listed[0].username, "admin");
        assert_eq!(listed[0].password, "p@ss");
        assert_eq!(listed[0].id, id);
    }

    // Remove it by identity; the list is empty again.
    let bytes_after_remove = vault
        .remove_server(id)
        .expect("vault is unlocked")
        .expect("the record was present, so new file bytes are owed");
    assert!(vault.list_servers().unwrap().is_empty());

    // A fresh vault instance unlocked with the same password sees the
    // same (empty) set.
    let mut fresh = Vault::new();
    fresh
        .unlock(Some("correct-horse"), Some(&bytes_after_remove))
        .expect("the stored bytes must unlock under the same password");
    assert!(fresh.list_servers().unwrap().is_empty());
}

#[test]
fn round_trip_full_set_through_encrypted_file() {
    let mut vault = Vault::new();
    vault.create(Some("hunter2"), false).unwrap();
    vault.add_server(sample("alpha", "a.example", 22)).unwrap();
    vault
        .add_server(Server::new(
            "béta".to_string(),
            "b.example".to_string(),
            2200,
            "ops".to_string(),
            "s3cr3t".to_string(),
            Some("second box".to_string()),
        ))
        .unwrap();
    let bytes = vault.add_server(sample("gamma", "c.example", 443)).unwrap();

    let mut fresh = Vault::new();
    fresh.unlock(Some("hunter2"), Some(&bytes)).unwrap();
    let original = vault.list_servers().unwrap();
    let recovered = fresh.list_servers().unwrap();
    assert_eq!(original.len(), recovered.len());
    for (a, b) in original.iter().zip(recovered.iter()) {
        assert_eq!(a.id, b.id);
        assert_eq!(a.name, b.name);
        assert_eq!(a.host, b.host);
        assert_eq!(a.port, b.port);
        assert_eq!(a.username, b.username);
        assert_eq!(a.password, b.password);
        assert_eq!(a.description, b.description);
        assert_eq!(a.created_at, b.created_at);
        assert_eq!(a.updated_at, b.updated_at);
        assert_eq!(a.tags, b.tags);
    }
}

#[test]
fn wrong_password_is_auth_error() {
    let mut vault = Vault::new();
    let bytes = vault.create(Some("first-password"), false).unwrap();
    let mut fresh = Vault::new();
    assert_eq!(
        fresh.unlock(Some("second-password"), Some(&bytes)),
        Err(VaultError::Auth)
    );
    assert!(!fresh.is_unlocked());
}

#[test]
fn tampered_ciphertext_is_auth_error() {
    let mut vault = Vault::new();
    let mut bytes = vault.create(Some("hunter2"), false).unwrap();
    // The ciphertext stands at the end of the envelope; flipping its last
    // byte must break authentication, never yield data.
    let last = bytes.len() - 1;
    bytes[last] ^= 0xff;
    let mut fresh = Vault::new();
    assert_eq!(fresh.unlock(Some("hunter2"), Some(&bytes)), Err(VaultError::Auth));
}

#[test]
fn unencrypted_mode_round_trip() {
    let mut vault = Vault::new();
    let bytes = vault.create(None, false).expect("plaintext create cannot fail");
    assert!(vault.is_unlocked());

    let mut fresh = Vault::new();
    fresh.unlock(None, Some(&bytes)).unwrap();
    assert!(fresh.list_servers().unwrap().is_empty());

    // Offering a password for an unencrypted vault is answered with a
    // clear signal, not silent success and not a crash.
    let mut wrong = Vault::new();
    assert_eq!(wrong.unlock(Some("anything"), Some(&bytes)), Err(VaultError::Auth));
}

#[test]
fn missing_password_on_encrypted_vault_is_auth_error() {
    let mut vault = Vault::new();
    let bytes = vault.create(Some("pw"), false).unwrap();
    let mut fresh = Vault::new();
    assert_eq!(fresh.unlock(None, Some(&bytes)), Err(VaultError::Auth));
}

#[test]
fn error_taxonomy() {
    // NotFound: no file to unlock from.
    let mut vault = Vault::new();
    assert_eq!(vault.unlock(None, None), Err(VaultError::NotFound));

    // AlreadyExists: creating on top of an existing file.
    assert_eq!(vault.create(Some("pw"), true), Err(VaultError::AlreadyExists));

    // Locked: reads and mutations before unlock.
    assert_eq!(vault.list_servers().err(), Some(VaultError::Locked));
    assert_eq!(vault.find_server(7).err(), Some(VaultError::Locked));
    assert_eq!(vault.add_server(sample("x", "h", 22)).err(), Some(VaultError::Locked));
    assert_eq!(vault.remove_server(7).err(), Some(VaultError::Locked));
    assert_eq!(vault.replace_server(sample("x", "h", 22)).err(), Some(VaultError::Locked));

    // Format: bytes that are no envelope.
    let garbage = vec![42u8, 1, 2, 3];
    assert_eq!(vault.unlock(None, Some(&garbage)), Err(VaultError::Format));

    // Every error renders a non-empty, secret-free message.
    for e in [
        VaultError::NotFound,
        VaultError::AlreadyExists,
        VaultError::Auth,
        VaultError::Format,
        VaultError::Locked,
        VaultError::KeyDerivation,
    ] {
        assert!(!e.message().is_empty());
    }
}

#[test]
fn replace_miss_returns_false_and_changes_nothing() {
    let mut vault = Vault::new();
    vault.create(None, false).unwrap();
    vault.add_server(sample("keeper", "k.example", 22)).unwrap();
    let kept: Vec<(u128, String, u64)> = vault
        .list_servers()
        .unwrap()
        .iter()
        .map(|s| (s.id, s.name.clone(), s.updated_at))
        .collect();

    // The replacement record carries a fresh identity, absent from the set.
    let stranger = sample("stranger", "s.example", 2222);
    let outcome = vault.replace_server(stranger).unwrap();
    assert!(outcome.is_none());

    let after: Vec<(u128, String, u64)> = vault
        .list_servers()
        .unwrap()
        .iter()
        .map(|s| (s.id, s.name.clone(), s.updated_at))
        .collect();
    assert_eq!(kept, after);
}

#[test]
fn replace_hit_updates_fields_keeps_identity() {
    let mut vault = Vault::new();
    vault.create(None, false).unwrap();
    vault.add_server(sample("old-name", "old.example", 22)).unwrap();
    let (id, created_at) = {
        let listed = vault.list_servers().unwrap();
        (listed[0].id, listed[0].created_at)
    };

    let mut replacement = sample("new-name", "new.example", 2222);
    replacement.id = id;
    let outcome = vault.replace_server(replacement).unwrap();
    assert!(outcome.is_some());

    let listed = vault.list_servers().unwrap();
    assert_eq!(listed.len(), 1);
    assert_eq!(listed[0].id, id);
    assert_eq!(listed[0].created_at, created_at);
    assert_eq!(listed[0].name, "new-name");
    assert_eq!(listed[0].host, "new.example");
    assert_eq!(listed[0].port, 2222);
    assert!(listed[0].updated_at >= listed[0].created_at);
}

#[test]
fn identities_stay_unique_and_distinct() {
    let mut vault = Vault::new();
    vault.create(None, false).unwrap();
    vault.add_server(sample("one", "h1", 1)).unwrap();
    vault.add_server(sample("two", "h2", 2)).unwrap();
    vault.add_server(sample("three", "h3", 65535)).unwrap();
    let listed = vault.list_servers().unwrap();
    assert_eq!(listed.len(), 3);
    for i in 0..listed.len() {
        for j in (i + 1)..listed.len() {
            assert_ne!(listed[i].id, listed[j].id);
        }
    }
}

#[test]
fn find_server_by_identity() {
    let mut vault = Vault::new();
    vault.create(None, false).unwrap();
    vault.add_server(sample("findme", "f.example", 22)).unwrap();
    let id = vault.list_servers().unwrap()[0].id;
    assert_eq!(vault.find_server(id).unwrap().unwrap().name, "findme");
    assert!(vault.find_server(id.wrapping_add(1)).unwrap().is_none());
}

#[test]
fn envelope_with_trailing_garbage_is_format_error() {
    let mut vault = Vault::new();
    let mut bytes = vault.create(None, false).unwrap();
    bytes.push(0);
    let mut fresh = Vault::new();
    assert_eq!(fresh.unlock(None, Some(&bytes)), Err(VaultError::Format));
}

#[test]
fn unlock_then_save_keeps_record_timestamps() {
    let mut vault = Vault::new();
    vault.create(Some("pw"), false).unwrap();
    let bytes = vault.add_server(sample("steady", "s.example", 22)).unwrap();
    let (created, updated) = {
        let listed = vault.list_servers().unwrap();
        (listed[0].created_at, listed[0].updated_at)
    };

    // Re-opening the vault and saving again must not touch the record's
    // own timestamps.
    let mut second = Vault::new();
    second.unlock(Some("pw"), Some(&bytes)).unwrap();
    let more = second.add_server(sample("another", "a.example", 22)).unwrap();
    let mut third = Vault::new();
    third.unlock(Some("pw"), Some(&more)).unwrap();
    let listed = third.list_servers().unwrap();
    let steady = listed.iter().find(|s| s.name == "steady").unwrap();
    assert_eq!(steady.created_at, created);
    assert_eq!(steady.updated_at, updated);
}
