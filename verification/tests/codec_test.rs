use portkey::codec::{decode_vault_data, encode_vault_data};
use portkey::crypto::{generate_salt, MasterKey};
use portkey::models::{Server, VaultData};

fn record(name: &str) -> Server {
    Server::new(
        name.to_string(),
        "host.example".to_string(),
        8080,
        "user".to_string(),
        "pw".to_string(),
        Some("déscription with ünïcode".to_string()),
    )
}

#[test]
fn payload_round_trip_bit_for_bit() {
    let mut data = VaultData::new();
    data.add_server(record("café-server"));
    data.add_server(record("plain"));
    let bytes = encode_vault_data(&data);
    let decoded = decode_vault_data(&bytes).expect("an encoding must decode");
    let again = encode_vault_data(&decoded);
    assert_eq!(bytes, again);
    assert_eq!(decoded.version, data.version);
    assert_eq!(decoded.servers.len(), 2);
    assert_eq!(decoded.servers[0].name, "café-server");
    assert_eq!(decoded.servers[0].description.as_deref(), Some("déscription with ünïcode"));
    assert_eq!(decoded.servers[0].port, 8080);
}

#[test]
fn truncated_payload_is_rejected() {
    let mut data = VaultData::new();
    data.add_server(record("alpha"));
    let mut bytes = encode_vault_data(&data);
    bytes.pop();
    assert!(decode_vault_data(&bytes).is_none());
}

#[test]
fn trailing_garbage_is_rejected() {
    let data = VaultData::new();
    let mut bytes = encode_vault_data(&data);
    bytes.push(0);
    assert!(decode_vault_data(&bytes).is_none());
}

#[test]
fn duplicate_identities_are_rejected() {
    // Hand-build a payload whose two records share an identity: it must
    // not decode, whatever else is right about it.
    let mut data = VaultData::new();
    let a = record("a");
    let mut b = record("b");
    b.id = a.id;
    data.servers.push(a);
    data.servers.push(b);
    let bytes = encode_vault_data(&data);
    assert!(decode_vault_data(&bytes).is_none());
}

#[test]
fn encryption_round_trip_and_tamper_detection() {
    let salt = generate_salt();
    let key = MasterKey::from_password("open sesame", &salt).unwrap();
    let plaintext: Vec<u8> = b"some payload bytes".to_vec();
    let (nonce, ciphertext) = key.encrypt(&plaintext);

    // The ciphertext is a real transformation: longer by the tag, and
    // nowhere the plaintext itself.
    assert_eq!(ciphertext.len(), plaintext.len() + 16);
    assert_ne!(&ciphertext[..plaintext.len()], &plaintext[..]);

    // Same key and nonce give the plaintext back, bit for bit.
    let back = key.decrypt(&ciphertext, &nonce).unwrap();
    assert_eq!(back, plaintext);

    // The same password with the same salt derives the same key.
    let key2 = MasterKey::from_password("open sesame", &salt).unwrap();
    assert_eq!(key2.key(), key.key());
    assert_eq!(key2.decrypt(&ciphertext, &nonce).unwrap(), plaintext);

    // A different salt derives a different key, which must not open it.
    let other_salt = generate_salt();
    assert_ne!(other_salt, salt);
    let key3 = MasterKey::from_password("open sesame", &other_salt).unwrap();
    assert!(key3.decrypt(&ciphertext, &nonce).is_err());

    // A flipped bit must not open either.
    let mut tampered = ciphertext.clone();
    tampered[0] ^= 1;
    assert!(key.decrypt(&tampered, &nonce).is_err());
}

#[test]
fn fresh_nonce_on_every_encryption() {
    let salt = generate_salt();
    let key = MasterKey::from_password("pw", &salt).unwrap();
    let plaintext: Vec<u8> = b"same message".to_vec();
    let (n1, c1) = key.encrypt(&plaintext);
    let (n2, c2) = key.encrypt(&plaintext);
    assert_ne!(n1, n2);
    assert_ne!(c1, c2);
}

#[test]
fn wiped_key_is_zeroed() {
    let salt = generate_salt();
    let mut key = MasterKey::from_password("pw", &salt).unwrap();
    assert!(key.key().iter().any(|b| *b != 0));
    key.wipe();
    assert!(key.key().iter().all(|b| *b == 0));
}
