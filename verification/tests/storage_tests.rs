use walletui::crypto::{constant_time_eq, xor_stream};
use walletui::storage::{
    decode_entries, decrypt_entries, encode_entries, encrypt_entries, finish_random_bytes, mac_data,
    read_string, read_u32, write_string, PasswordEntry, VaultError,
};

fn sample() -> Vec<PasswordEntry> {
    vec![PasswordEntry {
        category: "work".into(),
        title: "GitHub".into(),
        username: "alice".into(),
        password: "secret".into(),
        notes: "2fa enabled".into(),
    }]
}

#[test]
fn entries_round_trip_through_encrypted_vault() {
    let entries = vec![PasswordEntry {
        category: "work".into(),
        title: "GitHub".into(),
        username: "alice".into(),
        password: "secret".into(),
        notes: "2fa enabled".into(),
    }];

    let salt = [7u8; 16];
    let nonce = [9u8; 16];
    let encrypted = encrypt_entries(&entries, "master", &salt, &nonce).unwrap();
    assert!(!String::from_utf8_lossy(&encrypted).contains("secret"));
    assert_eq!(decrypt_entries(&encrypted, "master").unwrap(), entries);
    assert!(decrypt_entries(&encrypted, "wrong").is_err());
}

#[test]
fn vault_layout_and_errors() {
    let encrypted = encrypt_entries(&sample(), "k", &[1u8; 16], &[2u8; 16]).unwrap();
    assert_eq!(&encrypted[..9], b"WALLETUI1");
    assert_eq!(&encrypted[9..13], &120_000u32.to_le_bytes());
    assert_eq!(&encrypted[13..29], &[1u8; 16]);
    assert_eq!(&encrypted[29..45], &[2u8; 16]);
    assert_eq!(encrypted.len(), 77 + encode_entries(&sample()).len());
    assert_eq!(decrypt_entries(&encrypted, "x"), Err(VaultError::WrongKeyOrCorrupted));
    assert_eq!(decrypt_entries(&encrypted[..50], "k"), Err(VaultError::BadFormat));
    let mut bad = encrypted.clone();
    bad[0] = b'X';
    assert_eq!(decrypt_entries(&bad, "k"), Err(VaultError::BadFormat));
    let mut flipped = encrypted.clone();
    flipped[50] ^= 1;
    assert_eq!(decrypt_entries(&flipped, "k"), Err(VaultError::WrongKeyOrCorrupted));
}

#[test]
fn plaintext_codec_round_trips() {
    let entries = vec![
        PasswordEntry {
            category: "默认".into(),
            title: "邮箱".into(),
            username: "u".into(),
            password: "p,w\"".into(),
            notes: String::new(),
        },
        PasswordEntry::default(),
    ];
    let bytes = encode_entries(&entries);
    assert_eq!(&bytes[..4], &[2, 0, 0, 0]);
    assert_eq!(decode_entries(&bytes).unwrap(), entries);
    assert_eq!(decode_entries(&[]), Err(VaultError::Truncated));
    assert_eq!(decode_entries(&bytes[..bytes.len() - 1]), Err(VaultError::Truncated));
    assert_eq!(decode_entries(&[0, 0, 0, 0]).unwrap(), Vec::<PasswordEntry>::new());
    assert_eq!(decode_entries(&[1, 0, 0, 0, 1, 0, 0, 0, 0xff]), Err(VaultError::InvalidUtf8));
}

#[test]
fn string_and_number_fields() {
    let mut bytes = Vec::new();
    write_string(&mut bytes, "hé");
    assert_eq!(bytes, vec![3, 0, 0, 0, b'h', 0xc3, 0xa9]);
    let mut cursor = 0;
    assert_eq!(read_string(&bytes, &mut cursor).unwrap(), "hé");
    assert_eq!(cursor, 7);
    let mut cursor = 5;
    assert_eq!(read_u32(&bytes, &mut cursor), Err(VaultError::Truncated));
    assert_eq!(cursor, 5);
    let mut cursor = 0;
    assert_eq!(read_u32(&[0x78, 0x56, 0x34, 0x12], &mut cursor), Ok(0x1234_5678));
    assert_eq!(cursor, 4);
}

#[test]
fn key_stream_is_its_own_inverse() {
    let key = [3u8; 32];
    let nonce = [4u8; 16];
    let data: Vec<u8> = (0..100u8).collect();
    let once = xor_stream(&key, &nonce, &data);
    assert_ne!(once, data);
    assert_eq!(xor_stream(&key, &nonce, &once), data);
    assert_ne!(xor_stream(&key, &[5u8; 16], &data), once);
}

#[test]
fn small_helpers() {
    assert!(constant_time_eq(b"abc", b"abc"));
    assert!(!constant_time_eq(b"abc", b"abd"));
    assert!(!constant_time_eq(b"abc", b"ab"));
    assert_eq!(mac_data(&[1], &[2, 3], &[4]), vec![1, 2, 3, 4]);
    let e = PasswordEntry {
        category: " a ".into(),
        title: "\tb".into(),
        username: "c\n".into(),
        password: " d ".into(),
        notes: "  ".into(),
    };
    let t = e.trimmed();
    assert_eq!(t.category, "a");
    assert_eq!(t.title, "b");
    assert_eq!(t.username, "c");
    assert_eq!(t.password, " d ");
    assert_eq!(t.notes, "");
    assert_eq!(e.duplicate(), e);
}

#[test]
fn random_fallback() {
    assert_eq!(finish_random_bytes(&[1, 2], true, 5), vec![1, 2]);
    assert_eq!(finish_random_bytes(&[0, 2], false, 5), vec![0, 2]);
    let mut state: u64 = 42;
    let mut expected = Vec::new();
    for _ in 0..3 {
        state ^= state << 13;
        state ^= state >> 7;
        state ^= state << 17;
        expected.push((state & 0xff) as u8);
    }
    assert_eq!(finish_random_bytes(&[0, 0, 0], false, 42), expected);
}
