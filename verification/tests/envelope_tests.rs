use aes::Aes256;
use block_modes::block_padding::Pkcs7;
use block_modes::{BlockMode, Cbc};
use light_writer::envelope::{deobfuscate, obfuscate, seal, unseal, EnvelopeError};

const KEY: &[u8; 32] = b"0123456789abcdef0123456789abcdef";

#[test]
fn seal_then_unseal_round_trips() {
    let plain = b"{\"title\":\"A Book\",\"total_chapters\":2}".to_vec();
    let sealed = seal(KEY, &plain);
    let opened = unseal(KEY, &sealed).expect("round trip must succeed");
    assert_eq!(opened, plain);
}

#[test]
fn sealed_envelope_is_iv_hex_colon_ciphertext_hex() {
    let plain = b"payload bytes".to_vec();
    let sealed = seal(KEY, &plain);
    let parts: Vec<&str> = sealed.split(':').collect();
    assert_eq!(parts.len(), 2);
    assert_eq!(parts[0].len(), 32);
    assert!(parts[0].chars().all(|c| c.is_ascii_hexdigit() && !c.is_ascii_uppercase()));
    assert!(parts[1].chars().all(|c| c.is_ascii_hexdigit() && !c.is_ascii_uppercase()));
    // The ciphertext is not the hex of the plaintext itself.
    assert_ne!(parts[1], hex::encode(&plain));
    // PKCS#7 fills the next whole block: one block for the 13-byte payload.
    assert_eq!(parts[1].len(), 32 * (plain.len() / 16 + 1));
}

#[test]
fn ciphertext_length_is_one_block_per_sixteen_bytes_begun() {
    // 16 plaintext bytes pad to two blocks, the empty plaintext to one.
    let sealed = seal(KEY, b"exactly 16 bytes");
    assert_eq!(sealed.len(), 33 + 64);
    let sealed_empty = seal(KEY, b"");
    assert_eq!(sealed_empty.len(), 33 + 32);
    assert_eq!(unseal(KEY, &sealed_empty), Ok(Vec::new()));
}

#[test]
fn tampering_any_ciphertext_digit_never_returns_the_plaintext() {
    let plain = b"sixteen byte msg".to_vec();
    let sealed = seal(KEY, &plain);
    let colon = sealed.find(':').unwrap();
    let bytes: Vec<char> = sealed.chars().collect();
    for pos in colon + 1..bytes.len() {
        let mut tampered: Vec<char> = bytes.clone();
        tampered[pos] = if tampered[pos] == '0' { '1' } else { '0' };
        let tampered: String = tampered.into_iter().collect();
        if tampered == sealed {
            continue;
        }
        match unseal(KEY, &tampered) {
            Ok(other) => assert_ne!(other, plain),
            Err(e) => assert!(matches!(e, EnvelopeError::Crypto | EnvelopeError::Decode)),
        }
    }
}

#[test]
fn unseal_rejects_missing_or_extra_colons() {
    assert_eq!(unseal(KEY, "deadbeef"), Err(EnvelopeError::Format));
    assert_eq!(unseal(KEY, "aa:bb:cc"), Err(EnvelopeError::Format));
    assert_eq!(unseal(KEY, ""), Err(EnvelopeError::Format));
}

#[test]
fn unseal_rejects_bad_hex() {
    assert_eq!(unseal(KEY, "zz:aabb"), Err(EnvelopeError::Decode));
    assert_eq!(unseal(KEY, "abc:00"), Err(EnvelopeError::Decode));
    assert_eq!(unseal(KEY, "00112233445566778899aabbccddeeff:0g"), Err(EnvelopeError::Decode));
}

#[test]
fn unseal_rejects_wrong_iv_or_block_length() {
    // Well-formed hex, but the IV is 2 bytes instead of 16.
    assert_eq!(
        unseal(KEY, "aabb:00112233445566778899aabbccddeeff"),
        Err(EnvelopeError::Crypto)
    );
    // A 16-byte IV, but the ciphertext is not a multiple of the block size.
    assert_eq!(
        unseal(KEY, "00112233445566778899aabbccddeeff:aabb"),
        Err(EnvelopeError::Crypto)
    );
}

#[test]
fn unseal_opens_an_envelope_built_directly_with_the_cipher() {
    let plain = b"independent check".to_vec();
    let iv = [7u8; 16];
    let cipher = Cbc::<Aes256, Pkcs7>::new_from_slices(KEY, &iv).unwrap();
    let ct = cipher.encrypt_vec(&plain);
    let envelope = format!("{}:{}", hex::encode(iv), hex::encode(&ct));
    let opened = unseal(KEY, &envelope).expect("externally built envelope must open");
    assert_eq!(opened, plain);
}

#[test]
fn unseal_with_wrong_key_does_not_return_the_plaintext() {
    let plain = b"a secret record body".to_vec();
    let sealed = seal(KEY, &plain);
    let other_key = [9u8; 32];
    match unseal(&other_key, &sealed) {
        Ok(other) => assert_ne!(other, plain),
        Err(e) => assert_eq!(e, EnvelopeError::Crypto),
    }
}

#[test]
fn obfuscate_with_zero_key_is_plain_hex() {
    // XOR with 0x00 leaves the bytes unchanged, so the output is exactly the
    // lowercase hex of the input.
    let out = obfuscate(&[0u8], &[0x00, 0xff, 0x10]);
    assert_eq!(out, "00ff10");
}

#[test]
fn obfuscate_applies_the_repeating_key() {
    let out = obfuscate(&[0xffu8], &[0x00, 0x0f]);
    assert_eq!(out, "fff0");
    let out2 = obfuscate(&[0x01u8, 0x02], &[0x01, 0x02, 0x01]);
    assert_eq!(out2, "000000");
}

#[test]
fn deobfuscate_inverts_obfuscate() {
    let key = b"short key";
    let data = b"the quick brown fox. jumps over".to_vec();
    let out = obfuscate(key, &data);
    let back = deobfuscate(key, &out).expect("hex produced by obfuscate must decode");
    assert_eq!(back, data);
}

#[test]
fn deobfuscate_rejects_bad_hex() {
    assert_eq!(deobfuscate(b"k", "xyz"), Err(EnvelopeError::Decode));
    assert_eq!(deobfuscate(b"k", "abc"), Err(EnvelopeError::Decode));
}
