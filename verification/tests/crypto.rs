use ble_readout::crypto::{decrypt, pad};

#[test]
fn test_pkcs7_pad() {
    // A block-aligned input gains a full extra block of padding.
    let mut aligned = vec![4u8; 16];
    aligned.extend_from_slice(&[16u8; 16]);
    assert_eq!(pad(&[4; 16], 16), aligned);

    assert_eq!(
        pad(&[1, 2], 16),
        [1, 2, 14, 14, 14, 14, 14, 14, 14, 14, 14, 14, 14, 14, 14, 14]
    );

    assert_eq!(
        pad(&[3; 26], 16),
        [
            3, 3, 3, 3, 3, 3, 3, 3, 3, 3, 3, 3, 3, 3, 3, 3, 3, 3, 3, 3, 3, 3, 3, 3, 3, 3, 6, 6,
            6, 6, 6, 6
        ]
    );
}

#[test]
fn test_decrypt() {
    let decrypted = decrypt(
        &[79, 15, 41, 105, 167, 115, 2, 192, 164, 234, 145, 43, 195, 107, 71, 217],
        [0, 1, 2, 3, 4, 5, 6, 7, 8, 9, 0xA, 0xB, 0xC, 0xD, 0xE, 0xF],
        0x1234,
    )
    .unwrap();

    // The block-aligned ciphertext is padded with a full extra block before
    // the keystream is applied, so two blocks come back: the plaintext and
    // the transformed padding block.
    assert_eq!(decrypted.len(), 32);
    assert_eq!(
        &decrypted[..16],
        &[102, 111, 111, 98, 97, 114, 10, 10, 10, 10, 10, 10, 10, 10, 10, 10]
    );
    assert_eq!(
        &decrypted[16..],
        &[11, 53, 54, 15, 17, 21, 168, 12, 75, 200, 251, 200, 30, 13, 146, 108]
    );
}

#[test]
fn test_round_trip() {
    // Applying the counter-mode transform twice with the same key and iv
    // returns the padded original: the keystream cancels under XOR.
    let plaintext: [u8; 7] = [102, 111, 111, 98, 97, 114, 10];
    let key: [u8; 16] = [
        0x64, 0xba, 0x49, 0xf1, 0xa8, 0x56, 0x2e, 0x45, 0x19, 0x7a, 0x8e, 0x1f, 0xe5, 0x0d, 0x76,
        0x58,
    ];
    let iv: u16 = 7442;

    let encrypted = decrypt(&plaintext, key, iv).unwrap();
    assert_eq!(encrypted.len(), 16);
    assert_ne!(&encrypted[..7], &plaintext);

    let round_tripped = decrypt(&encrypted, key, iv).unwrap();
    assert_eq!(round_tripped.len(), 32);
    assert_eq!(&round_tripped[..16], &pad(&plaintext, 16)[..]);
    assert_eq!(
        &round_tripped[..16],
        &[102, 111, 111, 98, 97, 114, 10, 9, 9, 9, 9, 9, 9, 9, 9, 9]
    );
}
