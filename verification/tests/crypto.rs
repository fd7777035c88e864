use aes::cipher::generic_array::GenericArray;
use aes::cipher::{BlockEncrypt, KeyInit};
use aes::Aes128;
use megadown::bytes::{bytes_between, bytes_to_word, long_to_bytes, word_to_bytes, xor_block};
use megadown::chunks::mega_mac_chunks;
use megadown::crypto::{
    aes_cbc_decrypt_zero_iv, cbc_mac, cbc_mac_block, constant_time_eq, decrypt_range, hmac_sha256,
    hmac_sha512, mac_iv, pbkdf2_hmac_sha512, FileCrypto, MacCheck,
};
use megadown::error::DownloadError;
use megadown::integrity::IntegrityCheck;

const KEY: [u8; 16] = [
    0x2b, 0x7e, 0x15, 0x16, 0x28, 0xae, 0xd2, 0xa6, 0xab, 0xf7, 0x15, 0x88, 0x09, 0xcf, 0x4f, 0x3c,
];

fn hex(bytes: &[u8]) -> String {
    bytes.iter().map(|byte| format!("{byte:02x}")).collect()
}

fn encrypt(block: &[u8; 16]) -> [u8; 16] {
    let mut out = GenericArray::clone_from_slice(block);
    Aes128::new(GenericArray::from_slice(&KEY)).encrypt_block(&mut out);
    let mut bytes = [0u8; 16];
    bytes.copy_from_slice(&out);
    bytes
}

fn crypto() -> FileCrypto {
    FileCrypto { aes_key: KEY, iv_words: [0x01020304, 0xfffffffe], meta_mac: [0, 0] }
}

fn condensed(mac: &[u8; 16]) -> [u32; 2] {
    let word = |at: usize| u32::from_be_bytes([mac[at], mac[at + 1], mac[at + 2], mac[at + 3]]);
    [word(0) ^ word(4), word(8) ^ word(12)]
}

fn authenticated(file: &[u8]) -> FileCrypto {
    let mut crypto = crypto();
    let mut global = [0u8; 16];
    for (start, size) in mega_mac_chunks(file.len() as u64) {
        let piece = &file[start as usize..(start + size) as usize];
        let mac = cbc_mac(piece, &KEY, &mac_iv(&crypto));
        global = cbc_mac_block(&mac, &KEY, &global);
    }
    crypto.meta_mac = condensed(&global);
    crypto
}

fn verdict(file: &[u8], crypto: &FileCrypto) -> Result<(), DownloadError> {
    let mut check = IntegrityCheck::new(file.len() as u64, crypto);
    let mut at = 0usize;
    while let Some(size) = check.next_size() {
        check.absorb(&file[at..at + size as usize]);
        at += size as usize;
    }
    assert_eq!(at, file.len());
    check.finish()
}

#[test]
fn hmac_sha256_matches_a_known_value() {
    assert_eq!(
        hex(&hmac_sha256(b"Jefe", b"what do ya want for nothing?")),
        "5bdcc146bf60754e6a042426089575c75a003f089d2739839dec58b964ec3843"
    );
    assert_eq!(
        hex(&hmac_sha256(
            &[0xaa; 131],
            b"Test Using Larger Than Block-Size Key - Hash Key First"
        )),
        "60e431591ee0b67f0d8a26aacbf5b77f8e0bc6213728c5140546040f0ee37f54"
    );
}

#[test]
fn hmac_sha512_matches_a_known_value() {
    assert_eq!(
        hex(&hmac_sha512(b"Jefe", b"what do ya want for nothing?")),
        "164b7a7bfcf819e2e395fbe73b56e0a387bd64222e831fd610270cd7ea2505549758bf75c05a994a6d034f65f8f0e6fdcaeab1a34d4a6b4b636e070a38bce737"
    );
}

#[test]
fn pbkdf2_matches_known_values() {
    assert_eq!(
        hex(&pbkdf2_hmac_sha512(b"password", b"salt", 1, 64)),
        "867f70cf1ade02cff3752599a3a53dc4af34c7a669815ae5d513554e1c8cf252c02d470a285a0501bad999bfe943c08f050235d7d68b1da55e63f73b60a57fce"
    );
    assert_eq!(
        hex(&pbkdf2_hmac_sha512(b"password", b"salt", 2, 64)),
        "e1d9c16aa681708a45f5c7c4e215ceb66e011a2e9f0040713f18aefdb866d53cf76cab2868a39b9f7840edce4fef5a82be67335c77a6068e04112754f27ccf4e"
    );
    let long = pbkdf2_hmac_sha512(b"password", b"salt", 1, 70);
    assert_eq!(long.len(), 70);
    assert_eq!(&long[..64], &pbkdf2_hmac_sha512(b"password", b"salt", 1, 64)[..]);
}

#[test]
fn constant_time_eq_compares_everything() {
    assert!(constant_time_eq(b"", b""));
    assert!(constant_time_eq(b"abc", b"abc"));
    assert!(!constant_time_eq(b"abc", b"abd"));
    assert!(!constant_time_eq(b"abc", b"ab"));
}

#[test]
fn decryption_is_the_cipher_in_counter_mode() {
    let crypto = crypto();
    let mut data = vec![0u8; 40];
    decrypt_range(&mut data, &crypto, 32);
    let mut counter = [0u8; 16];
    counter[..4].copy_from_slice(&crypto.iv_words[0].to_be_bytes());
    counter[4..8].copy_from_slice(&crypto.iv_words[1].to_be_bytes());
    counter[15] = 2;
    assert_eq!(&data[..16], &encrypt(&counter)[..]);
    counter[15] = 3;
    assert_eq!(&data[16..32], &encrypt(&counter)[..]);
    counter[15] = 4;
    assert_eq!(&data[32..], &encrypt(&counter)[..8]);
}

#[test]
fn decrypting_twice_gives_the_file_back() {
    let file: Vec<u8> = (0..1000u32).map(|i| (i * 7) as u8).collect();
    let mut data = file.clone();
    decrypt_range(&mut data, &crypto(), 48);
    assert_ne!(data, file);
    decrypt_range(&mut data, &crypto(), 48);
    assert_eq!(data, file);
}

#[test]
fn a_file_can_be_decrypted_piece_by_piece() {
    let file: Vec<u8> = (0..1000u32).map(|i| (i * 11) as u8).collect();
    let mut whole = file.clone();
    decrypt_range(&mut whole, &crypto(), 0);
    let mut pieces = Vec::new();
    for start in (0..file.len()).step_by(64) {
        let end = (start + 64).min(file.len());
        let mut piece = file[start..end].to_vec();
        decrypt_range(&mut piece, &crypto(), start as u64);
        pieces.extend(piece);
    }
    assert_eq!(pieces, whole);
}

#[test]
fn cbc_mac_chains_zero_filled_blocks() {
    let mut block = [0u8; 16];
    block[..3].copy_from_slice(b"abc");
    let iv = [9u8; 16];
    assert_eq!(cbc_mac(b"abc", &KEY, &iv), encrypt(&xor_block(&block, &iv)));
    assert_eq!(cbc_mac(b"", &KEY, &iv), iv);
    assert_eq!(cbc_mac_block(&block, &KEY, &iv), encrypt(&xor_block(&block, &iv)));
}

#[test]
fn mac_iv_repeats_the_nonce() {
    assert_eq!(hex(&mac_iv(&crypto())), "01020304fffffffe01020304fffffffe");
}

#[test]
fn cbc_decryption_undoes_encryption() {
    let first = *b"0123456789abcdef";
    let second = *b"ghijklmnopqrstuv";
    let one = encrypt(&first);
    let two = encrypt(&xor_block(&second, &one));
    let mut data = one.to_vec();
    data.extend_from_slice(&two);
    assert_eq!(aes_cbc_decrypt_zero_iv(&data, &KEY).expect("aligned"), b"0123456789abcdefghijklmnopqrstuv");
}

#[test]
fn authentic_file_is_accepted() {
    let file: Vec<u8> = (0..700_000u32).map(|i| (i % 251) as u8).collect();
    let crypto = authenticated(&file);
    assert!(verdict(&file, &crypto).is_ok());
}

#[test]
fn changed_file_is_refused() {
    let mut file: Vec<u8> = (0..300_000u32).map(|i| (i % 251) as u8).collect();
    let crypto = authenticated(&file);
    file[299_999] ^= 1;
    assert!(matches!(verdict(&file, &crypto), Err(DownloadError::MacMismatch)));
}

#[test]
fn empty_file_is_always_authentic() {
    let mut crypto = crypto();
    crypto.meta_mac = [1, 2];
    assert!(verdict(&[], &crypto).is_ok());
    assert!(MacCheck::new(&crypto).finish(0, &crypto).is_ok());
    assert!(matches!(
        MacCheck::new(&crypto).finish(1, &crypto),
        Err(DownloadError::MacMismatch)
    ));
}

#[test]
fn numbers_and_bytes_read_back() {
    assert_eq!(word_to_bytes(0x01020304), [1, 2, 3, 4]);
    assert_eq!(long_to_bytes(0x0102030405060708), [1, 2, 3, 4, 5, 6, 7, 8]);
    assert_eq!(bytes_to_word(&[0, 1, 2, 3, 4], 1), 0x01020304);
    assert_eq!(bytes_between(&[1, 2, 3, 4], 1, 3), vec![2, 3]);
}

#[test]
fn stretches_decrypt_by_pieces_at_any_offset() {
    let data: Vec<u8> = (0..100).collect();
    for offset in [0, 16, 37, 4_096] {
        let mut whole = data.clone();
        decrypt_range(&mut whole, &crypto(), offset);
        let mut piece = data[48..90].to_vec();
        decrypt_range(&mut piece, &crypto(), offset + 48);
        assert_eq!(piece, whole[48..90]);
    }
}
