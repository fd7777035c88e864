use aes::cipher::generic_array::GenericArray;
use aes::cipher::{BlockEncrypt, KeyInit};
use aes::Aes128;
use megadown::error::DownloadError;
use megadown::keys::{
    attribute_json_of, decode_base64_url, decode_key_words, decrypt_key_words, decrypt_node_name,
    derive_file_attr_key_words, derive_file_crypto, encode_base64_url, extract_node_key,
    first_four_words, name_from_field, words_from_bytes, words_to_16_bytes,
};

const KEY: [u8; 16] = [7; 16];

fn encrypt(block: &[u8]) -> Vec<u8> {
    let mut out = GenericArray::clone_from_slice(block);
    Aes128::new(GenericArray::from_slice(&KEY)).encrypt_block(&mut out);
    out.to_vec()
}

fn attributes(plain: &[u8]) -> String {
    let mut padded = plain.to_vec();
    while padded.len() % 16 != 0 {
        padded.push(0);
    }
    let mut previous = vec![0u8; 16];
    let mut data = Vec::new();
    for block in padded.chunks(16) {
        let mixed: Vec<u8> = block.iter().zip(&previous).map(|(a, b)| a ^ b).collect();
        previous = encrypt(&mixed);
        data.extend_from_slice(&previous);
    }
    encode_base64_url(&data)
}

fn name_error(value: &str) -> DownloadError {
    decrypt_node_name(value, &KEY).expect_err("refused")
}

#[test]
fn base64_text_reads_back() {
    assert_eq!(encode_base64_url(&[0xfb, 0xff]), "-_8");
    for len in 0..20u8 {
        let bytes: Vec<u8> = (0..len).map(|i| i * 13).collect();
        assert_eq!(decode_base64_url(&encode_base64_url(&bytes)).expect("decodes"), bytes);
    }
}

#[test]
fn base64_is_decoded_leniently() {
    assert_eq!(decode_base64_url("  -_8, ").expect("decodes"), vec![0xfb, 0xff]);
    assert_eq!(decode_base64_url("-_8=").expect("decodes"), vec![0xfb, 0xff]);
    let error = decode_base64_url("-_8!").expect_err("refused");
    assert!(matches!(error, DownloadError::Base64(_)));
    assert!(error.message().starts_with("base64 decode error: "));
}

#[test]
fn keys_are_read_as_words() {
    assert_eq!(decode_key_words("AQIDBAUGBwg").expect("words"), vec![0x01020304, 0x05060708]);
    assert_eq!(
        decode_key_words("AQIDBAU").expect_err("refused").message(),
        "decoded MEGA key is not word-aligned"
    );
    assert_eq!(words_from_bytes(&[]).expect("words"), Vec::<u32>::new());
    assert_eq!(words_to_16_bytes(&[1, 2, 3, 0x0a0b0c0d]).expect("bytes")[12..], [10, 11, 12, 13]);
    assert_eq!(
        words_to_16_bytes(&[1, 2, 3]).expect_err("refused").message(),
        "expected exactly four 32-bit words"
    );
}

#[test]
fn file_keys_are_folded() {
    let words = [1, 2, 3, 4, 0x10, 0x20, 0x30, 0x40];
    assert_eq!(derive_file_attr_key_words(&words).expect("a key"), vec![0x11, 0x22, 0x33, 0x44]);
    let crypto = derive_file_crypto(&words).expect("a key");
    assert_eq!(crypto.aes_key[3], 0x11);
    assert_eq!(crypto.iv_words, [0x10, 0x20]);
    assert_eq!(crypto.meta_mac, [0x30, 0x40]);
    let short = "file key is shorter than expected";
    assert_eq!(derive_file_crypto(&words[..7]).expect_err("refused").message(), short);
    assert_eq!(derive_file_attr_key_words(&words[..7]).expect_err("refused").message(), short);
    assert_eq!(first_four_words(&words).expect("a key"), vec![1, 2, 3, 4]);
    assert_eq!(
        first_four_words(&words[..3]).expect_err("refused").message(),
        "folder key is shorter than expected"
    );
}

#[test]
fn encrypted_keys_are_decrypted_block_by_block() {
    let plain: Vec<u32> = (1..9).collect();
    let mut words = Vec::new();
    for half in plain.chunks(4) {
        let bytes: Vec<u8> = half.iter().flat_map(|word: &u32| word.to_be_bytes()).collect();
        for word in encrypt(&bytes).chunks(4) {
            words.push(u32::from_be_bytes([word[0], word[1], word[2], word[3]]));
        }
    }
    assert_eq!(decrypt_key_words(&words, &KEY).expect("aligned"), plain);
    assert_eq!(
        decrypt_key_words(&words[..5], &KEY).expect_err("refused").message(),
        "encrypted key is not AES block-aligned"
    );
}

#[test]
fn node_names_are_decrypted() {
    let value = attributes("MEGA{\"n\":\"名字.txt\",\"c\":\"x\"}".as_bytes());
    assert_eq!(decrypt_node_name(&value, &KEY).expect("a name"), "名字.txt");
}

#[test]
fn bad_attributes_are_refused() {
    assert_eq!(
        name_error("AAAA").message(),
        "encrypted attributes are not AES block-aligned"
    );
    assert_eq!(
        name_error(&attributes(b"NOPE{\"n\":\"x\"}")).message(),
        "MEGA attributes failed to decrypt"
    );
    assert_eq!(
        name_error(&attributes(b"MEGA{\"m\":\"x\"}")).message(),
        "MEGA attributes do not contain a name"
    );
    assert_eq!(
        name_error(&attributes(b"MEGA{\"n\":7}")).message(),
        "MEGA attributes do not contain a name"
    );
    let error = name_error(&attributes(b"MEGA{\"n\":"));
    assert!(matches!(error, DownloadError::Json(_)));
    assert!(error.message().starts_with("json error: "));
}

#[test]
fn attribute_text_follows_the_mark() {
    assert_eq!(attribute_json_of(b"MEGA{}\0\0".to_vec()).expect("marked"), b"{}");
    assert_eq!(attribute_json_of(b"MEGA".to_vec()).expect("marked"), b"");
    assert!(attribute_json_of(b"MEG".to_vec()).is_err());
    assert_eq!(name_from_field(Ok(Some("x".to_string()))).ok(), Some("x".to_string()));
    assert!(matches!(name_from_field(Err("why".to_string())), Err(DownloadError::Json(_))));
    assert!(name_from_field(Ok(None)).is_err());
}

#[test]
fn the_last_key_of_a_node_counts() {
    assert_eq!(extract_node_key("owner:key").as_deref(), Some("key"));
    assert_eq!(extract_node_key("a:one/b:two").as_deref(), Some("two"));
    assert_eq!(extract_node_key("a:one/b").as_deref(), Some("one"));
    assert_eq!(extract_node_key("a:b:c").as_deref(), Some("b:c"));
    assert_eq!(extract_node_key("bare").as_deref(), Some("bare"));
    assert_eq!(extract_node_key(""), None);
}

#[test]
fn errors_tell_what_happened() {
    let texts = [
        (DownloadError::Message("m".to_string()), "m"),
        (DownloadError::Network("n".to_string()), "network error: n"),
        (DownloadError::Io("i".to_string()), "io error: i"),
        (DownloadError::Json("j".to_string()), "json error: j"),
        (DownloadError::Url("u".to_string()), "invalid url: u"),
        (DownloadError::Base64("b".to_string()), "base64 decode error: b"),
        (DownloadError::Cancelled, "download cancelled"),
        (
            DownloadError::PasswordRequired,
            "password-protected MEGA link requires a password",
        ),
        (DownloadError::MegaApi(-9), "MEGA API returned -9"),
        (DownloadError::HttpStatus(509), "HTTP status 509 while downloading"),
        (
            DownloadError::ChunkLength { start: 16, expected: 20, actual: 3 },
            "downloaded chunk length mismatch at byte 16: expected 20, got 3",
        ),
        (DownloadError::MacMismatch, "download integrity check failed"),
    ];
    for (error, text) in texts {
        assert_eq!(error.message(), text);
    }
}

#[test]
fn every_six_bits_have_their_character() {
    let mut bytes: Vec<u8> = Vec::new();
    for n in 0..16_u8 {
        let (a, b, c, d) = (4 * n, 4 * n + 1, 4 * n + 2, 4 * n + 3);
        bytes.push((a << 2) | (b >> 4));
        bytes.push((b << 4) | (c >> 2));
        bytes.push((c << 6) | d);
    }
    assert_eq!(
        encode_base64_url(&bytes),
        "ABCDEFGHIJKLMNOPQRSTUVWXYZabcdefghijklmnopqrstuvwxyz0123456789-_"
    );
    assert_eq!(encode_base64_url(&[0xff]), "_w");
    assert_eq!(encode_base64_url(&[]), "");
}
