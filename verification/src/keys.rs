//! Keys and names as they stand in links and in the service's replies.
use crate::bytes::{
    be_bytes, be_bytes_read_back, be_value, be_value_writes_back, bytes_between, bytes_to_word,
    word_to_bytes,
};
use crate::crypto::{
    aes128_decrypted, aes_cbc_decrypt_zero_iv, cbc_decrypted, decrypt_block, FileCrypto,
};
use crate::error::{failure, DownloadError, ErrorView};
use crate::text::{
    chars_of, is_unbroken, remove_char, split, split_text, splitting_undoes_joining, string_from,
    trim, trim_text, unbroken_text_is_one_piece, views, CharClass,
};
use base64::engine::general_purpose::{URL_SAFE, URL_SAFE_NO_PAD};
use base64::Engine;
use vstd::arithmetic::power::pow;
use vstd::prelude::*;

verus! {

/// The character that stands for a number below 64 in URL-safe base64.
pub open spec fn base64url_digit(n: int) -> char {
    if n < 26 {
        (65 + n) as u8 as char
    } else if n < 52 {
        (97 + n - 26) as u8 as char
    } else if n < 62 {
        (48 + n - 52) as u8 as char
    } else if n == 62 {
        '-'
    } else {
        '_'
    }
}

/// The number that bits `6 * i` to `6 * i + 5` of `bytes` make, with zeros behind the last byte.
pub open spec fn six_bits(bytes: Seq<u8>, i: int) -> int {
    let at = 6 * i / 8;
    let next = if at + 1 < bytes.len() {
        bytes[at + 1] as int
    } else {
        0
    };
    let unit = if i % 4 == 0 {
        1024int
    } else if i % 4 == 1 {
        16
    } else if i % 4 == 2 {
        64
    } else {
        256
    };
    (256 * bytes[at] + next) / unit % 64
}

/// The URL-safe base64 form of `bytes`, without padding: a character for every six bits.
pub open spec fn base64url_encoded(bytes: Seq<u8>) -> Seq<char> {
    Seq::new((8 * bytes.len() + 5) / 6, |i: int| base64url_digit(six_bits(bytes, i)))
}

/// The bytes that `text` stands for as URL-safe base64 without padding, if it is that.
pub uninterp spec fn base64url_decoded(text: Seq<char>) -> Option<Seq<u8>>;

/// The bytes that `text` stands for as URL-safe base64 with padding, or why it is not that.
pub uninterp spec fn base64url_padded_decoded(text: Seq<char>) -> Result<Seq<u8>, Seq<char>>;

/// What the text field `field` of a JSON object holds, `None` where the value is no object or has
/// no such text, or why `bytes` are no JSON.
pub uninterp spec fn json_text_field(
    bytes: Seq<u8>,
    field: Seq<char>,
) -> Result<Option<Seq<char>>, Seq<char>>;

/// A character of the URL-safe base64 alphabet.
pub open spec fn is_base64url(c: char) -> bool {
    ('A' <= c && c <= 'Z') || ('a' <= c && c <= 'z') || ('0' <= c && c <= '9') || c == '-' || c
        == '_'
}

/// Calls `Engine::encode` of base64's `URL_SAFE_NO_PAD`. The text holds a character of the engine's
/// alphabet for every six bits, those behind the last byte being zero, and decoding it with the
/// same engine gives the bytes back. It must fit into memory.
#[verifier::external_body]
fn base64_encode(bytes: &[u8]) -> (text: String)
    requires
        bytes@.len() / 3 * 4 + 4 <= isize::MAX,
    ensures
        text@ == base64url_encoded(bytes@),
        base64url_decoded(text@) == Some(bytes@),
{
    URL_SAFE_NO_PAD.encode(bytes)
}

/// Calls `Engine::decode` of base64's `URL_SAFE_NO_PAD`. The result is named by
/// `base64url_decoded`.
#[verifier::external_body]
fn base64_decode(text: &str) -> (bytes: Option<Vec<u8>>)
    ensures
        match bytes {
            Some(found) => base64url_decoded(text@) == Some(found@),
            None => base64url_decoded(text@) is None,
        },
{
    URL_SAFE_NO_PAD.decode(text.as_bytes()).ok()
}

/// Calls `Engine::decode` of base64's `URL_SAFE`. The result, with an error as the text that the
/// crate gives for it, is named by `base64url_padded_decoded`.
#[verifier::external_body]
fn base64_decode_padded(text: &str) -> (bytes: Result<Vec<u8>, String>)
    ensures
        match bytes {
            Ok(found) => base64url_padded_decoded(text@) == Ok::<Seq<u8>, Seq<char>>(found@),
            Err(cause) => base64url_padded_decoded(text@) == Err::<Seq<u8>, Seq<char>>(cause@),
        },
{
    URL_SAFE.decode(text.as_bytes()).map_err(|error| error.to_string())
}

/// Calls `serde_json::from_slice`, then `Value::get` and `Value::as_str` of the value that was
/// read. The result, with an error as the text that the crate gives for it, is named by
/// `json_text_field`.
#[verifier::external_body]
fn read_json_text(bytes: &[u8], field: &str) -> (text: Result<Option<String>, String>)
    ensures
        match text {
            Ok(Some(found)) => json_text_field(bytes@, field@) == Ok::<
                Option<Seq<char>>,
                Seq<char>,
            >(Some(found@)),
            Ok(None) => json_text_field(bytes@, field@) == Ok::<Option<Seq<char>>, Seq<char>>(None),
            Err(cause) => json_text_field(bytes@, field@) == Err::<Option<Seq<char>>, Seq<char>>(
                cause@,
            ),
        },
{
    let value: serde_json::Value = serde_json::from_slice(bytes).map_err(|error| error.to_string())?;
    Ok(value.get(field).and_then(|found| found.as_str()).map(|found| found.to_string()))
}

/// Base64 text as it is decoded: without white space around it and without commas.
pub open spec fn cleaned_base64(value: Seq<char>) -> Seq<char> {
    trim(value).filter(|c: char| c != ',')
}

/// The bytes that base64 text stands for, with or without padding.
pub open spec fn decoded(value: Seq<char>) -> Result<Seq<u8>, ErrorView> {
    match base64url_decoded(cleaned_base64(value)) {
        Some(bytes) => Ok(bytes),
        None => match base64url_padded_decoded(cleaned_base64(value)) {
            Ok(bytes) => Ok(bytes),
            Err(cause) => Err(ErrorView::Base64(cause)),
        },
    }
}

/// The bytes that base64 text stands for, with or without padding.
pub fn decode_base64_url(value: &str) -> (bytes: Result<Vec<u8>, DownloadError>)
    ensures
        match bytes {
            Ok(found) => decoded(value@) == Ok::<Seq<u8>, ErrorView>(found@),
            Err(error) => decoded(value@) == Err::<Seq<u8>, ErrorView>(error@),
        },
{
    let cleaned = remove_char(&trim_text(value), ',');
    match base64_decode(&cleaned) {
        Some(bytes) => Ok(bytes),
        None => match base64_decode_padded(&cleaned) {
            Ok(bytes) => Ok(bytes),
            Err(cause) => Err(DownloadError::Base64(cause)),
        },
    }
}

/// The URL-safe base64 form of `value`, without padding. Decoding it gives `value` back.
pub fn encode_base64_url(value: &[u8]) -> (text: String)
    requires
        value@.len() / 3 * 4 + 4 <= isize::MAX,
    ensures
        text@ == base64url_encoded(value@),
        decoded(text@) == Ok::<Seq<u8>, ErrorView>(value@),
{
    let text = base64_encode(value);
    proof {
        encoded_text_is_of_the_alphabet(value@);
        lemma_alphabet_is_clean(text@);
    }
    text
}

/// The base64 form of any bytes is made of the URL-safe alphabet.
pub proof fn encoded_text_is_of_the_alphabet(bytes: Seq<u8>)
    ensures
        forall|i: int|
            0 <= i < base64url_encoded(bytes).len() ==> is_base64url(
                #[trigger] base64url_encoded(bytes)[i],
            ),
{
    assert forall|i: int| 0 <= i < base64url_encoded(bytes).len() implies is_base64url(
        #[trigger] base64url_encoded(bytes)[i],
    ) by {
        let n = six_bits(bytes, i);
        assert(0 <= n < 64);
        assert(is_base64url(base64url_digit(n)));
    }
}

/// Text of the base64 alphabet is decoded as it stands.
proof fn lemma_alphabet_is_clean(text: Seq<char>)
    requires
        forall|i: int| 0 <= i < text.len() ==> is_base64url(#[trigger] text[i]),
    ensures
        cleaned_base64(text) == text,
{
    if text.len() > 0 {
        assert(is_base64url(text.first()) && is_base64url(text.last()));
    }
    crate::text::trimming_keeps_trimmed_text(text, CharClass::Whitespace);
    assert forall|i: int| 0 <= i < text.len() implies text[i] != ',' by {
        assert(is_base64url(text[i]));
    }
    lemma_filter_keeps_all(text);
}

proof fn lemma_filter_keeps_all(text: Seq<char>)
    requires
        forall|i: int| 0 <= i < text.len() ==> text[i] != ',',
    ensures
        text.filter(|c: char| c != ',') == text,
    decreases text.len(),
{
    reveal(Seq::filter);
    if text.len() > 0 {
        lemma_filter_keeps_all(text.drop_last());
        assert(text.drop_last().push(text.last()) == text);
    }
}

/// Bytes read as big-endian words.
pub open spec fn words_of(bytes: Seq<u8>) -> Seq<u32> {
    Seq::new(
        bytes.len() / 4,
        |i: int| be_value(bytes.subrange(4 * i, 4 * i + 4)) as u32,
    )
}

/// Words written as big-endian bytes.
pub open spec fn bytes_of(words: Seq<u32>) -> Seq<u8> {
    Seq::new(4 * words.len(), |j: int| be_bytes(words[j / 4] as nat, 4)[j % 4])
}

/// The words of a key, where its bytes fill words.
pub open spec fn words_or_error(bytes: Seq<u8>) -> Result<Seq<u32>, ErrorView> {
    if bytes.len() % 4 != 0 {
        Err(ErrorView::Message("decoded MEGA key is not word-aligned"@))
    } else {
        Ok(words_of(bytes))
    }
}

/// The words of a key in base64.
pub open spec fn key_words(value: Seq<char>) -> Result<Seq<u32>, ErrorView> {
    match decoded(value) {
        Ok(bytes) => words_or_error(bytes),
        Err(error) => Err(error),
    }
}

/// The words of a key, where its bytes fill words.
pub fn words_from_bytes(bytes: &[u8]) -> (words: Result<Vec<u32>, DownloadError>)
    ensures
        match words {
            Ok(found) => words_or_error(bytes@) == Ok::<Seq<u32>, ErrorView>(found@),
            Err(error) => words_or_error(bytes@) == Err::<Seq<u32>, ErrorView>(error@),
        },
{
    let total: usize = bytes.len();
    if total % 4 != 0 {
        return Err(failure("decoded MEGA key is not word-aligned"));
    }
    let mut words: Vec<u32> = Vec::new();
    let mut at: usize = 0;
    while at < total
        invariant
            at <= total == bytes@.len(),
            at % 4 == 0,
            total % 4 == 0,
            words@.len() == at / 4,
            forall|i: int| 0 <= i < words@.len() ==> words@[i] == #[trigger] words_of(bytes@)[i],
        decreases total - at,
    {
        let ghost i = at / 4;
        let word = bytes_to_word(bytes, at);
        assert(words_of(bytes@)[i as int] == word) by {
            assert(4 * i == at);
        }
        words.push(word);
        at = at + 4;
    }
    assert(words@ == words_of(bytes@));
    Ok(words)
}

/// The words of a key in base64.
pub fn decode_key_words(value: &str) -> (words: Result<Vec<u32>, DownloadError>)
    ensures
        match words {
            Ok(found) => key_words(value@) == Ok::<Seq<u32>, ErrorView>(found@),
            Err(error) => key_words(value@) == Err::<Seq<u32>, ErrorView>(error@),
        },
{
    match decode_base64_url(value) {
        Ok(bytes) => words_from_bytes(&bytes),
        Err(error) => Err(error),
    }
}

/// The 16 bytes of four words.
pub fn words_to_16_bytes(words: &[u32]) -> (bytes: Result<[u8; 16], DownloadError>)
    ensures
        match bytes {
            Ok(found) => words@.len() == 4 && found@ == bytes_of(words@),
            Err(error) => words@.len() != 4 && error@ == ErrorView::Message(
                "expected exactly four 32-bit words"@,
            ),
        },
{
    if words.len() != 4 {
        return Err(failure("expected exactly four 32-bit words"));
    }
    Ok(four_words(words, 0))
}

/// The 16 bytes of the four words from `at` on.
fn four_words(words: &[u32], at: usize) -> (bytes: [u8; 16])
    requires
        at + 4 <= words@.len(),
    ensures
        bytes@ == bytes_of(words@.subrange(at as int, at + 4)),
{
    let a = word_to_bytes(words[at]);
    let b = word_to_bytes(words[at + 1]);
    let c = word_to_bytes(words[at + 2]);
    let d = word_to_bytes(words[at + 3]);
    let bytes: [u8; 16] = [
        a[0],
        a[1],
        a[2],
        a[3],
        b[0],
        b[1],
        b[2],
        b[3],
        c[0],
        c[1],
        c[2],
        c[3],
        d[0],
        d[1],
        d[2],
        d[3],
    ];
    assert(bytes@ == bytes_of(words@.subrange(at as int, at + 4)));
    bytes
}

/// A file's key, taken apart.
pub open spec fn is_file_crypto(words: Seq<u32>, crypto: FileCrypto) -> bool {
    &&& crypto.aes_key@ == bytes_of(attr_key(words))
    &&& crypto.iv_words@ == words.subrange(4, 6)
    &&& crypto.meta_mac@ == words.subrange(6, 8)
}

/// The key of a file's attributes: its key folded in half.
pub open spec fn attr_key(words: Seq<u32>) -> Seq<u32> {
    Seq::new(4, |i: int| words[i] ^ words[i + 4])
}

/// A file's key, taken apart.
pub fn derive_file_crypto(words: &[u32]) -> (crypto: Result<FileCrypto, DownloadError>)
    ensures
        match crypto {
            Ok(found) => words@.len() >= 8 && is_file_crypto(words@, found),
            Err(error) => words@.len() < 8 && error@ == ErrorView::Message(
                "file key is shorter than expected"@,
            ),
        },
{
    if words.len() < 8 {
        return Err(failure("file key is shorter than expected"));
    }
    match derive_file_attr_key_words(words) {
        Ok(attr_words) => match words_to_16_bytes(&attr_words) {
            Ok(aes_key) => {
                let iv_words: [u32; 2] = [words[4], words[5]];
                let meta_mac: [u32; 2] = [words[6], words[7]];
                assert(iv_words@ == words@.subrange(4, 6));
                assert(meta_mac@ == words@.subrange(6, 8));
                Ok(FileCrypto { aes_key, iv_words, meta_mac })
            },
            Err(error) => Err(error),
        },
        Err(error) => Err(error),
    }
}

/// The key of a file's attributes: its key folded in half.
pub fn derive_file_attr_key_words(words: &[u32]) -> (key: Result<Vec<u32>, DownloadError>)
    ensures
        match key {
            Ok(found) => words@.len() >= 8 && found@ == attr_key(words@),
            Err(error) => words@.len() < 8 && error@ == ErrorView::Message(
                "file key is shorter than expected"@,
            ),
        },
{
    if words.len() < 8 {
        return Err(failure("file key is shorter than expected"));
    }
    let mut key: Vec<u32> = Vec::new();
    key.push(words[0] ^ words[4]);
    key.push(words[1] ^ words[5]);
    key.push(words[2] ^ words[6]);
    key.push(words[3] ^ words[7]);
    assert(key@ == attr_key(words@));
    Ok(key)
}

/// The key of a folder's attributes: the first four words of its key.
pub fn first_four_words(words: &[u32]) -> (key: Result<Vec<u32>, DownloadError>)
    ensures
        match key {
            Ok(found) => words@.len() >= 4 && found@ == words@.take(4),
            Err(error) => words@.len() < 4 && error@ == ErrorView::Message(
                "folder key is shorter than expected"@,
            ),
        },
{
    if words.len() < 4 {
        return Err(failure("folder key is shorter than expected"));
    }
    let mut key: Vec<u32> = Vec::new();
    key.push(words[0]);
    key.push(words[1]);
    key.push(words[2]);
    key.push(words[3]);
    assert(key@ == words@.take(4));
    Ok(key)
}

/// The words that a key encrypted with AES decrypts to, block by block.
pub open spec fn words_decrypted(words: Seq<u32>, key: Seq<u8>) -> Seq<u32> {
    Seq::new(
        words.len(),
        |i: int|
            words_of(
                aes128_decrypted(key, bytes_of(words.subrange(i - i % 4, i - i % 4 + 4))),
            )[i % 4],
    )
}

/// The words that an encrypted key decrypts to.
pub fn decrypt_key_words(words: &[u32], key: &[u8; 16]) -> (plain: Result<
    Vec<u32>,
    DownloadError,
>)
    ensures
        match plain {
            Ok(found) => words@.len() % 4 == 0 && found@ == words_decrypted(words@, key@),
            Err(error) => words@.len() % 4 != 0 && error@ == ErrorView::Message(
                "encrypted key is not AES block-aligned"@,
            ),
        },
{
    let total: usize = words.len();
    if total % 4 != 0 {
        return Err(failure("encrypted key is not AES block-aligned"));
    }
    let mut output: Vec<u32> = Vec::new();
    let mut at: usize = 0;
    while at < total
        invariant
            at <= total == words@.len(),
            at % 4 == 0,
            total % 4 == 0,
            output@.len() == at,
            forall|i: int|
                0 <= i < at ==> output@[i] == #[trigger] words_decrypted(words@, key@)[i],
        decreases total - at,
    {
        let block = decrypt_block(key, &four_words(words, at));
        let bytes = block.as_slice();
        let ghost group = words_of(block@);
        let w0 = bytes_to_word(bytes, 0);
        let w1 = bytes_to_word(bytes, 4);
        let w2 = bytes_to_word(bytes, 8);
        let w3 = bytes_to_word(bytes, 12);
        assert(group[0] == w0 && group[1] == w1 && group[2] == w2 && group[3] == w3);
        let ghost before = output@;
        output.push(w0);
        output.push(w1);
        output.push(w2);
        output.push(w3);
        assert(output@ == before + seq![w0, w1, w2, w3]);
        assert forall|i: int| 0 <= i < at + 4 implies output@[i] == #[trigger] words_decrypted(
            words@,
            key@,
        )[i] by {
            if i >= at {
                assert(i - i % 4 == at && i % 4 == i - at);
            }
        }
        at = at + 4;
    }
    assert(output@ == words_decrypted(words@, key@));
    Ok(output)
}

/// `bytes` without the zeros at its end.
pub open spec fn without_zeros(bytes: Seq<u8>) -> Seq<u8>
    decreases bytes.len(),
{
    if bytes.len() > 0 && bytes.last() == 0 {
        without_zeros(bytes.drop_last())
    } else {
        bytes
    }
}

/// The JSON text of decrypted attributes: what follows the mark `MEGA`.
pub open spec fn attribute_json(plain: Seq<u8>) -> Result<Seq<u8>, ErrorView> {
    let stripped = without_zeros(plain);
    if stripped.len() >= 4 && stripped.take(4) == seq![77u8, 69u8, 71u8, 65u8] {
        Ok(stripped.skip(4))
    } else {
        Err(ErrorView::Message("MEGA attributes failed to decrypt"@))
    }
}

/// The JSON text of decrypted attributes: what follows the mark `MEGA`.
pub fn attribute_json_of(plain: Vec<u8>) -> (json: Result<Vec<u8>, DownloadError>)
    ensures
        match json {
            Ok(found) => attribute_json(plain@) == Ok::<Seq<u8>, ErrorView>(found@),
            Err(error) => attribute_json(plain@) == Err::<Seq<u8>, ErrorView>(error@),
        },
{
    let mut end: usize = plain.len();
    assert(plain@.take(end as int) == plain@);
    while end > 0 && plain[end - 1] == 0
        invariant
            end <= plain@.len(),
            without_zeros(plain@.take(end as int)) == without_zeros(plain@),
        decreases end,
    {
        assert(plain@.take(end as int).drop_last() == plain@.take(end - 1));
        end = end - 1;
    }
    let ghost stripped = plain@.take(end as int);
    assert(without_zeros(plain@) == stripped);
    if end >= 4 && plain[0] == 77 && plain[1] == 69 && plain[2] == 71 && plain[3] == 65 {
        assert(stripped.take(4) == seq![77u8, 69u8, 71u8, 65u8]);
        assert(stripped.skip(4) == plain@.subrange(4, end as int));
        Ok(bytes_between(&plain, 4, end))
    } else {
        proof {
            if stripped.len() >= 4 && stripped.take(4) == seq![77u8, 69u8, 71u8, 65u8] {
                assert(stripped.take(4)[0] == 77 && stripped.take(4)[1] == 69 && stripped.take(
                    4,
                )[2] == 71 && stripped.take(4)[3] == 65);
            }
        }
        Err(failure("MEGA attributes failed to decrypt"))
    }
}

/// The name in a node's attributes, given what their JSON text holds.
pub open spec fn name_or_error(field: Result<Option<Seq<char>>, Seq<char>>) -> Result<
    Seq<char>,
    ErrorView,
> {
    match field {
        Ok(Some(name)) => Ok(name),
        Ok(None) => Err(ErrorView::Message("MEGA attributes do not contain a name"@)),
        Err(cause) => Err(ErrorView::Json(cause)),
    }
}

/// The name in a node's encrypted attributes.
pub open spec fn node_name(value: Seq<char>, key: Seq<u8>) -> Result<Seq<char>, ErrorView> {
    match decoded(value) {
        Err(error) => Err(error),
        Ok(encrypted) => if encrypted.len() % 16 != 0 {
            Err(ErrorView::Message("encrypted attributes are not AES block-aligned"@))
        } else {
            match attribute_json(cbc_decrypted(encrypted, key)) {
                Err(error) => Err(error),
                Ok(json) => name_or_error(json_text_field(json, "n"@)),
            }
        },
    }
}

/// The name in a node's attributes, given what their JSON text holds.
pub fn name_from_field(field: Result<Option<String>, String>) -> (name: Result<
    String,
    DownloadError,
>)
    ensures
        match field {
            Ok(Some(text)) => name == Ok::<String, DownloadError>(text),
            Ok(None) => name matches Err(error) && error@ == ErrorView::Message(
                "MEGA attributes do not contain a name"@,
            ),
            Err(cause) => name == Err::<String, DownloadError>(DownloadError::Json(cause)),
        },
{
    match field {
        Ok(Some(name)) => Ok(name),
        Ok(None) => Err(failure("MEGA attributes do not contain a name")),
        Err(cause) => Err(DownloadError::Json(cause)),
    }
}

/// The name in a node's encrypted attributes.
pub fn decrypt_node_name(value: &str, key: &[u8; 16]) -> (name: Result<String, DownloadError>)
    ensures
        match name {
            Ok(found) => node_name(value@, key@) == Ok::<Seq<char>, ErrorView>(found@),
            Err(error) => node_name(value@, key@) == Err::<Seq<char>, ErrorView>(error@),
        },
{
    let encrypted = match decode_base64_url(value) {
        Ok(bytes) => bytes,
        Err(error) => return Err(error),
    };
    if encrypted.len() % 16 != 0 {
        return Err(failure("encrypted attributes are not AES block-aligned"));
    }
    let plain = match aes_cbc_decrypt_zero_iv(&encrypted, key) {
        Ok(bytes) => bytes,
        Err(error) => return Err(error),
    };
    let json = match attribute_json_of(plain) {
        Ok(bytes) => bytes,
        Err(error) => return Err(error),
    };
    name_from_field(read_json_text(&json, "n"))
}

/// What follows the first colon of `part`, if it has one.
pub open spec fn after_colon(part: Seq<char>) -> Option<Seq<char>> {
    match part.index_of_first(':') {
        Some(at) => Some(part.skip(at + 1)),
        None => None,
    }
}

/// What follows the first colon of the last of `parts` that has one.
pub open spec fn last_key(parts: Seq<Seq<char>>) -> Option<Seq<char>>
    decreases parts.len(),
{
    if parts.len() == 0 {
        None
    } else {
        match after_colon(parts.last()) {
            Some(key) => Some(key),
            None => last_key(parts.drop_last()),
        }
    }
}

/// The encrypted key in a node's key field, a list of `owner:key` pairs separated by slashes, or
/// a bare key.
pub open spec fn node_key(value: Seq<char>) -> Option<Seq<char>> {
    match last_key(split(value, CharClass::Only('/'))) {
        Some(key) => Some(key),
        None => if value.len() > 0 {
            Some(value)
        } else {
            None
        },
    }
}

/// What follows the first colon of `part`, if it has one.
fn key_after_colon(part: &str) -> (key: Option<String>)
    ensures
        match key {
            Some(found) => after_colon(part@) == Some(found@),
            None => after_colon(part@) is None,
        },
{
    let chars = chars_of(part);
    let mut i: usize = 0;
    while i < chars.len()
        invariant
            chars@ == part@,
            i <= chars@.len(),
            forall|j: int| 0 <= j < i ==> chars@[j] != ':',
        decreases chars@.len() - i,
    {
        if chars[i] == ':' {
            proof {
                part@.index_of_first_ensures(':');
                assert(part@[i as int] == ':');
                assert(part@.index_of_first(':') == Some(i as int));
            }
            assert(part@.skip(i + 1) == part@.subrange(i + 1, part@.len() as int));
            return Some(string_from(&chars, i + 1, chars.len()));
        }
        i = i + 1;
    }
    proof {
        part@.index_of_first_ensures(':');
    }
    None
}

/// The encrypted key in a node's key field.
pub fn extract_node_key(value: &str) -> (key: Option<String>)
    ensures
        match key {
            Some(found) => node_key(value@) == Some(found@),
            None => node_key(value@) is None,
        },
{
    let parts = split_text(value, CharClass::Only('/'));
    let ghost all = views(parts@);
    let mut end: usize = parts.len();
    assert(all.take(end as int) == all);
    while end > 0
        invariant
            end <= parts@.len(),
            all == views(parts@),
            all == split(value@, CharClass::Only('/')),
            last_key(all.take(end as int)) == last_key(all),
        decreases end,
    {
        assert(all.take(end as int).last() == parts@[end - 1]@);
        assert(all.take(end as int).drop_last() == all.take(end - 1));
        match key_after_colon(&parts[end - 1]) {
            Some(key) => return Some(key),
            None => {},
        }
        end = end - 1;
    }
    if value.is_empty() {
        None
    } else {
        Some(value.to_string())
    }
}

/// The two halves of a file's key and the key folded of them determine each other: combining the
/// folded key with one half gives the other half back.
pub proof fn folded_keys_unfold(words: Seq<u32>, i: int)
    requires
        words.len() >= 8,
        0 <= i < 4,
    ensures
        attr_key(words).len() == 4,
        attr_key(words)[i] ^ words[i + 4] == words[i],
        attr_key(words)[i] ^ words[i] == words[i + 4],
{
    let a = words[i];
    let b = words[i + 4];
    assert((a ^ b) ^ b == a) by (bit_vector);
    assert((a ^ b) ^ a == b) by (bit_vector);
}

/// Reading words from the bytes that were written of them gives the words back, and the other way
/// round.
pub proof fn words_and_bytes_read_back(words: Seq<u32>, bytes: Seq<u8>)
    ensures
        bytes_of(words).len() == 4 * words.len(),
        words_of(bytes_of(words)) == words,
        bytes.len() % 4 == 0 ==> bytes_of(words_of(bytes)) == bytes,
{
    assert(pow(256, 4) == 0x1_0000_0000) by {
        reveal_with_fuel(pow, 5);
    }
    assert forall|i: int| 0 <= i < words.len() implies words_of(bytes_of(words))[i] == words[i] by {
        let written = be_bytes(words[i] as nat, 4);
        be_bytes_read_back(words[i] as nat, 4);
        assert(bytes_of(words).subrange(4 * i, 4 * i + 4) =~= written);
        vstd::arithmetic::div_mod::lemma_small_mod(words[i] as nat, 0x1_0000_0000);
    }
    assert(words_of(bytes_of(words)) =~= words);
    if bytes.len() % 4 == 0 {
        assert forall|j: int| 0 <= j < bytes.len() implies bytes_of(words_of(bytes))[j]
            == bytes[j] by {
            let i = j / 4;
            let group = bytes.subrange(4 * i, 4 * i + 4);
            be_value_writes_back(group);
            assert(group[j % 4] == bytes[j]);
        }
        assert(bytes_of(words_of(bytes)) =~= bytes);
    }
}

/// A file's key can be put together again from the parts that it was taken apart into: its second
/// half is the start words followed by the code words, and its first half is the cipher key
/// combined with the second.
pub proof fn file_keys_are_put_together_again(words: Seq<u32>, crypto: FileCrypto, i: int)
    requires
        words.len() == 8,
        is_file_crypto(words, crypto),
        0 <= i < 4,
    ensures
        words.skip(4) == crypto.iv_words@ + crypto.meta_mac@,
        words_of(crypto.aes_key@).len() == 4,
        words[i] == words_of(crypto.aes_key@)[i] ^ (crypto.iv_words@ + crypto.meta_mac@)[i],
{
    words_and_bytes_read_back(attr_key(words), Seq::empty());
    folded_keys_unfold(words, i);
    assert(words.skip(4) =~= crypto.iv_words@ + crypto.meta_mac@);
    assert(words.skip(4)[i] == words[i + 4]);
}

/// Four words of an encrypted key are decrypted as one block, and longer keys four words at a
/// time.
pub proof fn keys_decrypt_four_words_at_a_time(
    first: Seq<u32>,
    rest: Seq<u32>,
    key: Seq<u8>,
)
    requires
        first.len() == 4,
        rest.len() % 4 == 0,
        aes128_decrypted(key, bytes_of(first)).len() == 16,
    ensures
        bytes_of(words_decrypted(first, key)) == aes128_decrypted(key, bytes_of(first)),
        words_decrypted(first + rest, key) == words_decrypted(first, key) + words_decrypted(
            rest,
            key,
        ),
{
    let block = aes128_decrypted(key, bytes_of(first));
    assert forall|i: int| 0 <= i < 4 implies words_decrypted(first, key)[i]
        == words_of(block)[i] by {
        assert(first.subrange(i - i % 4, i - i % 4 + 4) =~= first);
    }
    assert(words_decrypted(first, key) =~= words_of(block));
    words_and_bytes_read_back(Seq::empty(), block);
    let all = first + rest;
    assert forall|i: int| 0 <= i < all.len() implies words_decrypted(all, key)[i] == (
    words_decrypted(first, key) + words_decrypted(rest, key))[i] by {
        if i < 4 {
            assert(all.subrange(i - i % 4, i - i % 4 + 4) =~= first.subrange(
                i - i % 4,
                i - i % 4 + 4,
            ));
        } else {
            let k = i - 4;
            assert(k % 4 == i % 4);
            assert(all.subrange(i - i % 4, i - i % 4 + 4) =~= rest.subrange(
                k - k % 4,
                k - k % 4 + 4,
            ));
        }
    }
    assert(words_decrypted(all, key) =~= words_decrypted(first, key) + words_decrypted(rest, key));
}

/// Attributes are the mark, then JSON text, then any number of zeros. Reading them gives the text
/// back if it does not end in a zero itself.
pub proof fn attributes_read_back(json: Seq<u8>, zeros: nat)
    requires
        json.len() > 0 ==> json.last() != 0,
    ensures
        attribute_json(
            seq![77u8, 69u8, 71u8, 65u8] + json + Seq::new(zeros, |i: int| 0u8),
        ) == Ok::<Seq<u8>, ErrorView>(json),
{
    let mark = seq![77u8, 69u8, 71u8, 65u8];
    let text = mark + json;
    lemma_zeros_go(text, zeros);
    assert(text.take(4) =~= mark);
    assert(text.skip(4) =~= json);
}

proof fn lemma_zeros_go(text: Seq<u8>, zeros: nat)
    requires
        text.len() > 0,
        text.last() != 0,
    ensures
        without_zeros(text + Seq::new(zeros, |i: int| 0u8)) == text,
    decreases zeros,
{
    let all = text + Seq::new(zeros, |i: int| 0u8);
    if zeros == 0 {
        assert(all =~= text);
    } else {
        lemma_zeros_go(text, (zeros - 1) as nat);
        assert(all.drop_last() =~= text + Seq::new((zeros - 1) as nat, |i: int| 0u8));
    }
}

/// Attributes that do not start with the mark are refused.
pub proof fn unmarked_attributes_are_refused(plain: Seq<u8>)
    requires
        plain.len() < 4 || plain[0] != 77 || plain[1] != 69 || plain[2] != 71 || plain[3] != 65,
    ensures
        attribute_json(plain) is Err,
{
    lemma_without_zeros_is_front(plain);
    let stripped = without_zeros(plain);
    if stripped.len() >= 4 && stripped.take(4) == seq![77u8, 69u8, 71u8, 65u8] {
        assert(stripped.take(4)[0] == 77 && stripped.take(4)[1] == 69 && stripped.take(4)[2] == 71
            && stripped.take(4)[3] == 65);
    }
}

proof fn lemma_without_zeros_is_front(bytes: Seq<u8>)
    ensures
        without_zeros(bytes).len() <= bytes.len(),
        without_zeros(bytes) == bytes.take(without_zeros(bytes).len() as int),
    decreases bytes.len(),
{
    if bytes.len() > 0 && bytes.last() == 0 {
        lemma_without_zeros_is_front(bytes.drop_last());
        let n = without_zeros(bytes).len() as int;
        assert(bytes.drop_last().take(n) =~= bytes.take(n));
    } else {
        assert(bytes.take(bytes.len() as int) =~= bytes);
    }
}

/// Of several pairs of an owner and a key, the key of the last counts, whatever stands before it. A
/// key alone counts as it is.
pub proof fn last_key_counts(front: Seq<char>, owner: Seq<char>, key: Seq<char>)
    requires
        is_unbroken(owner, CharClass::Only('/')),
        is_unbroken(owner, CharClass::Only(':')),
        is_unbroken(key, CharClass::Only('/')),
    ensures
        node_key(front.push('/') + (owner.push(':') + key)) == Some(key),
        node_key(owner.push(':') + key) == Some(key),
        owner.len() > 0 ==> node_key(owner) == Some(owner),
        node_key(Seq::empty()) is None,
{
    let slash = CharClass::Only('/');
    let pair = owner.push(':') + key;
    assert forall|i: int| 0 <= i < pair.len() implies !slash.has(#[trigger] pair[i]) by {
        if i < owner.len() {
            assert(pair[i] == owner[i]);
        } else if i > owner.len() {
            assert(pair[i] == key[i - owner.len() - 1]);
        }
    }
    assert(after_colon(pair) == Some(key)) by {
        pair.index_of_first_ensures(':');
        let at = owner.len() as int;
        assert(pair[at] == ':');
        assert forall|i: int| 0 <= i < at implies pair[i] != ':' by {
            assert(pair[i] == owner[i]);
            assert(!CharClass::Only(':').has(owner[i]));
        }
        assert(pair.index_of_first(':') == Some(at));
        assert(pair.skip(at + 1) =~= key);
    }
    splitting_undoes_joining(front, '/', pair, slash);
    unbroken_text_is_one_piece(pair, slash);
    unbroken_text_is_one_piece(owner, slash);
    unbroken_text_is_one_piece(Seq::empty(), slash);
    reveal_with_fuel(last_key, 3);
    assert(seq![pair].last() == pair);
    assert(after_colon(owner) is None) by {
        owner.index_of_first_ensures(':');
        if owner.contains(':') {
            let i = choose|i: int| 0 <= i < owner.len() && owner[i] == ':';
            assert(!CharClass::Only(':').has(owner[i]));
        }
    }
    assert(seq![owner].drop_last() =~= Seq::<Seq<char>>::empty());
    assert(after_colon(Seq::empty()) is None) by {
        Seq::<char>::empty().index_of_first_ensures(':');
    }
    assert(seq![Seq::<char>::empty()].drop_last() =~= Seq::<Seq<char>>::empty());
}

/// Text that holds neither white space nor commas is decoded without padding if it can be, and
/// with padding if not. White space around it and commas in it change nothing.
pub proof fn base64_is_read_with_or_without_padding(front: Seq<char>, rest: Seq<char>)
    requires
        is_unbroken(front + rest, CharClass::Whitespace),
        is_unbroken(front + rest, CharClass::Only(',')),
    ensures
        base64url_decoded(front + rest) matches Some(bytes) ==> decoded(front + rest) == Ok::<
            Seq<u8>,
            ErrorView,
        >(bytes),
        base64url_decoded(front + rest) is None ==> match base64url_padded_decoded(front + rest) {
            Ok(bytes) => decoded(front + rest) == Ok::<Seq<u8>, ErrorView>(bytes),
            Err(cause) => decoded(front + rest) == Err::<Seq<u8>, ErrorView>(
                ErrorView::Base64(cause),
            ),
        },
        decoded(front.push(',') + rest) == decoded(front + rest),
{
    lemma_cleaned_with_comma(front, rest);
}

proof fn lemma_cleaned_with_comma(front: Seq<char>, rest: Seq<char>)
    requires
        is_unbroken(front + rest, CharClass::Whitespace),
        is_unbroken(front + rest, CharClass::Only(',')),
    ensures
        cleaned_base64(front + rest) == front + rest,
        cleaned_base64(front.push(',') + rest) == front + rest,
{
    let text = front + rest;
    let with_comma = front.push(',') + rest;
    assert forall|i: int| 0 <= i < text.len() implies text[i] != ',' by {
        assert(!CharClass::Only(',').has(text[i]));
    }
    assert(trim(text) == text) by {
        if text.len() > 0 {
            assert(!CharClass::Whitespace.has(text[0]));
            assert(!CharClass::Whitespace.has(text[text.len() - 1]));
        }
        crate::text::trimming_keeps_trimmed_text(text, CharClass::Whitespace);
    }
    assert(trim(with_comma) == with_comma) by {
        let n = with_comma.len() - 1;
        assert(with_comma[0] == if front.len() > 0 {
            text[0]
        } else {
            ','
        });
        assert(with_comma[n] == if rest.len() > 0 {
            text[text.len() - 1]
        } else {
            ','
        });
        if text.len() > 0 {
            assert(!CharClass::Whitespace.has(text[0]));
            assert(!CharClass::Whitespace.has(text[text.len() - 1]));
        }
        crate::text::trimming_keeps_trimmed_text(with_comma, CharClass::Whitespace);
    }
    lemma_filter_keeps_all(text);
    lemma_comma_goes(front, rest);
}

proof fn lemma_comma_goes(front: Seq<char>, rest: Seq<char>)
    requires
        forall|i: int| 0 <= i < (front + rest).len() ==> (front + rest)[i] != ',',
    ensures
        (front.push(',') + rest).filter(|c: char| c != ',') == front + rest,
    decreases rest.len(),
{
    reveal(Seq::filter);
    let all = front.push(',') + rest;
    if rest.len() == 0 {
        assert(all.drop_last() =~= front);
        assert(front + rest =~= front);
        lemma_filter_keeps_all(front);
    } else {
        assert forall|i: int| 0 <= i < (front + rest.drop_last()).len() implies (front
            + rest.drop_last())[i] != ',' by {
            assert((front + rest)[i] == (front + rest.drop_last())[i]);
        }
        lemma_comma_goes(front, rest.drop_last());
        assert(all.drop_last() =~= front.push(',') + rest.drop_last());
        assert((front + rest)[front.len() + rest.len() - 1] == rest.last());
        assert((front + rest.drop_last()).push(rest.last()) =~= front + rest);
    }
}

/// The name of a node is the text that its attributes hold under `n`, once they are decrypted and
/// read. Attributes that do not fill whole blocks are refused.
pub proof fn names_stand_under_their_field(
    value: Seq<char>,
    key: Seq<u8>,
    encrypted: Seq<u8>,
    json: Seq<u8>,
    zeros: nat,
)
    requires
        decoded(value) == Ok::<Seq<u8>, ErrorView>(encrypted),
        json.len() > 0 ==> json.last() != 0,
        encrypted.len() % 16 == 0 ==> cbc_decrypted(encrypted, key) == seq![77u8, 69u8, 71u8, 65u8]
            + json + Seq::new(zeros, |i: int| 0u8),
    ensures
        encrypted.len() % 16 == 0 ==> match json_text_field(json, "n"@) {
            Ok(Some(name)) => node_name(value, key) == Ok::<Seq<char>, ErrorView>(name),
            Ok(None) => node_name(value, key) == Err::<Seq<char>, ErrorView>(
                ErrorView::Message("MEGA attributes do not contain a name"@),
            ),
            Err(cause) => node_name(value, key) == Err::<Seq<char>, ErrorView>(
                ErrorView::Json(cause),
            ),
        },
        encrypted.len() % 16 != 0 ==> node_name(value, key) == Err::<Seq<char>, ErrorView>(
            ErrorView::Message("encrypted attributes are not AES block-aligned"@),
        ),
{
    attributes_read_back(json, zeros);
}

/// A key is read exactly if its bytes fill words, and writing the words gives the bytes back.
pub proof fn keys_are_read_word_by_word(value: Seq<char>, bytes: Seq<u8>)
    requires
        decoded(value) == Ok::<Seq<u8>, ErrorView>(bytes),
    ensures
        key_words(value) is Ok <==> bytes.len() % 4 == 0,
        key_words(value) matches Ok(words) ==> bytes_of(words) == bytes && 4 * words.len()
            == bytes.len(),
        key_words(value) is Err ==> key_words(value) == Err::<Seq<u32>, ErrorView>(
            ErrorView::Message("decoded MEGA key is not word-aligned"@),
        ),
{
    if bytes.len() % 4 == 0 {
        words_and_bytes_read_back(Seq::empty(), bytes);
    }
}

/// Folding a key takes its two halves together: each word of what comes out, combined with a word
/// of either half, gives the word of the other half back.
pub proof fn derived_keys_unfold(
    words: &[u32],
    key: Result<Vec<u32>, DownloadError>,
    i: int,
)
    requires
        call_ensures(derive_file_attr_key_words, (words,), key),
        0 <= i < 4,
    ensures
        key is Ok <==> words@.len() >= 8,
        key matches Ok(found) ==> found@.len() == 4 && found@[i] ^ words@[i + 4] == words@[i]
            && found@[i] ^ words@[i] == words@[i + 4],
{
    if words@.len() >= 8 {
        folded_keys_unfold(words@, i);
    }
}

/// The parts that a key is taken apart into are its second half, in order, and its halves taken
/// together.
pub proof fn derived_parts_are_the_keys(
    words: &[u32],
    crypto: Result<FileCrypto, DownloadError>,
    i: int,
)
    requires
        call_ensures(derive_file_crypto, (words,), crypto),
        0 <= i < 4,
    ensures
        crypto is Ok <==> words@.len() >= 8,
        crypto matches Ok(found) ==> {
            &&& found.iv_words@ == seq![words@[4], words@[5]]
            &&& found.meta_mac@ == seq![words@[6], words@[7]]
            &&& words_of(found.aes_key@).len() == 4
            &&& words_of(found.aes_key@)[i] ^ words@[i + 4] == words@[i]
        },
{
    if let Ok(found) = crypto {
        folded_keys_unfold(words@, i);
        words_and_bytes_read_back(attr_key(words@), Seq::empty());
        assert(words@.subrange(4, 6) =~= seq![words@[4], words@[5]]);
        assert(words@.subrange(6, 8) =~= seq![words@[6], words@[7]]);
    }
}

/// The first words of a key are its first four.
pub proof fn first_words_are_taken(words: &[u32], key: Result<Vec<u32>, DownloadError>, i: int)
    requires
        call_ensures(first_four_words, (words,), key),
        0 <= i < 4,
    ensures
        key is Ok <==> words@.len() >= 4,
        key matches Ok(found) ==> found@.len() == 4 && found@[i] == words@[i],
{
}

} // verus!
