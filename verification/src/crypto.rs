//! Key derivation, message authentication and decryption.
use crate::bytes::{
    append_bytes, be_bytes, be_value, bytes_to_word, long_to_bytes, word_to_bytes, xor_block,
    xor_bytes,
};
use crate::error::{failure, DownloadError, ErrorView};
use aes::cipher::{BlockDecrypt, BlockEncrypt, KeyInit, KeyIvInit, StreamCipher};
use sha2::{Digest, Sha256, Sha512};
use vstd::arithmetic::power::pow;
use vstd::prelude::*;

verus! {

/// The SHA-256 digest of a run of bytes.
pub uninterp spec fn sha256(data: Seq<u8>) -> Seq<u8>;

/// The SHA-512 digest of a run of bytes.
pub uninterp spec fn sha512(data: Seq<u8>) -> Seq<u8>;

/// The block that AES with a 128-bit key encrypts a block to.
pub uninterp spec fn aes128_encrypted(key: Seq<u8>, block: Seq<u8>) -> Seq<u8>;

/// The block that AES with a 128-bit key decrypts a block to.
pub uninterp spec fn aes128_decrypted(key: Seq<u8>, block: Seq<u8>) -> Seq<u8>;

/// Calls `sha2::Sha256::digest`. The result is named by `sha256`; that it is 32 bytes long is
/// part of its type.
#[verifier::external_body]
fn sha256_digest(data: &[u8]) -> (digest: [u8; 32])
    ensures
        digest@ == sha256(data@),
{
    Sha256::digest(data).into()
}

/// Calls `sha2::Sha512::digest`. The result is named by `sha512`; that it is 64 bytes long is
/// part of its type.
#[verifier::external_body]
fn sha512_digest(data: &[u8]) -> (digest: [u8; 64])
    ensures
        digest@ == sha512(data@),
{
    Sha512::digest(data).into()
}

/// Calls `aes::Aes128::new` and `encrypt_block`. The result is named by `aes128_encrypted`;
/// decrypting it with the same key gives the block back, as of any block cipher.
#[verifier::external_body]
fn encrypt_block(key: &[u8; 16], block: &[u8; 16]) -> (encrypted: [u8; 16])
    ensures
        encrypted@ == aes128_encrypted(key@, block@),
        aes128_decrypted(key@, encrypted@) == block@,
{
    let mut encrypted = (*block).into();
    aes::Aes128::new(key.into()).encrypt_block(&mut encrypted);
    encrypted.into()
}

/// Calls `aes::Aes128::new` and `decrypt_block`. The result is named by `aes128_decrypted`;
/// encrypting it with the same key gives the block back, as of any block cipher.
#[verifier::external_body]
pub(crate) fn decrypt_block(key: &[u8; 16], block: &[u8; 16]) -> (decrypted: [u8; 16])
    ensures
        decrypted@ == aes128_decrypted(key@, block@),
        aes128_encrypted(key@, decrypted@) == block@,
{
    let mut decrypted = (*block).into();
    aes::Aes128::new(key.into()).decrypt_block(&mut decrypted);
    decrypted.into()
}

/// Byte `i` of the key stream of AES in counter mode, whose 16-byte counter starts at `nonce`,
/// counts blocks as one big-endian number and wraps around.
pub open spec fn stream_byte(key: Seq<u8>, nonce: Seq<u8>, i: int) -> u8 {
    aes128_encrypted(
        key,
        be_bytes(((be_value(nonce) + i / 16) % pow(256, 16)) as nat, 16),
    )[i % 16]
}

/// `data` combined with a key stream.
pub open spec fn streamed(data: Seq<u8>, key: Seq<u8>, nonce: Seq<u8>) -> Seq<u8> {
    Seq::new(data.len(), |i: int| data[i] ^ stream_byte(key, nonce, i))
}

/// Calls `ctr::Ctr128BE::<aes::Aes128>::new` and `apply_keystream`: each byte is combined with
/// the encryption of a counter that starts at `nonce` and is counted up once for each block, as a
/// big-endian number of 128 bits that wraps around.
#[verifier::external_body]
fn apply_stream(data: &mut Vec<u8>, key: &[u8; 16], nonce: &[u8; 16])
    ensures
        final(data)@ == streamed(old(data)@, key@, nonce@),
{
    ctr::Ctr128BE::<aes::Aes128>::new(key.into(), nonce.into()).apply_keystream(data);
}

/// A key filled up with zeros to the size of a digest's block.
pub open spec fn block_key(key: Seq<u8>, size: nat) -> Seq<u8> {
    Seq::new(size, |i: int| if i < key.len() { key[i] } else { 0u8 })
}

/// Each byte of `block` combined with `pad`.
pub open spec fn padded_key(block: Seq<u8>, pad: u8) -> Seq<u8> {
    Seq::new(block.len(), |i: int| pad ^ block[i])
}

/// The key as it enters HMAC with SHA-256: hashed if it is longer than a block.
pub open spec fn sha256_block_key(key: Seq<u8>) -> Seq<u8> {
    block_key(if key.len() > 64 { sha256(key) } else { key }, 64)
}

/// The key as it enters HMAC with SHA-512: hashed if it is longer than a block.
pub open spec fn sha512_block_key(key: Seq<u8>) -> Seq<u8> {
    block_key(if key.len() > 128 { sha512(key) } else { key }, 128)
}

/// The HMAC of `data` with SHA-256.
pub open spec fn spec_hmac_sha256(key: Seq<u8>, data: Seq<u8>) -> Seq<u8> {
    let block = sha256_block_key(key);
    sha256(padded_key(block, 0x5c) + sha256(padded_key(block, 0x36) + data))
}

/// The HMAC of `data` with SHA-512.
pub open spec fn spec_hmac_sha512(key: Seq<u8>, data: Seq<u8>) -> Seq<u8> {
    let block = sha512_block_key(key);
    sha512(padded_key(block, 0x5c) + sha512(padded_key(block, 0x36) + data))
}

/// `key`, filled up with zeros to `size` bytes and combined with `pad`.
fn padded_block(key: &[u8], size: usize, pad: u8) -> (block: Vec<u8>)
    requires
        key@.len() <= size,
    ensures
        block@ == padded_key(block_key(key@, size as nat), pad),
{
    let mut block: Vec<u8> = Vec::new();
    let mut i: usize = 0;
    while i < size
        invariant
            i <= size,
            block@.len() == i,
            forall|j: int|
                0 <= j < i ==> block@[j] == pad ^ (if j < key@.len() { key@[j] } else { 0u8 }),
        decreases size - i,
    {
        let byte: u8 = if i < key.len() {
            key[i]
        } else {
            0
        };
        block.push(pad ^ byte);
        i = i + 1;
    }
    assert(block@ == padded_key(block_key(key@, size as nat), pad));
    block
}

/// The HMAC of `data` with SHA-256.
pub fn hmac_sha256(key: &[u8], data: &[u8]) -> (mac: [u8; 32])
    ensures
        mac@ == spec_hmac_sha256(key@, data@),
{
    let digest: [u8; 32];
    let short: &[u8] = if key.len() > 64 {
        digest = sha256_digest(key);
        digest.as_slice()
    } else {
        key
    };
    let mut inner = padded_block(short, 64, 0x36);
    append_bytes(&mut inner, data);
    let inner_digest = sha256_digest(&inner);
    let mut outer = padded_block(short, 64, 0x5c);
    append_bytes(&mut outer, inner_digest.as_slice());
    sha256_digest(&outer)
}

/// The HMAC of `data` with SHA-512.
pub fn hmac_sha512(key: &[u8], data: &[u8]) -> (mac: [u8; 64])
    ensures
        mac@ == spec_hmac_sha512(key@, data@),
{
    let digest: [u8; 64];
    let short: &[u8] = if key.len() > 128 {
        digest = sha512_digest(key);
        digest.as_slice()
    } else {
        key
    };
    let mut inner = padded_block(short, 128, 0x36);
    append_bytes(&mut inner, data);
    let inner_digest = sha512_digest(&inner);
    let mut outer = padded_block(short, 128, 0x5c);
    append_bytes(&mut outer, inner_digest.as_slice());
    sha512_digest(&outer)
}

/// The HMAC that PBKDF2 computes in round `round` of its block `index`, both counted from one.
pub open spec fn pbkdf2_round(
    password: Seq<u8>,
    salt: Seq<u8>,
    index: nat,
    round: nat,
) -> Seq<u8>
    decreases round,
{
    if round <= 1 {
        spec_hmac_sha512(password, salt + be_bytes(index, 4))
    } else {
        spec_hmac_sha512(password, pbkdf2_round(password, salt, index, (round - 1) as nat))
    }
}

/// Block `index` of PBKDF2's output: its rounds combined.
pub open spec fn pbkdf2_block(
    password: Seq<u8>,
    salt: Seq<u8>,
    index: nat,
    rounds: nat,
) -> Seq<u8>
    decreases rounds,
{
    if rounds <= 1 {
        pbkdf2_round(password, salt, index, 1)
    } else {
        xor_bytes(
            pbkdf2_block(password, salt, index, (rounds - 1) as nat),
            pbkdf2_round(password, salt, index, rounds),
        )
    }
}

/// The first `count` blocks of PBKDF2's output.
pub open spec fn pbkdf2_blocks(
    password: Seq<u8>,
    salt: Seq<u8>,
    rounds: nat,
    count: nat,
) -> Seq<u8>
    decreases count,
{
    if count == 0 {
        Seq::empty()
    } else {
        pbkdf2_blocks(password, salt, rounds, (count - 1) as nat) + pbkdf2_block(
            password,
            salt,
            count,
            rounds,
        )
    }
}

/// `len` bytes of the key that PBKDF2 with HMAC-SHA-512 derives. Zero rounds count as one.
pub open spec fn spec_pbkdf2(
    password: Seq<u8>,
    salt: Seq<u8>,
    rounds: nat,
    len: nat,
) -> Seq<u8> {
    pbkdf2_blocks(password, salt, rounds, (len + 63) / 64).take(len as int)
}

fn pbkdf2_one_block(password: &[u8], salt: &[u8], index: u32, iterations: u32) -> (block: [u8; 64])
    ensures
        block@ == pbkdf2_block(password@, salt@, index as nat, iterations as nat),
{
    let mut input: Vec<u8> = Vec::new();
    append_bytes(&mut input, salt);
    append_bytes(&mut input, word_to_bytes(index).as_slice());
    assert(input@ == salt@ + be_bytes(index as nat, 4));
    let mut u = hmac_sha512(password, &input);
    let mut block = u;
    let mut round: u32 = 1;
    while round < iterations
        invariant
            1 <= round,
            iterations >= 1 ==> round <= iterations,
            iterations == 0 ==> round == 1,
            u@ == pbkdf2_round(password@, salt@, index as nat, round as nat),
            block@ == pbkdf2_block(password@, salt@, index as nat, round as nat),
        decreases iterations - round,
    {
        u = hmac_sha512(password, u.as_slice());
        let ghost before = block@;
        let mut i: usize = 0;
        while i < 64
            invariant
                i <= 64,
                before.len() == 64,
                forall|j: int| 0 <= j < i ==> block@[j] == before[j] ^ u@[j],
                forall|j: int| i <= j < 64 ==> block@[j] == before[j],
            decreases 64 - i,
        {
            block[i] = block[i] ^ u[i];
            i = i + 1;
        }
        assert(block@ == xor_bytes(before, u@));
        round = round + 1;
    }
    assert(pbkdf2_block(password@, salt@, index as nat, 0) == pbkdf2_block(
        password@,
        salt@,
        index as nat,
        1,
    ));
    block
}

/// `output_len` bytes of the key that PBKDF2 with HMAC-SHA-512 derives.
pub fn pbkdf2_hmac_sha512(
    password: &[u8],
    salt: &[u8],
    iterations: u32,
    output_len: usize,
) -> (output: Vec<u8>)
    requires
        output_len <= 64 * (u32::MAX - 1),
    ensures
        output@ == spec_pbkdf2(password@, salt@, iterations as nat, output_len as nat),
        output@.len() == output_len,
{
    let mut output: Vec<u8> = Vec::new();
    let mut block_index: u32 = 1;
    while output.len() < output_len
        invariant
            output_len <= 64 * (u32::MAX - 1),
            1 <= block_index,
            output@.len() == 64 * (block_index - 1),
            output_len > 64 * (block_index - 2),
            output@ == pbkdf2_blocks(
                password@,
                salt@,
                iterations as nat,
                (block_index - 1) as nat,
            ),
        decreases output_len + 64 - output@.len(),
    {
        let block = pbkdf2_one_block(password, salt, block_index, iterations);
        append_bytes(&mut output, block.as_slice());
        block_index = block_index + 1;
    }
    assert((output_len + 63) / 64 == block_index - 1);
    output.truncate(output_len);
    output
}

proof fn lemma_or_is_zero(left: u8, right: u8)
    ensures
        (left | right == 0) == (left == 0 && right == 0),
{
    assert((left | right == 0) == (left == 0 && right == 0)) by (bit_vector);
}

/// Whether two runs of bytes are the same, found out in a time that depends on their lengths
/// alone.
pub fn constant_time_eq(left: &[u8], right: &[u8]) -> (same: bool)
    ensures
        same == (left@ == right@),
{
    if left.len() != right.len() {
        return false;
    }
    let mut diff: u8 = 0;
    let mut i: usize = 0;
    while i < left.len()
        invariant
            i <= left@.len() == right@.len(),
            (diff == 0) == (forall|j: int| 0 <= j < i ==> left@[j] == right@[j]),
        decreases left@.len() - i,
    {
        let l = left[i];
        let r = right[i];
        proof {
            lemma_or_is_zero(diff, l ^ r);
            assert((l ^ r == 0) == (l == r)) by (bit_vector);
        }
        diff = diff | (l ^ r);
        i = i + 1;
    }
    if diff == 0 {
        assert(left@ == right@);
    }
    diff == 0
}

/// The parts of a file's key.
#[derive(Debug, Clone, Copy)]
pub struct FileCrypto {
    /// The key that the file and its attributes are encrypted with.
    pub aes_key: [u8; 16],
    /// The upper half of the counter block.
    pub iv_words: [u32; 2],
    /// What the condensed message authentication code of the file must be.
    pub meta_mac: [u32; 2],
}

/// The first eight bytes of a file's counter blocks.
pub open spec fn iv_bytes(crypto: FileCrypto) -> Seq<u8> {
    be_bytes(crypto.iv_words@[0] as nat, 4) + be_bytes(crypto.iv_words@[1] as nat, 4)
}

/// The counter block of the 16 bytes of a file that byte `offset` is one of.
pub open spec fn counter_block(crypto: FileCrypto, offset: u64) -> Seq<u8> {
    iv_bytes(crypto) + be_bytes((offset / 16) as nat, 8)
}

/// What `data`, which stands at `offset` of an encrypted file, decrypts to.
pub open spec fn range_decrypted(data: Seq<u8>, crypto: FileCrypto, offset: u64) -> Seq<u8> {
    streamed(data, crypto.aes_key@, counter_block(crypto, offset))
}

/// Decrypts a stretch of a file that starts at `offset`.
pub fn decrypt_range(data: &mut Vec<u8>, crypto: &FileCrypto, offset: u64)
    ensures
        final(data)@ == range_decrypted(old(data)@, *crypto, offset),
{
    let w0 = word_to_bytes(crypto.iv_words[0]);
    let w1 = word_to_bytes(crypto.iv_words[1]);
    let n = long_to_bytes(offset / 16);
    let counter: [u8; 16] = [
        w0[0],
        w0[1],
        w0[2],
        w0[3],
        w1[0],
        w1[1],
        w1[2],
        w1[3],
        n[0],
        n[1],
        n[2],
        n[3],
        n[4],
        n[5],
        n[6],
        n[7],
    ];
    assert(counter@ == counter_block(*crypto, offset));
    apply_stream(data, &crypto.aes_key, &counter);
}

/// Decrypting a stretch twice gives the stretch back.
pub proof fn decrypting_twice_restores(data: Seq<u8>, crypto: FileCrypto, offset: u64)
    ensures
        range_decrypted(range_decrypted(data, crypto, offset), crypto, offset) == data,
{
    let key = crypto.aes_key@;
    let nonce = counter_block(crypto, offset);
    let mask = Seq::new(data.len(), |i: int| stream_byte(key, nonce, i));
    crate::bytes::xor_twice(data, mask);
    assert(streamed(data, key, nonce) == xor_bytes(data, mask));
    assert(streamed(streamed(data, key, nonce), key, nonce) == xor_bytes(
        xor_bytes(data, mask),
        mask,
    ));
}

/// A stretch of a file, wherever it stands, can be decrypted piece by piece: each piece that starts
/// a multiple of 16 bytes into it decrypts to what stands there in the decrypted stretch.
pub proof fn decrypting_by_pieces(
    data: Seq<u8>,
    crypto: FileCrypto,
    offset: u64,
    from: int,
    to: int,
)
    requires
        from % 16 == 0,
        0 <= from <= to <= data.len(),
        offset + from <= u64::MAX,
    ensures
        range_decrypted(data.subrange(from, to), crypto, (offset + from) as u64)
            == range_decrypted(data, crypto, offset).subrange(from, to),
{
    let at = (offset + from) as u64;
    let start = be_value(counter_block(crypto, offset));
    lemma_counter_value(crypto, at);
    lemma_counter_value(crypto, offset);
    assert(at / 16 == offset / 16 + from / 16);
    let left = range_decrypted(data.subrange(from, to), crypto, at);
    let right = range_decrypted(data, crypto, offset).subrange(from, to);
    assert forall|i: int| 0 <= i < to - from implies left[i] == right[i] by {
        assert((from + i) / 16 == from / 16 + i / 16);
        assert((from + i) % 16 == i % 16);
        assert(be_value(counter_block(crypto, at)) + i / 16 == start + (from + i) / 16);
    }
    assert(left == right);
}

/// A counter block is that of the file's start, counted up once for each block before it.
proof fn lemma_counter_value(crypto: FileCrypto, offset: u64)
    ensures
        be_value(counter_block(crypto, offset)) == be_value(iv_bytes(crypto)) * pow(256, 8)
            + offset / 16,
{
    crate::bytes::be_value_of_joined(iv_bytes(crypto), be_bytes((offset / 16) as nat, 8));
    crate::bytes::be_bytes_read_back((offset / 16) as nat, 8);
    assert(pow(256, 8) == 0x1_0000_0000_0000_0000) by {
        reveal_with_fuel(pow, 9);
    }
    vstd::arithmetic::div_mod::lemma_small_mod(
        (offset / 16) as nat,
        0x1_0000_0000_0000_0000,
    );
}

/// Block `i` of `data`, filled up with zeros.
pub open spec fn zero_filled_block(data: Seq<u8>, i: int) -> Seq<u8> {
    Seq::new(16, |j: int| if 16 * i + j < data.len() { data[16 * i + j] } else { 0u8 })
}

/// The CBC message authentication code of the first `blocks` blocks of `data`.
pub open spec fn cbc_mac_of(data: Seq<u8>, key: Seq<u8>, iv: Seq<u8>, blocks: nat) -> Seq<u8>
    decreases blocks,
{
    if blocks == 0 {
        iv
    } else {
        aes128_encrypted(
            key,
            xor_bytes(
                zero_filled_block(data, blocks - 1),
                cbc_mac_of(data, key, iv, (blocks - 1) as nat),
            ),
        )
    }
}

/// The CBC message authentication code of `data`, whose last block is filled up with zeros.
pub open spec fn spec_cbc_mac(data: Seq<u8>, key: Seq<u8>, iv: Seq<u8>) -> Seq<u8> {
    cbc_mac_of(data, key, iv, ((data.len() + 15) / 16) as nat)
}

/// The CBC message authentication code of `data`, whose last block is filled up with zeros.
pub fn cbc_mac(data: &[u8], key: &[u8; 16], iv: &[u8; 16]) -> (mac: [u8; 16])
    ensures
        mac@ == spec_cbc_mac(data@, key@, iv@),
{
    let mut previous = *iv;
    let total: usize = data.len();
    let mut at: usize = 0;
    let ghost mut blocks: nat = 0;
    while at < total
        invariant
            at <= total == data@.len(),
            at == 16 * blocks || (at == data@.len() && blocks == (data@.len() + 15) / 16),
            previous@ == cbc_mac_of(data@, key@, iv@, blocks),
        decreases data@.len() - at,
    {
        let left: usize = total - at;
        let size: usize = if left < 16 {
            left
        } else {
            16
        };
        let mut block: [u8; 16] = [0u8; 16];
        let mut j: usize = 0;
        while j < size
            invariant
                j <= size <= 16,
                at + size <= total == data@.len(),
                forall|k: int| 0 <= k < j ==> block@[k] == data@[at + k],
                forall|k: int| j <= k < 16 ==> block@[k] == 0,
            decreases size - j,
        {
            block[j] = data[at + j];
            j = j + 1;
        }
        assert(block@ == zero_filled_block(data@, blocks as int));
        previous = encrypt_block(key, &xor_block(&block, &previous));
        at = at + size;
        proof {
            blocks = blocks + 1;
        }
    }
    previous
}

/// One step of a CBC message authentication code.
pub fn cbc_mac_block(block: &[u8; 16], key: &[u8; 16], previous: &[u8; 16]) -> (next: [u8; 16])
    ensures
        next@ == aes128_encrypted(key@, xor_bytes(block@, previous@)),
{
    encrypt_block(key, &xor_block(block, previous))
}

/// The block that the authentication code of each chunk of a file starts from.
pub open spec fn spec_mac_iv(crypto: FileCrypto) -> Seq<u8> {
    iv_bytes(crypto) + iv_bytes(crypto)
}

/// The block that the authentication code of each chunk of a file starts from.
pub fn mac_iv(crypto: &FileCrypto) -> (iv: [u8; 16])
    ensures
        iv@ == spec_mac_iv(*crypto),
{
    let a = word_to_bytes(crypto.iv_words[0]);
    let b = word_to_bytes(crypto.iv_words[1]);
    let iv: [u8; 16] = [
        a[0],
        a[1],
        a[2],
        a[3],
        b[0],
        b[1],
        b[2],
        b[3],
        a[0],
        a[1],
        a[2],
        a[3],
        b[0],
        b[1],
        b[2],
        b[3],
    ];
    assert(iv@ == spec_mac_iv(*crypto));
    iv
}

/// The plain text of `data`, encrypted in CBC mode from a block of zeros.
pub open spec fn cbc_decrypted(data: Seq<u8>, key: Seq<u8>) -> Seq<u8> {
    Seq::new(
        data.len(),
        |i: int|
            aes128_decrypted(key, data.subrange(i - i % 16, i - i % 16 + 16))[i % 16] ^ (if i < 16 {
                0u8
            } else {
                data[i - 16]
            }),
    )
}

/// The plain text of `data`, encrypted in CBC mode from a block of zeros.
pub fn aes_cbc_decrypt_zero_iv(data: &[u8], key: &[u8; 16]) -> (plain: Result<
    Vec<u8>,
    DownloadError,
>)
    ensures
        match plain {
            Ok(bytes) => data@.len() % 16 == 0 && bytes@ == cbc_decrypted(data@, key@),
            Err(error) => data@.len() % 16 != 0 && error@ == ErrorView::Message(
                "AES-CBC input is not block-aligned"@,
            ),
        },
{
    if data.len() % 16 != 0 {
        return Err(failure("AES-CBC input is not block-aligned"));
    }
    let mut previous: [u8; 16] = [0u8; 16];
    let mut output: Vec<u8> = Vec::new();
    let total: usize = data.len();
    let mut at: usize = 0;
    while at < total
        invariant
            at <= total == data@.len(),
            at % 16 == 0,
            data@.len() % 16 == 0,
            output@.len() == at,
            previous@.len() == 16,
            forall|k: int|
                0 <= k < 16 ==> previous@[k] == if at == 0 { 0u8 } else { data@[at - 16 + k] },
            forall|k: int| 0 <= k < at ==> output@[k] == cbc_decrypted(data@, key@)[k],
        decreases data@.len() - at,
    {
        let mut block: [u8; 16] = [0u8; 16];
        let mut j: usize = 0;
        while j < 16
            invariant
                j <= 16,
                at + 16 <= total == data@.len(),
                forall|k: int| 0 <= k < j ==> block@[k] == data@[at + k],
            decreases 16 - j,
        {
            block[j] = data[at + j];
            j = j + 1;
        }
        assert(block@ == data@.subrange(at as int, at + 16));
        let decrypted = decrypt_block(key, &block);
        let plain = xor_block(&decrypted, &previous);
        append_bytes(&mut output, plain.as_slice());
        assert forall|k: int| 0 <= k < at + 16 implies output@[k] == cbc_decrypted(
            data@,
            key@,
        )[k] by {
            if k >= at {
                assert(k - k % 16 == at && k % 16 == k - at);
            }
        }
        previous = block;
        at = at + 16;
    }
    assert(output@ == cbc_decrypted(data@, key@));
    Ok(output)
}

/// The running authentication code of a file that is read chunk by chunk.
pub struct MacCheck {
    global: [u8; 16],
}

/// The authentication code of a file's chunks: each chunk's own code, chained.
pub open spec fn chained_mac(chunks: Seq<Seq<u8>>, crypto: FileCrypto) -> Seq<u8>
    decreases chunks.len(),
{
    if chunks.len() == 0 {
        Seq::new(16, |i: int| 0u8)
    } else {
        aes128_encrypted(
            crypto.aes_key@,
            xor_bytes(
                spec_cbc_mac(chunks.last(), crypto.aes_key@, spec_mac_iv(crypto)),
                chained_mac(chunks.drop_last(), crypto),
            ),
        )
    }
}

/// The two words that a code of 16 bytes is condensed to.
pub open spec fn condensed(mac: Seq<u8>) -> Seq<u32> {
    seq![
        (be_value(mac.subrange(0, 4)) as u32) ^ (be_value(mac.subrange(4, 8)) as u32),
        (be_value(mac.subrange(8, 12)) as u32) ^ (be_value(mac.subrange(12, 16)) as u32),
    ]
}

/// Whether the chunks of a file are those that its key was made for.
pub open spec fn mac_matches(chunks: Seq<Seq<u8>>, crypto: FileCrypto) -> bool {
    condensed(chained_mac(chunks, crypto)) == crypto.meta_mac@
}

impl MacCheck {
    /// Whether the chunks that were taken in so far are `chunks`, as far as the code can tell.
    pub closed spec fn covers(self, chunks: Seq<Seq<u8>>, crypto: FileCrypto) -> bool {
        self.global@ == chained_mac(chunks, crypto)
    }

    /// The check of a file of which nothing was read yet.
    pub fn new(crypto: &FileCrypto) -> (check: MacCheck)
        ensures
            check.covers(Seq::empty(), *crypto),
    {
        let global: [u8; 16] = [0u8; 16];
        assert(global@ == chained_mac(Seq::empty(), *crypto));
        MacCheck { global }
    }

    /// Takes in the file's next chunk.
    pub fn absorb(&mut self, chunk: &[u8], crypto: &FileCrypto)
        ensures
            forall|chunks: Seq<Seq<u8>>| #[trigger]
                old(self).covers(chunks, *crypto) ==> final(self).covers(
                    chunks.push(chunk@),
                    *crypto,
                ),
    {
        let chunk_mac = cbc_mac(chunk, &crypto.aes_key, &mac_iv(crypto));
        self.global = cbc_mac_block(&chunk_mac, &crypto.aes_key, &self.global);
        assert forall|chunks: Seq<Seq<u8>>| #[trigger]
            old(self).covers(chunks, *crypto) implies self.covers(
            chunks.push(chunk@),
            *crypto,
        ) by {
            assert(chunks.push(chunk@).drop_last() == chunks);
        }
    }

    /// Accepts the file if its chunks are those that its key was made for. A file of `size` zero
    /// is always accepted.
    pub fn finish(&self, size: u64, crypto: &FileCrypto) -> (verdict: Result<(), DownloadError>)
        ensures
            forall|chunks: Seq<Seq<u8>>| #[trigger]
                self.covers(chunks, *crypto) ==> match verdict {
                    Ok(()) => size == 0 || mac_matches(chunks, *crypto),
                    Err(error) => size != 0 && !mac_matches(chunks, *crypto) && error@
                        == ErrorView::MacMismatch,
                },
    {
        if size == 0 {
            return Ok(());
        }
        let mac = self.global.as_slice();
        let first: u32 = bytes_to_word(mac, 0) ^ bytes_to_word(mac, 4);
        let second: u32 = bytes_to_word(mac, 8) ^ bytes_to_word(mac, 12);
        assert(condensed(self.global@) == seq![first, second]);
        let same = first == crypto.meta_mac[0] && second == crypto.meta_mac[1];
        assert(same == (condensed(self.global@) == crypto.meta_mac@)) by {
            assert(condensed(self.global@)[0] == first && condensed(self.global@)[1] == second);
            if same {
                assert(condensed(self.global@) == crypto.meta_mac@);
            }
        }
        if same {
            Ok(())
        } else {
            Err(DownloadError::MacMismatch)
        }
    }
}

/// The code of at most one block is that block, filled up with zeros and combined with the start,
/// encrypted once.
pub proof fn one_block_is_encrypted_once(
    data: Seq<u8>,
    key: Seq<u8>,
    iv: Seq<u8>,
    block: Seq<u8>,
)
    requires
        0 < data.len() <= 16,
        block.len() == 16,
        forall|i: int| 0 <= i < data.len() ==> block[i] == data[i] ^ iv[i],
        forall|i: int| data.len() <= i < 16 ==> block[i] == iv[i],
    ensures
        spec_cbc_mac(data, key, iv) == aes128_encrypted(key, block),
{
    assert((data.len() + 15) / 16 == 1);
    reveal_with_fuel(cbc_mac_of, 2);
    assert forall|i: int| data.len() <= i < 16 implies 0u8 ^ iv[i] == iv[i] by {
        let v = iv[i];
        assert(0u8 ^ v == v) by (bit_vector);
    }
    assert(xor_bytes(zero_filled_block(data, 0), iv) =~= block);
}

/// Of no bytes the code is the start itself.
pub proof fn nothing_leaves_the_start(key: Seq<u8>, iv: Seq<u8>)
    ensures
        spec_cbc_mac(Seq::empty(), key, iv) == iv,
{
}

proof fn lemma_mac_of_front(
    front: Seq<u8>,
    rest: Seq<u8>,
    key: Seq<u8>,
    iv: Seq<u8>,
    blocks: nat,
)
    requires
        16 * blocks <= front.len(),
    ensures
        cbc_mac_of(front + rest, key, iv, blocks) == cbc_mac_of(front, key, iv, blocks),
    decreases blocks,
{
    if blocks > 0 {
        lemma_mac_of_front(front, rest, key, iv, (blocks - 1) as nat);
        assert(zero_filled_block(front + rest, blocks - 1) =~= zero_filled_block(
            front,
            blocks - 1,
        ));
    }
}

proof fn lemma_mac_of_rest(
    front: Seq<u8>,
    rest: Seq<u8>,
    key: Seq<u8>,
    iv: Seq<u8>,
    whole: nat,
    blocks: nat,
)
    requires
        front.len() == 16 * whole,
    ensures
        cbc_mac_of(front + rest, key, iv, whole + blocks) == cbc_mac_of(
            rest,
            key,
            cbc_mac_of(front, key, iv, whole),
            blocks,
        ),
    decreases blocks,
{
    if blocks == 0 {
        lemma_mac_of_front(front, rest, key, iv, whole);
    } else {
        lemma_mac_of_rest(front, rest, key, iv, whole, (blocks - 1) as nat);
        assert((whole + blocks - 1) as nat == whole + (blocks - 1) as nat);
        assert(zero_filled_block(front + rest, whole + blocks - 1) =~= zero_filled_block(
            rest,
            blocks - 1,
        ));
    }
}

/// The code of whole blocks followed by further bytes is the code of the further bytes, started
/// from the code of the whole blocks.
pub proof fn codes_go_on_from_whole_blocks(
    front: Seq<u8>,
    rest: Seq<u8>,
    key: Seq<u8>,
    iv: Seq<u8>,
)
    requires
        front.len() % 16 == 0,
    ensures
        spec_cbc_mac(front + rest, key, iv) == spec_cbc_mac(
            rest,
            key,
            spec_cbc_mac(front, key, iv),
        ),
{
    let whole = (front.len() / 16) as nat;
    let blocks = ((rest.len() + 15) / 16) as nat;
    assert((front.len() + 15) / 16 == whole);
    assert(((front + rest).len() + 15) / 16 == whole + blocks);
    lemma_mac_of_rest(front, rest, key, iv, whole, blocks);
}

/// The codes of chunks, one after the other.
pub open spec fn joined_codes(codes: Seq<Seq<u8>>) -> Seq<u8>
    decreases codes.len(),
{
    if codes.len() == 0 {
        Seq::empty()
    } else {
        joined_codes(codes.drop_last()) + codes.last()
    }
}

/// The code of a file is the code, started from zeros, of the codes of its chunks, each started
/// from the file's own start.
pub proof fn file_code_is_the_code_of_chunk_codes(
    chunks: Seq<Seq<u8>>,
    codes: Seq<Seq<u8>>,
    crypto: FileCrypto,
)
    requires
        codes.len() == chunks.len(),
        forall|i: int|
            0 <= i < chunks.len() ==> (#[trigger] codes[i]).len() == 16 && codes[i] == spec_cbc_mac(
                chunks[i],
                crypto.aes_key@,
                spec_mac_iv(crypto),
            ),
    ensures
        chained_mac(chunks, crypto) == spec_cbc_mac(
            joined_codes(codes),
            crypto.aes_key@,
            seq![0u8, 0u8, 0u8, 0u8, 0u8, 0u8, 0u8, 0u8, 0u8, 0u8, 0u8, 0u8, 0u8, 0u8, 0u8, 0u8],
        ),
        joined_codes(codes).len() == 16 * chunks.len(),
    decreases chunks.len(),
{
    let zeros =
        seq![0u8, 0u8, 0u8, 0u8, 0u8, 0u8, 0u8, 0u8, 0u8, 0u8, 0u8, 0u8, 0u8, 0u8, 0u8, 0u8];
    if chunks.len() == 0 {
        assert(chained_mac(chunks, crypto) =~= zeros);
    } else {
        let n = chunks.len() - 1;
        let front = codes.drop_last();
        assert forall|i: int| 0 <= i < chunks.drop_last().len() implies (#[trigger] front[i]).len()
            == 16 && front[i] == spec_cbc_mac(
            chunks.drop_last()[i],
            crypto.aes_key@,
            spec_mac_iv(crypto),
        ) by {
            assert(front[i] == codes[i]);
        }
        file_code_is_the_code_of_chunk_codes(chunks.drop_last(), front, crypto);
        assert(codes[n].len() == 16);
        codes_go_on_from_whole_blocks(joined_codes(front), codes.last(), crypto.aes_key@, zeros);
        let before = spec_cbc_mac(joined_codes(front), crypto.aes_key@, zeros);
        one_block_is_encrypted_once(
            codes.last(),
            crypto.aes_key@,
            before,
            xor_bytes(codes.last(), before),
        );
    }
}

/// Combining the first word of a condensed code with the second quarter of the code gives its first
/// quarter back, and so for the other half.
pub proof fn condensing_combines_quarters(mac: Seq<u8>)
    requires
        mac.len() == 16,
    ensures
        condensed(mac).len() == 2,
        condensed(mac)[0] ^ (be_value(mac.subrange(4, 8)) as u32) == be_value(
            mac.subrange(0, 4),
        ),
        condensed(mac)[1] ^ (be_value(mac.subrange(12, 16)) as u32) == be_value(
            mac.subrange(8, 12),
        ),
{
    crate::bytes::be_value_writes_back(mac.subrange(0, 4));
    crate::bytes::be_value_writes_back(mac.subrange(8, 12));
    assert(pow(256, 4) == 0x1_0000_0000) by {
        reveal_with_fuel(pow, 5);
    }
    let a = be_value(mac.subrange(0, 4)) as u32;
    let b = be_value(mac.subrange(4, 8)) as u32;
    let c = be_value(mac.subrange(8, 12)) as u32;
    let d = be_value(mac.subrange(12, 16)) as u32;
    assert((a ^ b) ^ b == a) by (bit_vector);
    assert((c ^ d) ^ d == c) by (bit_vector);
}

/// A byte of a stretch is decrypted with the encryption of one block, which as a big-endian number
/// holds the two words of the file's key and then the number of blocks before that byte. Blocks
/// are counted from the file's start.
pub proof fn every_byte_has_its_counter(
    data: Seq<u8>,
    crypto: FileCrypto,
    offset: u64,
    i: int,
    counter: Seq<u8>,
)
    requires
        0 <= i < data.len(),
        offset % 16 == 0,
        offset + i <= u64::MAX,
        counter.len() == 16,
        be_value(counter) == crypto.iv_words@[0] * 0x1_0000_0000_0000_0000_0000_0000
            + crypto.iv_words@[1] * 0x1_0000_0000_0000_0000 + (offset + i) / 16,
    ensures
        range_decrypted(data, crypto, offset).len() == data.len(),
        range_decrypted(data, crypto, offset)[i] == data[i] ^ aes128_encrypted(
            crypto.aes_key@,
            counter,
        )[(offset + i) % 16],
{
    let w0 = crypto.iv_words@[0];
    let w1 = crypto.iv_words@[1];
    lemma_counter_value(crypto, offset);
    lemma_iv_value(crypto);
    assert(pow(256, 8) == 0x1_0000_0000_0000_0000) by {
        reveal_with_fuel(pow, 9);
    }
    assert((offset + i) / 16 == offset / 16 + i / 16);
    assert((offset + i) % 16 == i % 16);
    assert(be_value(counter_block(crypto, offset)) + i / 16 == be_value(counter));
    crate::bytes::be_value_writes_back(counter);
    vstd::arithmetic::div_mod::lemma_small_mod(be_value(counter), pow(256, 16) as nat);
}

proof fn lemma_iv_value(crypto: FileCrypto)
    ensures
        be_value(iv_bytes(crypto)) == crypto.iv_words@[0] * 0x1_0000_0000 + crypto.iv_words@[1],
        iv_bytes(crypto).len() == 8,
{
    let w0 = crypto.iv_words@[0] as nat;
    let w1 = crypto.iv_words@[1] as nat;
    assert(pow(256, 4) == 0x1_0000_0000) by {
        reveal_with_fuel(pow, 5);
    }
    crate::bytes::be_value_of_joined(be_bytes(w0, 4), be_bytes(w1, 4));
    crate::bytes::be_bytes_read_back(w0, 4);
    crate::bytes::be_bytes_read_back(w1, 4);
    vstd::arithmetic::div_mod::lemma_small_mod(w0, 0x1_0000_0000);
    vstd::arithmetic::div_mod::lemma_small_mod(w1, 0x1_0000_0000);
}

/// The start of the codes of a file's chunks holds the two words of its key twice: as a big-endian
/// number it is their number, shifted up by 64 bits, plus itself.
pub proof fn code_start_holds_the_words_twice(crypto: FileCrypto)
    ensures
        spec_mac_iv(crypto).len() == 16,
        be_value(spec_mac_iv(crypto)) == (crypto.iv_words@[0] * 0x1_0000_0000
            + crypto.iv_words@[1]) * 0x1_0000_0000_0000_0001,
{
    lemma_iv_value(crypto);
    crate::bytes::be_value_of_joined(iv_bytes(crypto), iv_bytes(crypto));
    assert(pow(256, 8) == 0x1_0000_0000_0000_0000) by {
        reveal_with_fuel(pow, 9);
    }
}

/// Decrypting undoes encrypting: text that was encrypted block by block, each block combined with
/// the encrypted block before it and the first with nothing, decrypts to what it was.
pub proof fn chained_blocks_decrypt(plain: Seq<u8>, encrypted: Seq<u8>, key: Seq<u8>)
    requires
        plain.len() == encrypted.len(),
        plain.len() % 16 == 0,
        forall|k: int|
            0 <= k < plain.len() / 16 ==> aes128_decrypted(
                key,
                #[trigger] encrypted.subrange(16 * k, 16 * k + 16),
            ) == (if k == 0 {
                plain.subrange(0, 16)
            } else {
                xor_bytes(
                    plain.subrange(16 * k, 16 * k + 16),
                    encrypted.subrange(16 * (k - 1), 16 * (k - 1) + 16),
                )
            }),
    ensures
        cbc_decrypted(encrypted, key) == plain,
{
    assert forall|i: int| 0 <= i < plain.len() implies cbc_decrypted(encrypted, key)[i]
        == plain[i] by {
        let k = i / 16;
        assert(i - i % 16 == 16 * k);
        assert(0 <= k < plain.len() / 16);
        let block = encrypted.subrange(16 * k, 16 * k + 16);
        let p = plain[i];
        if k == 0 {
            assert(p ^ 0u8 == p) by (bit_vector);
        } else {
            let before = encrypted.subrange(16 * (k - 1), 16 * (k - 1) + 16);
            assert(before[i % 16] == encrypted[i - 16]);
            let c = encrypted[i - 16];
            assert((p ^ c) ^ c == p) by (bit_vector);
        }
    }
    assert(cbc_decrypted(encrypted, key) =~= plain);
}

/// HMAC with SHA-256 is a digest of a digest: both are taken behind a block that is the key, filled
/// up with zeros, with some bits of each byte turned over.
pub proof fn hmac_sha256_nests_digests(
    key: Seq<u8>,
    data: Seq<u8>,
    inner: Seq<u8>,
    outer: Seq<u8>,
)
    requires
        key.len() <= 64,
        inner.len() == 64,
        outer.len() == 64,
        forall|i: int|
            0 <= i < 64 ==> #[trigger] inner[i] ^ 0x36 == (if i < key.len() { key[i] } else { 0u8 }),
        forall|i: int|
            0 <= i < 64 ==> #[trigger] outer[i] ^ 0x5c == (if i < key.len() { key[i] } else { 0u8 }),
    ensures
        spec_hmac_sha256(key, data) == sha256(outer + sha256(inner + data)),
{
    let block = sha256_block_key(key);
    lemma_turned_over(block, inner, 0x36);
    lemma_turned_over(block, outer, 0x5c);
}

/// HMAC with SHA-512 is a digest of a digest: both are taken behind a block that is the key, filled
/// up with zeros, with some bits of each byte turned over.
pub proof fn hmac_sha512_nests_digests(
    key: Seq<u8>,
    data: Seq<u8>,
    inner: Seq<u8>,
    outer: Seq<u8>,
)
    requires
        key.len() <= 128,
        inner.len() == 128,
        outer.len() == 128,
        forall|i: int|
            0 <= i < 128 ==> #[trigger] inner[i] ^ 0x36 == (if i < key.len() { key[i] } else {
                0u8
            }),
        forall|i: int|
            0 <= i < 128 ==> #[trigger] outer[i] ^ 0x5c == (if i < key.len() { key[i] } else {
                0u8
            }),
    ensures
        spec_hmac_sha512(key, data) == sha512(outer + sha512(inner + data)),
{
    let block = sha512_block_key(key);
    lemma_turned_over(block, inner, 0x36);
    lemma_turned_over(block, outer, 0x5c);
}

proof fn lemma_turned_over(block: Seq<u8>, turned: Seq<u8>, pad: u8)
    requires
        block.len() == turned.len(),
        forall|i: int| 0 <= i < block.len() ==> #[trigger] turned[i] ^ pad == block[i],
    ensures
        padded_key(block, pad) == turned,
{
    assert forall|i: int| 0 <= i < block.len() implies padded_key(block, pad)[i] == turned[i] by {
        let t = turned[i];
        assert(turned[i] ^ pad == block[i]);
        assert(pad ^ (t ^ pad) == t) by (bit_vector);
    }
    assert(padded_key(block, pad) =~= turned);
}

/// A key that is longer than a digest's block counts as its digest.
pub proof fn long_keys_count_as_their_digests(key: Seq<u8>, data: Seq<u8>)
    ensures
        key.len() > 64 && sha256(key).len() <= 64 ==> spec_hmac_sha256(key, data)
            == spec_hmac_sha256(sha256(key), data),
        key.len() > 128 && sha512(key).len() <= 128 ==> spec_hmac_sha512(key, data)
            == spec_hmac_sha512(sha512(key), data),
{
}

/// With one round, the first block that PBKDF2 derives is an HMAC of the salt with the number one
/// behind it, and every further round combines it with the HMAC of what the round before gave.
pub proof fn rounds_are_combined(
    password: Seq<u8>,
    salt: Seq<u8>,
    results: Seq<Seq<u8>>,
    j: int,
)
    requires
        results.len() > 0,
        results[0] == spec_hmac_sha512(password, salt + seq![0u8, 0u8, 0u8, 1u8]),
        forall|k: int|
            0 < k < results.len() ==> #[trigger] results[k] == spec_hmac_sha512(
                password,
                results[k - 1],
            ),
        forall|k: int| 0 <= k < results.len() ==> (#[trigger] results[k]).len() == 64,
        0 <= j < 64,
    ensures
        spec_pbkdf2(password, salt, results.len(), 64).len() == 64,
        spec_pbkdf2(password, salt, 1, 64)[j] == results[0][j],
        results.len() > 1 ==> spec_pbkdf2(password, salt, results.len(), 64)[j] == spec_pbkdf2(
            password,
            salt,
            (results.len() - 1) as nat,
            64,
        )[j] ^ results.last()[j],
{
    let rounds = results.len();
    assert(be_bytes(1, 4) =~= seq![0u8, 0u8, 0u8, 1u8]) by {
        reveal_with_fuel(be_bytes, 5);
    }
    lemma_round_results(password, salt, results, (rounds - 1) as nat);
    lemma_block_len(password, salt, results, rounds);
    lemma_block_len(password, salt, results, 1);
    lemma_one_block(password, salt, rounds);
    lemma_one_block(password, salt, 1);
    if rounds > 1 {
        lemma_block_len(password, salt, results, (rounds - 1) as nat);
        lemma_one_block(password, salt, (rounds - 1) as nat);
    }
}

proof fn lemma_one_block(password: Seq<u8>, salt: Seq<u8>, rounds: nat)
    requires
        pbkdf2_block(password, salt, 1, rounds).len() == 64,
    ensures
        spec_pbkdf2(password, salt, rounds, 64) == pbkdf2_block(password, salt, 1, rounds),
{
    reveal_with_fuel(pbkdf2_blocks, 2);
    assert((64nat + 63) / 64 == 1);
    assert(spec_pbkdf2(password, salt, rounds, 64) =~= pbkdf2_block(password, salt, 1, rounds));
}

proof fn lemma_round_results(
    password: Seq<u8>,
    salt: Seq<u8>,
    results: Seq<Seq<u8>>,
    k: nat,
)
    requires
        k < results.len(),
        results[0] == spec_hmac_sha512(password, salt + be_bytes(1, 4)),
        forall|k: int|
            0 < k < results.len() ==> #[trigger] results[k] == spec_hmac_sha512(
                password,
                results[k - 1],
            ),
    ensures
        pbkdf2_round(password, salt, 1, k + 1) == results[k as int],
    decreases k,
{
    if k > 0 {
        lemma_round_results(password, salt, results, (k - 1) as nat);
        assert(results[k as int] == spec_hmac_sha512(password, results[k - 1]));
        assert((k + 1 - 1) as nat == (k - 1) as nat + 1);
    }
}

proof fn lemma_block_len(
    password: Seq<u8>,
    salt: Seq<u8>,
    results: Seq<Seq<u8>>,
    rounds: nat,
)
    requires
        1 <= rounds <= results.len(),
        results[0] == spec_hmac_sha512(password, salt + be_bytes(1, 4)),
        results[0].len() == 64,
        forall|k: int|
            0 < k < results.len() ==> #[trigger] results[k] == spec_hmac_sha512(
                password,
                results[k - 1],
            ),
    ensures
        pbkdf2_block(password, salt, 1, rounds).len() == 64,
    decreases rounds,
{
    if rounds > 1 {
        lemma_block_len(password, salt, results, (rounds - 1) as nat);
    } else {
        lemma_round_results(password, salt, results, 0);
    }
}

/// A file is accepted exactly if both words in its key are those that its code is condensed to:
/// each word combined with one quarter of the code gives the quarter before it.
pub proof fn both_words_of_a_code_count(chunks: Seq<Seq<u8>>, crypto: FileCrypto)
    requires
        chained_mac(chunks, crypto).len() == 16,
    ensures
        ({
            let code = chained_mac(chunks, crypto);
            mac_matches(chunks, crypto) <==> {
                &&& crypto.meta_mac@[0] ^ (be_value(code.subrange(4, 8)) as u32) == be_value(
                    code.subrange(0, 4),
                ) as u32
                &&& crypto.meta_mac@[1] ^ (be_value(code.subrange(12, 16)) as u32) == be_value(
                    code.subrange(8, 12),
                ) as u32
            }
        }),
{
    let code = chained_mac(chunks, crypto);
    let a = be_value(code.subrange(0, 4)) as u32;
    let b = be_value(code.subrange(4, 8)) as u32;
    let c = be_value(code.subrange(8, 12)) as u32;
    let d = be_value(code.subrange(12, 16)) as u32;
    let first = crypto.meta_mac@[0];
    let second = crypto.meta_mac@[1];
    assert(first ^ b == a <==> a ^ b == first) by (bit_vector);
    assert(second ^ d == c <==> c ^ d == second) by (bit_vector);
    if mac_matches(chunks, crypto) {
        assert(condensed(code)[0] == first && condensed(code)[1] == second);
    }
    if a ^ b == first && c ^ d == second {
        assert(condensed(code) =~= crypto.meta_mac@);
    }
}

/// The code of data that is taken in two parts, the first of whole blocks, is the code of the
/// second part started from the code of the first.
pub proof fn codes_of_parts_are_chained(
    front: &[u8],
    rest: &[u8],
    all: &[u8],
    key: &[u8; 16],
    iv: &[u8; 16],
    front_code: [u8; 16],
    rest_code: [u8; 16],
    code: [u8; 16],
)
    requires
        front@.len() % 16 == 0,
        all@ == front@ + rest@,
        call_ensures(cbc_mac, (front, key, iv), front_code),
        call_ensures(cbc_mac, (rest, key, &front_code), rest_code),
        call_ensures(cbc_mac, (all, key, iv), code),
    ensures
        code@ == rest_code@,
{
    codes_go_on_from_whole_blocks(front@, rest@, key@, iv@);
}

/// The code of data of one block or less is that block, filled up with zeros and combined with the
/// start, encrypted once. Without data the code is the start.
pub proof fn code_of_one_block(data: &[u8], key: &[u8; 16], iv: &[u8; 16], code: [u8; 16])
    requires
        call_ensures(cbc_mac, (data, key, iv), code),
        data@.len() <= 16,
    ensures
        data@.len() > 0 ==> code@ == aes128_encrypted(
            key@,
            xor_bytes(data@ + Seq::new((16 - data@.len()) as nat, |i: int| 0u8), iv@),
        ),
        data@.len() == 0 ==> code@ == iv@,
{
    reveal_with_fuel(cbc_mac_of, 2);
    if data@.len() > 0 {
        assert((data@.len() + 15) / 16 == 1);
        assert(zero_filled_block(data@, 0) =~= data@ + Seq::new(
            (16 - data@.len()) as nat,
            |i: int| 0u8,
        ));
    } else {
        assert((data@.len() + 15) / 16 == 0);
    }
}

/// Two runs of bytes are the same exactly if they have one length and the same byte at each place.
pub proof fn every_byte_is_compared(left: &[u8], right: &[u8], same: bool)
    requires
        call_ensures(constant_time_eq, (left, right), same),
    ensures
        same <==> left@.len() == right@.len() && forall|i: int|
            0 <= i < left@.len() ==> #[trigger] left@[i] == right@[i],
{
    if left@.len() == right@.len() && forall|i: int|
        0 <= i < left@.len() ==> #[trigger] left@[i] == right@[i] {
        assert(left@ =~= right@);
    }
}

/// The first round of a block takes the salt with the number of the block behind it, in four bytes
/// with the highest first.
pub proof fn blocks_are_numbered(
    password: Seq<u8>,
    salt: Seq<u8>,
    number: Seq<u8>,
    rounds: nat,
)
    requires
        number.len() == 4,
    ensures
        pbkdf2_block(password, salt, be_value(number), 1) == spec_hmac_sha512(
            password,
            salt + number,
        ),
        rounds <= 1 ==> pbkdf2_block(password, salt, be_value(number), rounds) == spec_hmac_sha512(
            password,
            salt + number,
        ),
{
    crate::bytes::be_value_writes_back(number);
}

/// A derived key is as long as is asked, and byte `j` of it is byte `j % 64` of the block that it
/// falls into, where blocks are counted from one and have 64 bytes.
pub proof fn derived_keys_are_cut_from_blocks(
    password: Seq<u8>,
    salt: Seq<u8>,
    rounds: nat,
    len: nat,
    j: int,
)
    requires
        forall|index: nat| (#[trigger] pbkdf2_block(password, salt, index, rounds)).len() == 64,
        0 <= j < len,
    ensures
        spec_pbkdf2(password, salt, rounds, len).len() == len,
        spec_pbkdf2(password, salt, rounds, len)[j] == pbkdf2_block(
            password,
            salt,
            (j / 64 + 1) as nat,
            rounds,
        )[j % 64],
{
    let count = ((len + 63) / 64) as nat;
    lemma_blocks_in_order(password, salt, rounds, count, j);
}

proof fn lemma_blocks_in_order(
    password: Seq<u8>,
    salt: Seq<u8>,
    rounds: nat,
    count: nat,
    j: int,
)
    requires
        forall|index: nat| (#[trigger] pbkdf2_block(password, salt, index, rounds)).len() == 64,
    ensures
        pbkdf2_blocks(password, salt, rounds, count).len() == 64 * count,
        0 <= j < 64 * count ==> pbkdf2_blocks(password, salt, rounds, count)[j] == pbkdf2_block(
            password,
            salt,
            (j / 64 + 1) as nat,
            rounds,
        )[j % 64],
    decreases count,
{
    if count > 0 {
        lemma_blocks_in_order(password, salt, rounds, (count - 1) as nat, j);
        assert(pbkdf2_block(password, salt, count, rounds).len() == 64);
        if 64 * (count - 1) <= j < 64 * count {
            assert(j / 64 == count - 1);
            assert(j % 64 == j - 64 * (count - 1));
        }
    }
}

/// Decrypting a part of a file a second time at the same place gives back what it was.
pub proof fn decrypting_again_restores(
    once: &mut Vec<u8>,
    twice: &mut Vec<u8>,
    crypto: &FileCrypto,
    offset: u64,
    done: (),
)
    requires
        call_ensures(decrypt_range, (once, crypto, offset), done),
        call_ensures(decrypt_range, (twice, crypto, offset), done),
        old(twice)@ == final(once)@,
    ensures
        final(twice)@ == old(once)@,
        final(once)@.len() == old(once)@.len(),
{
    decrypting_twice_restores(old(once)@, *crypto, offset);
}

} // verus!
