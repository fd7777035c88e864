//! Big-endian numbers and bytewise combination.
use vstd::arithmetic::power::*;
use vstd::prelude::*;

verus! {

/// The number whose big-endian digits to base 256 are `s`.
pub open spec fn be_value(s: Seq<u8>) -> nat
    decreases s.len(),
{
    if s.len() == 0 {
        0
    } else {
        be_value(s.drop_last()) * 256 + s.last() as nat
    }
}

/// The last `width` big-endian digits of `n` to base 256.
pub open spec fn be_bytes(n: nat, width: nat) -> Seq<u8>
    decreases width,
{
    if width == 0 {
        Seq::empty()
    } else {
        be_bytes(n / 256, (width - 1) as nat).push((n % 256) as u8)
    }
}

/// Writing a number takes the width that was asked for, and reading it gives the number back,
/// less what did not fit.
pub proof fn be_bytes_read_back(n: nat, width: nat)
    ensures
        be_bytes(n, width).len() == width,
        be_value(be_bytes(n, width)) == n % (pow(256, width) as nat),
        pow(256, width) > 0,
    decreases width,
{
    lemma_pow_positive(256, width);
    if width == 0 {
        lemma_pow0(256);
    } else {
        let w = (width - 1) as nat;
        be_bytes_read_back(n / 256, w);
        assert(be_bytes(n, width).drop_last() == be_bytes(n / 256, w));
        lemma_pow_adds(256, w, 1);
        lemma_pow1(256);
        let p = pow(256, w) as nat;
        assert(pow(256, width) == p * 256);
        lemma_digit_split(n as int, p as int);
    }
}

proof fn lemma_digit_split(n: int, p: int)
    requires
        n >= 0,
        p > 0,
    ensures
        n % (p * 256) == ((n / 256) % p) * 256 + n % 256,
{
    let high = n / 256;
    let low = n % 256;
    vstd::arithmetic::div_mod::lemma_fundamental_div_mod(high, p);
    let q = high / p;
    let r = high % p;
    vstd::arithmetic::div_mod::lemma_mod_bound(high, p);
    assert(n == q * (p * 256) + (r * 256 + low)) by (nonlinear_arith)
        requires
            n == high * 256 + low,
            high == p * q + r,
    ;
    assert(0 <= r * 256 + low < p * 256);
    vstd::arithmetic::div_mod::lemma_fundamental_div_mod_converse(n, p * 256, q, r * 256 + low);
}

/// Reading digits gives a number that fits them, and writing that number gives the digits back.
pub proof fn be_value_writes_back(s: Seq<u8>)
    ensures
        be_value(s) < pow(256, s.len()),
        be_bytes(be_value(s), s.len()) == s,
    decreases s.len(),
{
    if s.len() == 0 {
        lemma_pow0(256);
    } else {
        let rest = s.drop_last();
        be_value_writes_back(rest);
        lemma_pow_adds(256, rest.len(), 1);
        lemma_pow1(256);
        assert(be_value(s) / 256 == be_value(rest));
        assert(be_value(s) % 256 == s.last());
        assert(rest.push(s.last()) == s);
    }
}

/// The digits of one number followed by those of another.
pub proof fn be_value_of_joined(high: Seq<u8>, low: Seq<u8>)
    ensures
        be_value(high + low) == be_value(high) * pow(256, low.len()) + be_value(low),
    decreases low.len(),
{
    if low.len() == 0 {
        assert(high + low == high);
        lemma_pow0(256);
    } else {
        let rest = low.drop_last();
        be_value_of_joined(high, rest);
        assert((high + low).drop_last() == high + rest);
        lemma_pow_adds(256, rest.len(), 1);
        lemma_pow1(256);
        let p = pow(256, rest.len());
        assert((be_value(high) * p + be_value(rest)) * 256 == be_value(high) * (p * 256)
            + be_value(rest) * 256) by (nonlinear_arith);
    }
}

/// The four big-endian bytes of `word`.
pub fn word_to_bytes(word: u32) -> (bytes: [u8; 4])
    ensures
        bytes@ == be_bytes(word as nat, 4),
{
    let bytes: [u8; 4] = [
        (word / 0x100_0000) as u8,
        (word / 0x1_0000 % 0x100) as u8,
        (word / 0x100 % 0x100) as u8,
        (word % 0x100) as u8,
    ];
    proof {
        reveal_with_fuel(be_bytes, 5);
        let n = word as nat;
        assert(n / 256 / 256 == n / 0x1_0000);
        assert(n / 256 / 256 / 256 == n / 0x100_0000);
        assert(bytes@ == be_bytes(n, 4));
    }
    bytes
}

/// The eight big-endian bytes of `n`.
pub fn long_to_bytes(n: u64) -> (bytes: [u8; 8])
    ensures
        bytes@ == be_bytes(n as nat, 8),
{
    let high = word_to_bytes((n / 0x1_0000_0000) as u32);
    let low = word_to_bytes((n % 0x1_0000_0000) as u32);
    let bytes: [u8; 8] = [high[0], high[1], high[2], high[3], low[0], low[1], low[2], low[3]];
    proof {
        be_bytes_of_two(n as nat, 4, 4);
        assert(pow(256, 4) == 0x1_0000_0000) by {
            reveal(pow);
            reveal_with_fuel(pow, 5);
        }
        assert(bytes@ == high@ + low@);
        be_bytes_of_remainder(n as nat, 4);
    }
    bytes
}

/// What is left of a number after taking its last digits away, followed by those digits.
proof fn be_bytes_of_two(n: nat, high: nat, low: nat)
    ensures
        pow(256, low) > 0,
        be_bytes(n, high + low) == be_bytes(n / (pow(256, low) as nat), high) + be_bytes(n, low),
    decreases low,
{
    lemma_pow_positive(256, low);
    if low == 0 {
        lemma_pow0(256);
        vstd::arithmetic::div_mod::lemma_div_basics(n as int);
        assert(n / (pow(256, low) as nat) == n);
        assert(be_bytes(n, high) + be_bytes(n, 0) == be_bytes(n, high));
    } else {
        let l = (low - 1) as nat;
        be_bytes_of_two(n / 256, high, l);
        lemma_pow_adds(256, l, 1);
        lemma_pow1(256);
        lemma_pow_positive(256, l);
        let p = pow(256, l) as nat;
        vstd::arithmetic::div_mod::lemma_div_denominator(n as int, 256, p as int);
        assert(256 * p == p * 256);
        assert(n / 256 / p == n / (pow(256, low) as nat));
        assert(be_bytes(n, high + low) == be_bytes(n / 256, (high + l) as nat).push(
            (n % 256) as u8,
        ));
        assert(be_bytes(n, high + low) == be_bytes(n / (pow(256, low) as nat), high) + be_bytes(
            n,
            low,
        ));
    }
}

/// Only the remainder of a number shows in its last digits.
proof fn be_bytes_of_remainder(n: nat, width: nat)
    ensures
        pow(256, width) > 0,
        be_bytes(n % (pow(256, width) as nat), width) == be_bytes(n, width),
{
    be_bytes_read_back(n, width);
    be_value_writes_back(be_bytes(n, width));
}

/// The word whose big-endian bytes start at `at`.
pub fn bytes_to_word(bytes: &[u8], at: usize) -> (word: u32)
    requires
        at + 4 <= bytes@.len(),
    ensures
        word == be_value(bytes@.subrange(at as int, at + 4)),
{
    proof {
        reveal_with_fuel(be_value, 5);
        let s = bytes@.subrange(at as int, at + 4);
        assert(s.drop_last().drop_last().drop_last().drop_last() == Seq::<u8>::empty());
        assert(be_value(s) == ((s[0] as nat * 256 + s[1]) * 256 + s[2]) * 256 + s[3]);
    }
    ((bytes[at] as u32 * 256 + bytes[at + 1] as u32) * 256 + bytes[at + 2] as u32) * 256
        + bytes[at + 3] as u32
}

/// Two runs of bytes of one length, combined bit by bit with exclusive or.
pub open spec fn xor_bytes(left: Seq<u8>, right: Seq<u8>) -> Seq<u8> {
    Seq::new(left.len(), |i: int| left[i] ^ right[i])
}

/// Combining with the same bytes twice changes nothing.
pub proof fn xor_twice(data: Seq<u8>, mask: Seq<u8>)
    requires
        data.len() == mask.len(),
    ensures
        xor_bytes(xor_bytes(data, mask), mask) == data,
{
    assert forall|i: int| 0 <= i < data.len() implies xor_bytes(xor_bytes(data, mask), mask)[i]
        == data[i] by {
        let d = data[i];
        let m = mask[i];
        assert((d ^ m) ^ m == d) by (bit_vector);
    }
    assert(xor_bytes(xor_bytes(data, mask), mask) == data);
}

/// Two blocks of bytes combined with exclusive or.
pub fn xor_block(left: &[u8; 16], right: &[u8; 16]) -> (block: [u8; 16])
    ensures
        block@ == xor_bytes(left@, right@),
{
    let mut block = *left;
    let mut i: usize = 0;
    while i < 16
        invariant
            i <= 16,
            forall|j: int| 0 <= j < i ==> block@[j] == left@[j] ^ right@[j],
            forall|j: int| i <= j < 16 ==> block@[j] == left@[j],
        decreases 16 - i,
    {
        block[i] = block[i] ^ right[i];
        i = i + 1;
    }
    assert(block@ == xor_bytes(left@, right@));
    block
}

/// The bytes of `data` from `from` on, up to `to`.
pub fn bytes_between(data: &[u8], from: usize, to: usize) -> (part: Vec<u8>)
    requires
        from <= to <= data@.len(),
    ensures
        part@ == data@.subrange(from as int, to as int),
{
    let mut part: Vec<u8> = Vec::new();
    let mut i: usize = from;
    while i < to
        invariant
            from <= i <= to <= data@.len(),
            part@ == data@.subrange(from as int, i as int),
        decreases to - i,
    {
        part.push(data[i]);
        i = i + 1;
        assert(part@ == data@.subrange(from as int, i as int));
    }
    part
}

/// Appends the bytes of `more`.
pub fn append_bytes(out: &mut Vec<u8>, more: &[u8])
    ensures
        final(out)@ == old(out)@ + more@,
{
    let ghost before = out@;
    let mut i: usize = 0;
    while i < more.len()
        invariant
            i <= more@.len(),
            out@ == before + more@.take(i as int),
        decreases more@.len() - i,
    {
        out.push(more[i]);
        i = i + 1;
        assert(out@ == before + more@.take(i as int));
    }
    assert(more@.take(more@.len() as int) == more@);
}

} // verus!
