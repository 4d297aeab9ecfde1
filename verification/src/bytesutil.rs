//! Byte-level helpers shared by the hashing, encoding and certificate code:
//! little-endian integer encodings, decimal rendering, and vector equality.

use vstd::prelude::*;
use vstd::arithmetic::div_mod::lemma_div_denominator;

verus! {

/// 256 raised to `i`; the place value of byte `i` in a little-endian encoding.
pub open spec fn pow256(i: nat) -> int
    decreases i,
{
    if i == 0 {
        1
    } else {
        256 * pow256((i - 1) as nat)
    }
}

/// The 8-byte little-endian encoding of `x`.
pub open spec fn u64_le_spec(x: u64) -> Seq<u8> {
    Seq::new(8, |i: int| ((x as int / pow256(i as nat)) % 256) as u8)
}

/// The value a little-endian byte string denotes.
pub open spec fn le_value(s: Seq<u8>) -> int
    decreases s.len(),
{
    if s.len() == 0 {
        0
    } else {
        s[0] + 256 * le_value(s.drop_first())
    }
}

/// The decimal digits of `x`, most significant first, as ASCII bytes.
pub open spec fn dec_spec(x: nat) -> Seq<u8>
    decreases x,
{
    if x < 10 {
        seq![(48 + x) as u8]
    } else {
        dec_spec(x / 10) + seq![(48 + x % 10) as u8]
    }
}

pub proof fn lemma_pow256_pos(i: nat)
    ensures
        pow256(i) >= 1,
    decreases i,
{
    if i > 0 {
        lemma_pow256_pos((i - 1) as nat);
    }
}

pub proof fn lemma_pow256_mono(i: nat, j: nat)
    requires
        i <= j,
    ensures
        pow256(i) <= pow256(j),
    decreases j,
{
    if i < j {
        lemma_pow256_mono(i, (j - 1) as nat);
        lemma_pow256_pos((j - 1) as nat);
    }
}

/// Compare two byte vectors for equality of their contents.
pub fn bytes_eq(a: &Vec<u8>, b: &Vec<u8>) -> (r: bool)
    ensures
        r == (a@ == b@),
{
    if a.len() != b.len() {
        return false;
    }
    let mut i: usize = 0;
    while i < a.len()
        invariant
            a@.len() == b@.len(),
            i <= a@.len(),
            forall|k: int| 0 <= k < i ==> a@[k] == b@[k],
        decreases a@.len() - i,
    {
        if a[i] != b[i] {
            return false;
        }
        i = i + 1;
    }
    proof {
        assert(a@ =~= b@);
    }
    true
}

/// Append the contents of `src` to `dst`.
pub fn vec_extend(dst: &mut Vec<u8>, src: &Vec<u8>)
    ensures
        final(dst)@ == old(dst)@ + src@,
{
    let mut i: usize = 0;
    while i < src.len()
        invariant
            i <= src@.len(),
            dst@ == old(dst)@ + src@.take(i as int),
        decreases src@.len() - i,
    {
        dst.push(src[i]);
        proof {
            assert(old(dst)@ + src@.take(i as int) + seq![src@[i as int]] =~= old(dst)@
                + src@.take(i + 1));
        }
        i = i + 1;
    }
    proof {
        assert(src@.take(src@.len() as int) =~= src@);
    }
}

/// Copy a byte vector.
pub fn bytes_clone(v: &Vec<u8>) -> (r: Vec<u8>)
    ensures
        r@ == v@,
{
    let mut r: Vec<u8> = Vec::new();
    vec_extend(&mut r, v);
    proof {
        assert(r@ =~= v@);
    }
    r
}

/// Encode `x` as 8 little-endian bytes.
pub fn u64_to_le(x: u64) -> (r: Vec<u8>)
    ensures
        r@ == u64_le_spec(x),
{
    let mut r: Vec<u8> = Vec::new();
    let mut v: u64 = x;
    let mut i: usize = 0;
    while i < 8
        invariant
            i <= 8,
            v == x as int / pow256(i as nat),
            r@.len() == i,
            forall|k: int| 0 <= k < i ==> r@[k] == ((x as int / pow256(k as nat)) % 256) as u8,
        decreases 8 - i,
    {
        proof {
            lemma_pow256_pos(i as nat);
            lemma_div_denominator(x as int, pow256(i as nat), 256);
        }
        r.push((v % 256) as u8);
        v = v / 256;
        i = i + 1;
    }
    proof {
        assert(r@ =~= u64_le_spec(x));
    }
    r
}

/// Read the first 8 bytes of `s` as a little-endian 64-bit value.
pub fn le_to_u64(s: &Vec<u8>) -> (r: u64)
    requires
        s@.len() >= 8,
    ensures
        r == le_value(s@.take(8)),
{
    let mut acc: u64 = 0;
    let mut j: usize = 8;
    while j > 0
        invariant
            j <= 8,
            s@.len() >= 8,
            acc == le_value(s@.subrange(j as int, 8)),
            acc < pow256((8 - j) as nat),
        decreases j,
    {
        proof {
            lemma_le_value_bound(s@.subrange(j - 1, 8));
            assert(s@.subrange(j - 1, 8).drop_first() =~= s@.subrange(j as int, 8));
            assert(pow256(8) == 0x1_0000_0000_0000_0000) by {
                reveal_with_fuel(pow256, 9);
            }
            lemma_pow256_mono((8 - j + 1) as nat, 8);
            assert(pow256((8 - j + 1) as nat) == 256 * pow256((8 - j) as nat));
        }
        acc = acc * 256 + (s[j - 1] as u64);
        j = j - 1;
    }
    proof {
        assert(s@.subrange(0, 8) =~= s@.take(8));
    }
    acc
}

/// Each byte of a little-endian string is the matching digit of its
/// value.
pub proof fn lemma_le_digit(s: Seq<u8>, i: int)
    requires
        0 <= i < s.len(),
    ensures
        (le_value(s) / pow256(i as nat)) % 256 == s[i],
    decreases i,
{
    lemma_le_value_bound(s.drop_first());
    if i == 0 {
        assert(le_value(s) % 256 == s[0]) by (nonlinear_arith)
            requires
                le_value(s) == s[0] + 256 * le_value(s.drop_first()),
                0 <= s[0] < 256,
                le_value(s.drop_first()) >= 0,
        {
        }
        assert(pow256(0) == 1);
    } else {
        lemma_le_digit(s.drop_first(), i - 1);
        lemma_pow256_pos((i - 1) as nat);
        assert(le_value(s) / 256 == le_value(s.drop_first())) by (nonlinear_arith)
            requires
                le_value(s) == s[0] + 256 * le_value(s.drop_first()),
                0 <= s[0] < 256,
                le_value(s.drop_first()) >= 0,
        {
        }
        lemma_div_denominator(le_value(s), 256, pow256((i - 1) as nat));
        assert(pow256(i as nat) == 256 * pow256((i - 1) as nat));
        assert(s.drop_first()[i - 1] == s[i]);
    }
}

/// Reading eight little-endian bytes and writing the value back yields
/// the same bytes.
pub proof fn lemma_le_roundtrip_value(s: Seq<u8>)
    requires
        s.len() == 8,
    ensures
        0 <= le_value(s) < 0x1_0000_0000_0000_0000,
        u64_le_spec(le_value(s) as u64) == s,
{
    lemma_le_value_bound(s);
    assert(pow256(8) == 0x1_0000_0000_0000_0000) by {
        reveal_with_fuel(pow256, 9);
    }
    let v = le_value(s) as u64;
    assert forall|i: int| 0 <= i < 8 implies u64_le_spec(v)[i] == s[i] by {
        lemma_le_digit(s, i);
    }
    assert(u64_le_spec(v) =~= s);
}

/// The little-endian digits of `x` denote `x` back.
proof fn lemma_le_digits_value(x: int, n: nat)
    requires
        x >= 0,
    ensures
        le_value(Seq::new(n, |i: int| ((x / pow256(i as nat)) % 256) as u8)) == x % pow256(n),
    decreases n,
{
    let s = Seq::new(n, |i: int| ((x / pow256(i as nat)) % 256) as u8);
    if n == 0 {
        assert(pow256(0) == 1);
        assert(x % 1 == 0) by (nonlinear_arith)
            requires
                x >= 0,
        {
        }
    } else {
        lemma_le_digits_value(x / 256, (n - 1) as nat);
        let t = Seq::new((n - 1) as nat, |i: int| (((x / 256) / pow256(i as nat)) % 256) as u8);
        assert forall|i: int| 0 <= i < n - 1 implies s.drop_first()[i] == t[i] by {
            lemma_pow256_pos(i as nat);
            lemma_div_denominator(x, 256, pow256(i as nat));
            assert(pow256((i + 1) as nat) == 256 * pow256(i as nat));
        }
        assert(s.drop_first() =~= t);
        assert(s[0] == (x % 256) as u8);
        assert(le_value(s) == x % 256 + 256 * ((x / 256) % pow256((n - 1) as nat)));
        lemma_pow256_pos((n - 1) as nat);
        vstd::arithmetic::div_mod::lemma_breakdown(x, 256, pow256((n - 1) as nat));
        assert(pow256(n) == 256 * pow256((n - 1) as nat));
    }
}

/// Writing a value as eight little-endian bytes and reading them back
/// yields the value.
pub proof fn lemma_le_of_u64(x: u64)
    ensures
        le_value(u64_le_spec(x)) == x,
{
    lemma_le_digits_value(x as int, 8);
    assert(pow256(8) == 0x1_0000_0000_0000_0000) by {
        reveal_with_fuel(pow256, 9);
    }
    assert((x as int) % pow256(8) == x) by (nonlinear_arith)
        requires
            0 <= x < pow256(8),
    {
    }
}

/// A little-endian byte string of length `n` denotes a value below `256^n`.
pub proof fn lemma_le_value_bound(s: Seq<u8>)
    ensures
        0 <= le_value(s) < pow256(s.len()),
    decreases s.len(),
{
    if s.len() == 0 {
    } else {
        lemma_le_value_bound(s.drop_first());
    }
}

/// The 8-byte big-endian encoding of `x`.
pub open spec fn u64_be_spec(x: u64) -> Seq<u8> {
    Seq::new(8, |i: int| ((x as int / pow256((7 - i) as nat)) % 256) as u8)
}

/// Encode `x` as 8 big-endian bytes.
pub fn u64_to_be(x: u64) -> (r: Vec<u8>)
    ensures
        r@ == u64_be_spec(x),
{
    let le = u64_to_le(x);
    let mut r: Vec<u8> = Vec::new();
    let mut j: usize = 8;
    while j > 0
        invariant
            j <= 8,
            le@ == u64_le_spec(x),
            r@.len() == 8 - j,
            forall|k: int| 0 <= k < 8 - j ==> r@[k] == u64_be_spec(x)[k],
        decreases j,
    {
        r.push(le[j - 1]);
        j = j - 1;
    }
    proof {
        assert(r@ =~= u64_be_spec(x));
    }
    r
}

/// The value a big-endian byte string denotes.
pub open spec fn be_value(s: Seq<u8>) -> int
    decreases s.len(),
{
    if s.len() == 0 {
        0
    } else {
        256 * be_value(s.drop_last()) + s.last()
    }
}

/// A big-endian byte string of length `n` denotes a value below `256^n`.
pub proof fn lemma_be_value_bound(s: Seq<u8>)
    ensures
        0 <= be_value(s) < pow256(s.len()),
    decreases s.len(),
{
    if s.len() == 0 {
    } else {
        lemma_be_value_bound(s.drop_last());
    }
}

/// Read the first 8 bytes of `s` as a big-endian 64-bit value.
pub fn be_to_u64(s: &Vec<u8>) -> (r: u64)
    requires
        s@.len() >= 8,
    ensures
        r == be_value(s@.take(8)),
{
    let mut acc: u64 = 0;
    let mut i: usize = 0;
    while i < 8
        invariant
            i <= 8,
            s@.len() >= 8,
            acc == be_value(s@.take(i as int)),
            acc < pow256(i as nat),
        decreases 8 - i,
    {
        proof {
            lemma_be_value_bound(s@.take(i + 1));
            assert(s@.take(i + 1).drop_last() =~= s@.take(i as int));
            assert(s@.take(i + 1).last() == s@[i as int]);
            assert(pow256(8) == 0x1_0000_0000_0000_0000) by {
                reveal_with_fuel(pow256, 9);
            }
            lemma_pow256_mono((i + 1) as nat, 8);
        }
        acc = acc * 256 + (s[i] as u64);
        i = i + 1;
    }
    acc
}

/// Render `x` in decimal as ASCII bytes.
pub fn u64_to_dec(x: u64) -> (r: Vec<u8>)
    ensures
        r@ == dec_spec(x as nat),
    decreases x,
{
    if x < 10 {
        let mut r: Vec<u8> = Vec::new();
        r.push(48 + (x as u8));
        proof {
            assert(r@ =~= dec_spec(x as nat));
        }
        r
    } else {
        let mut r = u64_to_dec(x / 10);
        r.push(48 + ((x % 10) as u8));
        proof {
            assert(dec_spec((x as nat) / 10) + seq![(48 + (x as nat) % 10) as u8] =~= dec_spec(
                x as nat,
            ));
        }
        r
    }
}


} // verus!
