//! History keys: a record's start time, seconds since the Unix epoch,
//! encoded as 8 bytes big-endian.
//!
//! The store compares raw keys as byte strings. Big-endian is chosen so
//! that this byte order agrees with the numeric order of the
//! timestamps, which is what makes range scans over a time window
//! return exactly the records of that window;
//! [`lemma_key_order_agrees`] is that claim, proved.

use vstd::arithmetic::div_mod::{lemma_mod_breakdown, lemma_small_mod};
use vstd::arithmetic::mul::{lemma_mul_inequality, lemma_mul_is_distributive_add_other_way};
use vstd::arithmetic::power::{lemma_pow_positive, pow};
use vstd::prelude::*;

verus! {

/// The low `n` bytes of `x`, most significant first.
pub open spec fn be_bytes_n(x: u64, n: nat) -> Seq<u8>
    decreases n,
{
    if n == 0 {
        Seq::empty()
    } else {
        be_bytes_n(x >> 8, (n - 1) as nat).push((x & 0xff) as u8)
    }
}

/// A timestamp as its 8-byte big-endian key.
pub open spec fn be_bytes(x: u64) -> Seq<u8> {
    be_bytes_n(x, 8)
}

/// The number a big-endian byte string stands for.
pub open spec fn be_num(s: Seq<u8>) -> int
    decreases s.len(),
{
    if s.len() == 0 {
        0
    } else {
        s[0] * pow(256, (s.len() - 1) as nat) + be_num(s.skip(1))
    }
}

/// Strict lexicographic order on byte strings, as the store compares
/// raw keys: a proper prefix comes first, otherwise the first
/// differing byte decides.
pub open spec fn lex_lt(a: Seq<u8>, b: Seq<u8>) -> bool
    decreases a.len(),
{
    if b.len() == 0 {
        false
    } else if a.len() == 0 {
        true
    } else if a[0] < b[0] {
        true
    } else if a[0] > b[0] {
        false
    } else {
        lex_lt(a.skip(1), b.skip(1))
    }
}

proof fn lemma_pow256_7_and_8()
    ensures
        pow(256, 7) == 0x100_0000_0000_0000,
        pow(256, 8) == 0x1_0000_0000_0000_0000,
{
    reveal_with_fuel(pow, 9);
}

pub proof fn lemma_be_bytes_n_len(x: u64, n: nat)
    ensures
        be_bytes_n(x, n).len() == n,
    decreases n,
{
    if n > 0 {
        lemma_be_bytes_n_len(x >> 8, (n - 1) as nat);
    }
}

/// Appending a byte to a big-endian string shifts its value one byte
/// up and adds the new byte at the bottom.
pub proof fn lemma_be_num_push(s: Seq<u8>, b: u8)
    ensures
        be_num(s.push(b)) == 256 * be_num(s) + b,
    decreases s.len(),
{
    reveal(pow);
    if s.len() == 0 {
        assert(s.push(b).skip(1) =~= Seq::<u8>::empty());
        assert(be_num(Seq::<u8>::empty()) == 0);
        assert(s.push(b)[0] == b);
        assert(pow(256, 0) == 1);
        assert(be_num(s.push(b)) == b * pow(256, 0) + be_num(s.push(b).skip(1)));
    } else {
        assert(s.push(b).skip(1) =~= s.skip(1).push(b));
        lemma_be_num_push(s.skip(1), b);
        let p = pow(256, (s.len() - 1) as nat);
        assert(pow(256, s.len()) == 256 * p);
        assert(s[0] * (256 * p) == 256 * (s[0] * p)) by (nonlinear_arith);
        assert(be_num(s.push(b)) == s[0] * (256 * p) + be_num(s.skip(1).push(b)));
        assert(be_num(s.push(b)) == 256 * (s[0] * p + be_num(s.skip(1))) + b);
    }
}

/// The value of an `n`-byte string fits in `n` bytes.
pub proof fn lemma_be_num_bound(s: Seq<u8>)
    ensures
        0 <= be_num(s) < pow(256, s.len()),
    decreases s.len(),
{
    reveal(pow);
    if s.len() == 0 {
        assert(pow(256, 0) == 1);
    } else {
        let p = pow(256, (s.len() - 1) as nat);
        lemma_pow_positive(256, (s.len() - 1) as nat);
        lemma_be_num_bound(s.skip(1));
        assert(s[0] * p >= 0) by (nonlinear_arith)
            requires p > 0 && s[0] >= 0;
        lemma_mul_inequality(s[0] as int, 255, p);
        assert(be_num(s) < 255 * p + p);
        assert(255 * p + p == 256 * p);
        assert(pow(256, s.len()) == 256 * p);
    }
}

/// Encoding `x` into `n` bytes keeps exactly its value modulo 256^n.
pub proof fn lemma_be_bytes_n_num(x: u64, n: nat)
    ensures
        be_num(be_bytes_n(x, n)) == x as int % pow(256, n),
    decreases n,
{
    reveal(pow);
    if n == 0 {
        assert(pow(256, 0) == 1);
        assert(x as int % 1 == 0) by (nonlinear_arith);
    } else {
        lemma_be_bytes_n_num(x >> 8, (n - 1) as nat);
        assert(x & 0xff < 256) by (bit_vector);
        lemma_be_num_push(be_bytes_n(x >> 8, (n - 1) as nat), (x & 0xff) as u8);
        assert(x >> 8 == x / 256) by (bit_vector);
        assert(x & 0xff == x % 256) by (bit_vector);
        let p = pow(256, (n - 1) as nat);
        lemma_pow_positive(256, (n - 1) as nat);
        assert(pow(256, n) == 256 * p);
        lemma_mod_breakdown(x as int, 256, p);
        assert(be_num(be_bytes_n(x, n)) == 256 * ((x / 256) as int % p) + (x as int % 256));
    }
}

/// The key of a timestamp decodes back to that timestamp.
pub proof fn lemma_be_bytes_num(x: u64)
    ensures
        be_num(be_bytes(x)) == x,
        be_bytes(x).len() == 8,
{
    lemma_be_bytes_n_num(x, 8);
    lemma_be_bytes_n_len(x, 8);
    lemma_pow256_7_and_8();
    lemma_small_mod(x as nat, 0x1_0000_0000_0000_0000);
}

/// On byte strings of one length, the store's lexicographic order is
/// the numeric order of the values they stand for.
pub proof fn lemma_lex_lt_is_num_lt(s: Seq<u8>, t: Seq<u8>)
    requires
        s.len() == t.len(),
    ensures
        lex_lt(s, t) <==> be_num(s) < be_num(t),
    decreases s.len(),
{
    if s.len() != 0 {
        let p = pow(256, (s.len() - 1) as nat);
        lemma_pow_positive(256, (s.len() - 1) as nat);
        lemma_be_num_bound(s.skip(1));
        lemma_be_num_bound(t.skip(1));
        if s[0] < t[0] {
            lemma_mul_is_distributive_add_other_way(p, s[0] as int, 1);
            lemma_mul_inequality(s[0] + 1, t[0] as int, p);
            assert(be_num(s) < (s[0] + 1) * p);
            assert((s[0] + 1) * p <= t[0] * p);
        } else if s[0] > t[0] {
            lemma_mul_is_distributive_add_other_way(p, t[0] as int, 1);
            lemma_mul_inequality(t[0] + 1, s[0] as int, p);
            assert(be_num(t) < (t[0] + 1) * p);
            assert((t[0] + 1) * p <= s[0] * p);
        } else {
            lemma_lex_lt_is_num_lt(s.skip(1), t.skip(1));
        }
    }
}

/// Byte strings of one length that stand for the same value are the
/// same string.
pub proof fn lemma_be_num_injective(s: Seq<u8>, t: Seq<u8>)
    requires
        s.len() == t.len(),
        be_num(s) == be_num(t),
    ensures
        s =~= t,
    decreases s.len(),
{
    if s.len() != 0 {
        if s[0] != t[0] {
            if s[0] < t[0] {
                lemma_lex_lt_is_num_lt(s, t);
            } else {
                lemma_lex_lt_is_num_lt(t, s);
            }
            assert(false);
        } else {
            lemma_be_num_injective(s.skip(1), t.skip(1));
            assert forall|i: int| 0 <= i < s.len() implies s[i] == t[i] by {
                if i > 0 {
                    assert(s[i] == s.skip(1)[i - 1]);
                    assert(t[i] == t.skip(1)[i - 1]);
                }
            }
        }
    }
}

/// The design claim behind the key format: comparing two keys as byte
/// strings, the way the store does, orders them exactly as the
/// timestamps they encode.
pub proof fn lemma_key_order_agrees(x: u64, y: u64)
    ensures
        lex_lt(be_bytes(x), be_bytes(y)) <==> x < y,
{
    lemma_be_bytes_num(x);
    lemma_be_bytes_num(y);
    lemma_lex_lt_is_num_lt(be_bytes(x), be_bytes(y));
}

/// An 8-byte string is the key of the timestamp it stands for.
pub proof fn lemma_key_of_num(s: Seq<u8>)
    requires
        s.len() == 8,
    ensures
        0 <= be_num(s) < 0x1_0000_0000_0000_0000,
        be_bytes(be_num(s) as u64) =~= s,
{
    lemma_be_num_bound(s);
    lemma_pow256_7_and_8();
    let x = be_num(s) as u64;
    lemma_be_bytes_num(x);
    lemma_be_num_injective(be_bytes(x), s);
}

fn push_be(out: &mut Vec<u8>, x: u64, n: u64)
    requires
        n <= 8,
    ensures
        final(out)@ == old(out)@ + be_bytes_n(x, n as nat),
    decreases n,
{
    if n == 0 {
        assert(out@ =~= old(out)@ + be_bytes_n(x, 0));
    } else {
        push_be(out, x >> 8, n - 1);
        out.push((x & 0xff) as u8);
        assert(out@ =~= old(out)@ + be_bytes_n(x, n as nat));
    }
}

/// The 8-byte big-endian key of a timestamp.
pub fn encode_key(t: u64) -> (r: Vec<u8>)
    ensures
        r@ == be_bytes(t),
        r@.len() == 8,
{
    let mut r: Vec<u8> = Vec::new();
    push_be(&mut r, t, 8);
    proof {
        lemma_be_bytes_n_len(t, 8);
        assert(r@ =~= be_bytes(t));
    }
    r
}

/// The timestamp an 8-byte key stands for.
pub fn decode_key(b: &[u8]) -> (r: u64)
    requires
        b@.len() == 8,
    ensures
        r == be_num(b@),
{
    let mut acc: u64 = 0;
    let mut i: usize = 0;
    proof {
        assert(b@.subrange(0, 0) =~= Seq::<u8>::empty());
    }
    while i < 8
        invariant
            b@.len() == 8,
            i <= 8,
            acc == be_num(b@.subrange(0, i as int)),
        decreases 8 - i,
    {
        proof {
            lemma_be_num_bound(b@.subrange(0, i as int));
            lemma_pow256_7_and_8();
            if i < 7 {
                vstd::arithmetic::power::lemma_pow_increases(256, i as nat, 7);
            }
            lemma_be_num_push(b@.subrange(0, i as int), b@[i as int]);
            assert(b@.subrange(0, i as int).push(b@[i as int]) =~= b@.subrange(0, i as int + 1));
        }
        acc = acc * 256 + (b[i] as u64);
        i = i + 1;
    }
    proof {
        assert(b@.subrange(0, 8) =~= b@);
    }
    acc
}

} // verus!
