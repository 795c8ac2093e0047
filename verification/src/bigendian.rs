//! Big-endian byte strings as numbers.
use vstd::prelude::*;

verus! {

/// The number that the bytes `s` spell in big-endian order.
pub open spec fn be_value(s: Seq<u8>) -> nat
    decreases s.len(),
{
    if s.len() == 0 {
        0
    } else {
        be_value(s.drop_last()) * 256 + s.last() as nat
    }
}

/// `256` to the power `n`.
pub open spec fn pow256(n: nat) -> nat
    decreases n,
{
    if n == 0 {
        1
    } else {
        256 * pow256((n - 1) as nat)
    }
}

/// The four bytes that spell `x mod 2^32` in big-endian order
/// (what `(x as u32).to_be_bytes()` gives).
pub open spec fn u32_be_bytes(x: nat) -> Seq<u8> {
    let y = x % 0x1_0000_0000;
    seq![
        (y / 0x100_0000) as u8,
        ((y / 0x1_0000) % 256) as u8,
        ((y / 256) % 256) as u8,
        (y % 256) as u8,
    ]
}

/// A big-endian number of `n` bytes is below `256^n`.
pub proof fn lemma_be_value_bound(s: Seq<u8>)
    ensures
        be_value(s) < pow256(s.len()),
    decreases s.len(),
{
    if s.len() > 0 {
        lemma_be_value_bound(s.drop_last());
    }
}

/// `pow256` grows with its exponent.
pub proof fn lemma_pow256_mono(a: nat, b: nat)
    requires
        a <= b,
    ensures
        pow256(a) <= pow256(b),
    decreases b,
{
    if a < b {
        lemma_pow256_mono(a, (b - 1) as nat);
    }
}

pub proof fn lemma_pow256_values()
    ensures
        pow256(0) == 1,
        pow256(1) == 0x100,
        pow256(2) == 0x1_0000,
        pow256(3) == 0x100_0000,
        pow256(4) == 0x1_0000_0000,
        pow256(7) == 0x100_0000_0000_0000,
        pow256(8) == 0x1_0000_0000_0000_0000,
{
    reveal_with_fuel(pow256, 9);
}

/// Appending a byte shifts the number by one byte.
pub proof fn lemma_be_value_push(s: Seq<u8>, b: u8)
    ensures
        be_value(s.push(b)) == be_value(s) * 256 + b,
{
    assert(s.push(b).drop_last() =~= s);
}

/// The value of a four-byte string.
pub proof fn lemma_be_value_4(s: Seq<u8>)
    requires
        s.len() == 4,
    ensures
        be_value(s) == ((s[0] * 256 + s[1]) * 256 + s[2]) * 256 + s[3],
{
    let s3 = s.drop_last();
    let s2 = s3.drop_last();
    let s1 = s2.drop_last();
    assert(s1.drop_last() =~= Seq::<u8>::empty());
    assert(be_value(s1.drop_last()) == 0);
    assert(be_value(s1) == s1[0]);
    assert(s1[0] == s[0] && s2[1] == s[1] && s3[2] == s[2]);
    assert(be_value(s2) == s[0] * 256 + s[1]);
    assert(be_value(s3) == (s[0] * 256 + s[1]) * 256 + s[2]);
}

/// Reading back the bytes of `u32_be_bytes` gives the number modulo `2^32`.
pub proof fn lemma_u32_be_bytes_roundtrip(x: nat)
    ensures
        u32_be_bytes(x).len() == 4,
        be_value(u32_be_bytes(x)) == x % 0x1_0000_0000,
{
    let y = x % 0x1_0000_0000;
    let s = u32_be_bytes(x);
    lemma_be_value_4(s);
    assert(y < 0x1_0000_0000);
    let b0 = y / 0x100_0000;
    let b1 = (y / 0x1_0000) % 256;
    let b2 = (y / 256) % 256;
    let b3 = y % 256;
    assert(((b0 * 256 + b1) * 256 + b2) * 256 + b3 == y) by (nonlinear_arith)
        requires
            0 <= y < 0x1_0000_0000,
            b0 == y / 0x100_0000,
            b1 == (y / 0x1_0000) % 256,
            b2 == (y / 256) % 256,
            b3 == y % 256,
    ;
    assert(b0 < 256) by (nonlinear_arith)
        requires
            0 <= y < 0x1_0000_0000,
            b0 == y / 0x100_0000,
    ;
    assert(s[0] == b0);
    assert(s[1] == b1);
    assert(s[2] == b2);
    assert(s[3] == b3);
}

/// The big-endian `u32` in the four bytes of `b` at `p`.
pub fn read_u32_be_at(b: &[u8], p: usize) -> (v: u32)
    requires
        p + 4 <= b@.len(),
    ensures
        v as nat == be_value(b@.subrange(p as int, p + 4)),
{
    proof {
        lemma_be_value_4(b@.subrange(p as int, p + 4));
    }
    (b[p] as u32) * 0x100_0000 + (b[p + 1] as u32) * 0x1_0000 + (b[p + 2] as u32) * 0x100
        + (b[p + 3] as u32)
}

} // verus!
