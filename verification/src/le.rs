//! Little-endian fixed-width integers as byte sequences.

use vstd::arithmetic::div_mod::lemma_div_denominator;
use vstd::prelude::*;

verus! {

/// `256` to the power `n`.
pub open spec fn pow256(n: nat) -> nat
    decreases n,
{
    if n == 0 {
        1
    } else {
        256 * pow256((n - 1) as nat)
    }
}

/// The `width` least significant bytes of `v`, least significant first.
pub open spec fn le_bytes(v: nat, width: nat) -> Seq<u8>
    decreases width,
{
    if width == 0 {
        Seq::empty()
    } else {
        seq![(v % 256) as u8] + le_bytes(v / 256, (width - 1) as nat)
    }
}

/// The number that the bytes `b` denote, least significant first.
pub open spec fn le_value(b: Seq<u8>) -> nat
    decreases b.len(),
{
    if b.len() == 0 {
        0
    } else {
        b[0] as nat + 256 * le_value(b.drop_first())
    }
}

pub proof fn lemma_pow256_positive(n: nat)
    ensures
        pow256(n) >= 1,
    decreases n,
{
    if n > 0 {
        lemma_pow256_positive((n - 1) as nat);
    }
}

pub proof fn lemma_pow256_values()
    ensures
        pow256(2) == 0x1_0000,
        pow256(4) == 0x1_0000_0000,
        pow256(8) == 0x1_0000_0000_0000_0000,
{
    reveal_with_fuel(pow256, 9);
}

pub proof fn lemma_le_bytes_len(v: nat, width: nat)
    ensures
        le_bytes(v, width).len() == width,
    decreases width,
{
    if width > 0 {
        lemma_le_bytes_len(v / 256, (width - 1) as nat);
    }
}

pub proof fn lemma_le_value_bound(b: Seq<u8>)
    ensures
        le_value(b) < pow256(b.len()),
    decreases b.len(),
{
    if b.len() > 0 {
        lemma_le_value_bound(b.drop_first());
        let r = le_value(b.drop_first());
        let p = pow256((b.len() - 1) as nat);
        assert(b[0] as nat + 256 * r < 256 * p) by (nonlinear_arith)
            requires
                r < p,
                b[0] < 256,
        ;
    }
}

/// Encoding a number that fits and reading it back gives the number.
pub proof fn lemma_le_value_of_bytes(v: nat, width: nat)
    requires
        v < pow256(width),
    ensures
        le_value(le_bytes(v, width)) == v,
    decreases width,
{
    if width > 0 {
        let p = pow256((width - 1) as nat);
        assert(v / 256 < p && v == v % 256 + 256 * (v / 256)) by (nonlinear_arith)
            requires
                v < 256 * p,
        ;
        lemma_le_value_of_bytes(v / 256, (width - 1) as nat);
        let b = le_bytes(v, width);
        assert(b.drop_first() =~= le_bytes(v / 256, (width - 1) as nat));
    }
}

/// Reading bytes and encoding the number back at the same width gives the bytes.
pub proof fn lemma_le_bytes_of_value(b: Seq<u8>)
    ensures
        le_bytes(le_value(b), b.len()) == b,
    decreases b.len(),
{
    if b.len() > 0 {
        let r = le_value(b.drop_first());
        let v = le_value(b);
        assert(v % 256 == b[0] as nat && v / 256 == r) by (nonlinear_arith)
            requires
                v == b[0] as nat + 256 * r,
                b[0] < 256,
        ;
        lemma_le_bytes_of_value(b.drop_first());
        assert(le_bytes(v, b.len()) =~= b);
    }
}

/// Byte `k` of the little-endian encoding is digit `k` of `v` in base 256.
pub proof fn law_le_bytes_digit(v: nat, width: nat, k: nat)
    requires
        k < width,
    ensures
        le_bytes(v, width).len() == width,
        le_bytes(v, width)[k as int] == ((v / pow256(k)) % 256) as u8,
    decreases k,
{
    lemma_le_bytes_len(v, width);
    lemma_le_bytes_len(v / 256, (width - 1) as nat);
    if k > 0 {
        law_le_bytes_digit(v / 256, (width - 1) as nat, (k - 1) as nat);
        lemma_pow256_positive((k - 1) as nat);
        lemma_div_denominator(v as int, 256, pow256((k - 1) as nat) as int);
        assert(le_bytes(v, width)[k as int] == le_bytes(v / 256, (width - 1) as nat)[k - 1]);
    } else {
        assert(pow256(0) == 1);
        assert(v / pow256(0) == v);
    }
}

/// Appends the `width` low bytes of `v` to `out`, least significant first.
pub fn push_le(out: &mut Vec<u8>, v: u64, width: usize)
    requires
        width <= 8,
    ensures
        final(out)@ == old(out)@ + le_bytes(v as nat, width as nat),
{
    let mut cur: u64 = v;
    let mut i: usize = 0;
    while i < width
        invariant
            i <= width,
            out@ + le_bytes(cur as nat, (width - i) as nat) == old(out)@ + le_bytes(
                v as nat,
                width as nat,
            ),
        decreases width - i,
    {
        let ghost before = out@;
        out.push((cur % 256) as u8);
        let ghost n = (width - i) as nat;
        assert(le_bytes(cur as nat, n) == seq![(cur % 256) as u8] + le_bytes(
            (cur / 256) as nat,
            (n - 1) as nat,
        ));
        assert(out@ + le_bytes((cur / 256) as nat, (n - 1) as nat) =~= before + le_bytes(
            cur as nat,
            n,
        ));
        cur = cur / 256;
        i = i + 1;
    }
}

/// Reads the little-endian number in `b[start .. start + width]`.
pub fn read_le(b: &[u8], start: usize, width: usize) -> (v: u64)
    requires
        width <= 8,
        start + width <= b@.len(),
    ensures
        v as nat == le_value(b@.subrange(start as int, start + width)),
{
    let total = b.len();
    assert(start + width <= total);
    let end = start + width;
    let mut acc: u64 = 0;
    let mut j: usize = end;
    proof {
        lemma_pow256_values();
    }
    while j > start
        invariant
            start <= j <= end,
            end == start + width,
            end <= b@.len(),
            width <= 8,
            pow256(8) == 0x1_0000_0000_0000_0000,
            acc as nat == le_value(b@.subrange(j as int, end as int)),
        decreases j - start,
    {
        let ghost tail = b@.subrange(j as int, end as int);
        proof {
            lemma_le_value_bound(tail);
            lemma_pow_mono(tail.len(), 7);
        }
        let byte = b[j - 1];
        assert(acc * 256 + byte <= u64::MAX) by (nonlinear_arith)
            requires
                acc < pow256(tail.len()),
                pow256(tail.len()) <= pow256(7),
                256 * pow256(7) == 0x1_0000_0000_0000_0000,
                byte < 256,
        {
            assert(pow256(8) == 256 * pow256(7));
        }
        acc = acc * 256 + byte as u64;
        j = j - 1;
        assert(b@.subrange(j as int, end as int).drop_first() =~= tail);
    }
    acc
}

pub proof fn lemma_pow_mono(m: nat, n: nat)
    requires
        m <= n,
    ensures
        pow256(m) <= pow256(n),
    decreases n,
{
    if m < n {
        lemma_pow_mono(m, (n - 1) as nat);
        lemma_pow256_positive((n - 1) as nat);
    }
}

} // verus!
