//! Big-endian byte encoding of integers, the building block of the stored format.

use vstd::prelude::*;

verus! {

/// 256 to the power `n`.
pub open spec fn pow256(n: nat) -> nat
    decreases n,
{
    if n == 0 { 1 } else { 256 * pow256((n - 1) as nat) }
}

/// The `n`-byte big-endian encoding of `x` (its low `n` bytes).
pub open spec fn be(x: nat, n: nat) -> Seq<u8>
    decreases n,
{
    if n == 0 {
        Seq::empty()
    } else {
        be(x / 256, (n - 1) as nat).push((x % 256) as u8)
    }
}

/// The number whose big-endian encoding is `s`.
pub open spec fn unbe(s: Seq<u8>) -> nat
    decreases s.len(),
{
    if s.len() == 0 {
        0
    } else {
        unbe(s.drop_last()) * 256 + s.last() as nat
    }
}

pub proof fn lemma_be_len(x: nat, n: nat)
    ensures
        be(x, n).len() == n,
    decreases n,
{
    if n > 0 {
        lemma_be_len(x / 256, (n - 1) as nat);
    }
}

pub proof fn lemma_unbe_be(x: nat, n: nat)
    requires
        x < pow256(n),
    ensures
        unbe(be(x, n)) == x,
    decreases n,
{
    if n > 0 {
        let p = pow256((n - 1) as nat);
        assert(x / 256 < p) by (nonlinear_arith)
            requires x < 256 * p;
        lemma_unbe_be(x / 256, (n - 1) as nat);
        assert(be(x, n).drop_last() =~= be(x / 256, (n - 1) as nat));
        assert((x / 256) * 256 + x % 256 == x) by (nonlinear_arith);
    }
}

pub proof fn lemma_unbe_bound(s: Seq<u8>)
    ensures
        unbe(s) < pow256(s.len()),
    decreases s.len(),
{
    if s.len() > 0 {
        lemma_unbe_bound(s.drop_last());
        let a = unbe(s.drop_last());
        let p = pow256((s.len() - 1) as nat);
        let b = s.last() as nat;
        assert(a * 256 + b < 256 * p) by (nonlinear_arith)
            requires a < p, b < 256;
    }
}

pub proof fn lemma_pow256_facts()
    ensures
        pow256(1) == 0x100,
        pow256(4) == 0x1_0000_0000,
        pow256(8) == 0x1_0000_0000_0000_0000,
        pow256(16) == 0x1_0000_0000_0000_0000_0000_0000_0000_0000,
{
    reveal_with_fuel(pow256, 17);
}

/// Appends the `n`-byte big-endian encoding of `x`.
pub(crate) fn put_be(out: &mut Vec<u8>, x: u128, n: usize)
    requires
        n <= 16,
    ensures
        final(out)@ == old(out)@ + be(x as nat, n as nat),
    decreases n,
{
    if n == 0 {
        assert(old(out)@ + be(x as nat, 0) =~= old(out)@);
        return;
    }
    put_be(out, x / 256, n - 1);
    out.push((x % 256) as u8);
    assert(final(out)@ =~= old(out)@ + be(x as nat, n as nat));
}

/// Reads the big-endian number in `b[pos .. pos + n]`.
pub(crate) fn get_be(b: &Vec<u8>, pos: usize, n: usize) -> (r: u128)
    requires
        n <= 16,
        pos + n <= b@.len(),
    ensures
        r == unbe(b@.subrange(pos as int, pos + n)),
    decreases n,
{
    if n == 0 {
        return 0;
    }
    let hi = get_be(b, pos, n - 1);
    let _len = b.len();
    let k: usize = pos + (n - 1);
    let last = b[k];
    proof {
        let s = b@.subrange(pos as int, pos + n);
        assert(s.drop_last() =~= b@.subrange(pos as int, pos + n - 1));
        lemma_unbe_bound(s);
        lemma_pow256_facts();
        assert(pow256(n as nat) <= pow256(16)) by {
            lemma_pow256_mono(n as nat, 16);
        }
    }
    hi * 256 + last as u128
}

proof fn lemma_pow256_mono(a: nat, b: nat)
    requires
        a <= b,
    ensures
        pow256(a) <= pow256(b),
    decreases b,
{
    if a < b {
        lemma_pow256_mono(a, (b - 1) as nat);
    }
}

} // verus!
