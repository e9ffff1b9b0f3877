//! Small byte-sequence helpers shared by the other modules.

use vstd::prelude::*;
use vstd::string::StringSliceAdditionalSpecFns;

verus! {

/// Compare two 32-byte hashes for equality.
pub fn hash32_eq(a: &[u8; 32], b: &[u8; 32]) -> (res: bool)
    ensures
        res == (a@ == b@),
{
    let mut i: usize = 0;
    while i < 32
        invariant
            i <= 32,
            forall|j: int| 0 <= j < i ==> a@[j] == b@[j],
        decreases 32 - i,
    {
        if a[i] != b[i] {
            return false;
        }
        i = i + 1;
    }
    assert(a@ =~= b@);
    true
}

/// `256` to the power `n`.
pub open spec fn pow256(n: nat) -> nat
    decreases n,
{
    if n == 0 { 1 } else { 256 * pow256((n - 1) as nat) }
}

pub proof fn lemma_pow256_pos(n: nat)
    ensures
        pow256(n) > 0,
    decreases n,
{
    if n > 0 {
        lemma_pow256_pos((n - 1) as nat);
    }
}

/// The `n` little-endian bytes of `v` (taken modulo `256^n`).
pub open spec fn le_bytes(v: nat, n: nat) -> Seq<u8> {
    Seq::new(n, |j: int| ((v / pow256(j as nat)) % 256) as u8)
}

/// The UTF-8 bytes of `s`.
pub open spec fn utf8(s: &str) -> Seq<u8> {
    s.spec_bytes()
}

/// Appends the UTF-8 bytes of `s` to `out`.
pub fn push_str(out: &mut Vec<u8>, s: &str)
    ensures
        final(out)@ == old(out)@ + utf8(s),
{
    let b = s.as_bytes();
    push_bytes(out, b);
}

/// Appends `b` to `out`.
pub fn push_bytes(out: &mut Vec<u8>, b: &[u8])
    ensures
        final(out)@ == old(out)@ + b@,
{
    let ghost before = out@;
    out.extend_from_slice(b);
    assert(out@ =~= before + b@);
}

/// Appends the 16 little-endian bytes of `v` to `out`.
pub fn push_u128_le(out: &mut Vec<u8>, v: u128)
    ensures
        final(out)@ == old(out)@ + le_bytes(v as nat, 16),
{
    let ghost before = out@;
    let mut w: u128 = v;
    let mut j: usize = 0;
    assert(pow256(0) == 1);
    while j < 16
        invariant
            j <= 16,
            out@.len() == before.len() + j,
            w as nat == v as nat / pow256(j as nat),
            forall|k: int| 0 <= k < before.len() ==> out@[k] == before[k],
            forall|k: int| 0 <= k < j ==> #[trigger] out@[before.len() + k] == ((v as nat / pow256(k as nat)) % 256) as u8,
        decreases 16 - j,
    {
        out.push((w % 256) as u8);
        proof {
            lemma_pow256_pos(j as nat);
            vstd::arithmetic::div_mod::lemma_div_denominator(v as int, pow256(j as nat) as int, 256);
            assert(pow256(j as nat) * 256 == pow256((j + 1) as nat)) by (nonlinear_arith)
                requires pow256((j + 1) as nat) == 256 * pow256(j as nat);
        }
        w = w / 256;
        j = j + 1;
    }
    assert forall|k: int| 0 <= k < out@.len() implies #[trigger] out@[k] == (before + le_bytes(v as nat, 16))[k] by {
        if k >= before.len() {
            assert(out@[before.len() + (k - before.len())] == out@[k]);
        }
    }
    assert(out@ =~= before + le_bytes(v as nat, 16));
}

/// Appends the 8 little-endian bytes of `v` to `out`.
pub fn push_u64_le(out: &mut Vec<u8>, v: u64)
    ensures
        final(out)@ == old(out)@ + le_bytes(v as nat, 8),
{
    let ghost before = out@;
    let mut w: u64 = v;
    let mut j: usize = 0;
    assert(pow256(0) == 1);
    while j < 8
        invariant
            j <= 8,
            out@.len() == before.len() + j,
            w as nat == v as nat / pow256(j as nat),
            forall|k: int| 0 <= k < before.len() ==> out@[k] == before[k],
            forall|k: int| 0 <= k < j ==> #[trigger] out@[before.len() + k] == ((v as nat / pow256(k as nat)) % 256) as u8,
        decreases 8 - j,
    {
        out.push((w % 256) as u8);
        proof {
            lemma_pow256_pos(j as nat);
            vstd::arithmetic::div_mod::lemma_div_denominator(v as int, pow256(j as nat) as int, 256);
            assert(pow256(j as nat) * 256 == pow256((j + 1) as nat)) by (nonlinear_arith)
                requires pow256((j + 1) as nat) == 256 * pow256(j as nat);
        }
        w = w / 256;
        j = j + 1;
    }
    assert forall|k: int| 0 <= k < out@.len() implies #[trigger] out@[k] == (before + le_bytes(v as nat, 8))[k] by {
        if k >= before.len() {
            assert(out@[before.len() + (k - before.len())] == out@[k]);
        }
    }
    assert(out@ =~= before + le_bytes(v as nat, 8));
}

/// The 8 big-endian bytes of `v`.
pub open spec fn be_u64(v: u64) -> Seq<u8> {
    le_bytes(v as nat, 8).reverse()
}

/// Appends the 8 big-endian bytes of `v` to `out`.
pub fn push_u64_be(out: &mut Vec<u8>, v: u64)
    ensures
        final(out)@ == old(out)@ + be_u64(v),
{
    let mut le: Vec<u8> = Vec::new();
    push_u64_le(&mut le, v);
    assert(le@ =~= le_bytes(v as nat, 8));
    let ghost before = out@;
    let mut k: usize = 0;
    while k < 8
        invariant
            k <= 8,
            le@ == le_bytes(v as nat, 8),
            out@ =~= before + le_bytes(v as nat, 8).reverse().take(k as int),
        decreases 8 - k,
    {
        out.push(le[7 - k]);
        k = k + 1;
    }
    assert(le_bytes(v as nat, 8).reverse().take(8) =~= le_bytes(v as nat, 8).reverse());
}

/// The all-zero 32-byte hash.
pub open spec fn zero32() -> Seq<u8> {
    Seq::new(32, |_i: int| 0u8)
}

} // verus!
