//! The SCALE encoding of the bridge's events and commit phases: fixed-width
//! little-endian integers, a one-byte variant index, and byte vectors behind
//! a compact length prefix. Decoding reads from the front of a byte slice
//! and leaves the rest; it undoes encoding.

use vstd::prelude::*;
use crate::bytes::{le_bytes, pow256, lemma_pow256_pos, push_bytes};
use crate::cross_vm::{
    CodecError, CrossVmEvent, CrossVmOperation, EventModel, OperationModel, PhaseModel, PreparedModel, PreparedOperation, TwoPhaseCommitPhase,
    VmType, vm_type_index, vm_type_of_index,
};

verus! {

/// The value of little-endian bytes.
pub open spec fn le_value(s: Seq<u8>) -> nat
    decreases s.len(),
{
    if s.len() == 0 { 0 } else { s[0] as nat + 256 * le_value(s.drop_first()) }
}

proof fn lemma_le_value_bound(s: Seq<u8>)
    ensures
        le_value(s) < pow256(s.len()),
    decreases s.len(),
{
    if s.len() > 0 {
        lemma_le_value_bound(s.drop_first());
        assert(pow256(s.len()) == 256 * pow256((s.len() - 1) as nat));
    }
}

/// Little-endian bytes give back the value they were made from.
proof fn lemma_le_round_trip(v: nat, n: nat)
    requires
        v < pow256(n),
    ensures
        le_value(le_bytes(v, n)) == v,
    decreases n,
{
    if n == 0 {
    } else {
        let b = le_bytes(v, n);
        let t = le_bytes(v / 256, (n - 1) as nat);
        assert forall|j: int| 0 <= j < n - 1 implies #[trigger] b.drop_first()[j] == t[j] by {
            lemma_pow256_pos(j as nat);
            vstd::arithmetic::div_mod::lemma_div_denominator(v as int, 256, pow256(j as nat) as int);
            assert(pow256((j + 1) as nat) == 256 * pow256(j as nat));
        }
        assert(b.drop_first() =~= t);
        assert(v / 256 < pow256((n - 1) as nat));
        lemma_le_round_trip(v / 256, (n - 1) as nat);
        assert(pow256(0) == 1);
        assert(v / 1 == v);
        assert(b[0] == (v % 256) as u8);
        assert(b[0] as nat == v % 256);
        assert(v == v % 256 + 256 * (v / 256));
    }
}

/// The compact encoding of a length below `2^32`.
pub open spec fn compact_bytes(n: nat) -> Seq<u8> {
    if n < 64 {
        seq![(n * 4) as u8]
    } else if n < 0x4000 {
        le_bytes(n * 4 + 1, 2)
    } else if n < 0x4000_0000 {
        le_bytes(n * 4 + 2, 4)
    } else {
        seq![3u8] + le_bytes(n, 4)
    }
}

/// The encoding of a byte vector: its compact length, then its bytes.
pub open spec fn vec_bytes(b: Seq<u8>) -> Seq<u8> {
    compact_bytes(b.len()) + b
}

/// Reading a fixed-width little-endian integer of `n` bytes at `pos`.
pub open spec fn read_fixed(s: Seq<u8>, pos: int, n: nat) -> Result<(nat, int), CodecError> {
    if pos < 0 || pos + n > s.len() {
        Err(CodecError::NotEnoughData)
    } else {
        Ok((le_value(s.subrange(pos, pos + n)), pos + n))
    }
}

/// Reading a compact length at `pos`: the mode in the low two bits of the
/// first byte, and only the shortest form of each value.
pub open spec fn read_compact(s: Seq<u8>, pos: int) -> Result<(nat, int), CodecError> {
    if pos < 0 || pos >= s.len() {
        Err(CodecError::NotEnoughData)
    } else {
        let b = s[pos];
        if b % 4 == 0 {
            Ok(((b / 4) as nat, pos + 1))
        } else if b % 4 == 1 {
            match read_fixed(s, pos, 2) {
                Err(e) => Err(e),
                Ok((x, p)) => if x / 4 < 64 { Err(CodecError::OutOfRange) } else { Ok((x / 4, p)) },
            }
        } else if b % 4 == 2 {
            match read_fixed(s, pos, 4) {
                Err(e) => Err(e),
                Ok((x, p)) => if x / 4 < 0x4000 { Err(CodecError::OutOfRange) } else { Ok((x / 4, p)) },
            }
        } else if b / 4 != 0 {
            Err(CodecError::OutOfRange)
        } else {
            match read_fixed(s, pos + 1, 4) {
                Err(e) => Err(e),
                Ok((x, p)) => if x < 0x4000_0000 { Err(CodecError::OutOfRange) } else { Ok((x, p)) },
            }
        }
    }
}

/// Reading a byte vector at `pos`.
pub open spec fn read_vec(s: Seq<u8>, pos: int) -> Result<(Seq<u8>, int), CodecError> {
    match read_compact(s, pos) {
        Err(e) => Err(e),
        Ok((n, p)) => if p + n > s.len() { Err(CodecError::NotEnoughData) } else { Ok((s.subrange(p as int, p + n), p + n)) },
    }
}

/// Reading a VM type at `pos`.
pub open spec fn read_vm(s: Seq<u8>, pos: int) -> Result<(VmType, int), CodecError> {
    if pos < 0 || pos >= s.len() {
        Err(CodecError::NotEnoughData)
    } else {
        match vm_type_of_index(s[pos]) {
            Some(t) => Ok((t, pos + 1)),
            None => Err(CodecError::InvalidVariant),
        }
    }
}

proof fn lemma_read_fixed(s: Seq<u8>, pos: int, v: nat, n: nat)
    requires
        v < pow256(n),
        0 <= pos,
        pos + n <= s.len(),
        s.subrange(pos, pos + n) == le_bytes(v, n),
    ensures
        read_fixed(s, pos, n) == Ok::<(nat, int), CodecError>((v, pos + n)),
{
    lemma_le_round_trip(v, n);
}

proof fn lemma_pow256_small()
    ensures
        pow256(1) == 256,
        pow256(2) == 0x1_0000,
        pow256(4) == 0x1_0000_0000,
        pow256(8) == 0x1_0000_0000_0000_0000,
        pow256(16) == 0x1_0000_0000_0000_0000_0000_0000_0000_0000,
{
    reveal_with_fuel(pow256, 17);
}

/// A compact length is read back from its encoding.
proof fn lemma_read_compact(s: Seq<u8>, pos: int, n: nat)
    requires
        n <= u32::MAX,
        0 <= pos,
        pos + compact_bytes(n).len() <= s.len(),
        s.subrange(pos, pos + compact_bytes(n).len()) == compact_bytes(n),
    ensures
        read_compact(s, pos) == Ok::<(nat, int), CodecError>((n, pos + compact_bytes(n).len())),
{
    lemma_pow256_small();
    let c = compact_bytes(n);
    assert(s[pos] == c[0]);
    if n < 64 {
        let b = (n * 4) as u8;
        assert(b as nat == n * 4);
        assert(b % 4 == 0 && b / 4 == n);
    } else if n < 0x4000 {
        let v = n * 4 + 1;
        lemma_read_fixed(s, pos, v, 2);
        let x: u16 = v as u16;
        assert(c[0] == (v % 256) as u8);
        assert((x % 256) % 4 == 1) by (bit_vector)
            requires x % 4 == 1;
        assert(v / 4 == n);
    } else if n < 0x4000_0000 {
        let v = n * 4 + 2;
        lemma_read_fixed(s, pos, v, 4);
        let x: u32 = v as u32;
        assert(c[0] == (v % 256) as u8);
        assert((x % 256) % 4 == 2) by (bit_vector)
            requires x % 4 == 2;
        assert(v / 4 == n);
    } else {
        assert(c[0] == 3u8);
        assert(s.subrange(pos + 1, pos + 1 + 4) =~= le_bytes(n, 4)) by {
            assert forall|j: int| 0 <= j < 4 implies s.subrange(pos + 1, pos + 1 + 4)[j] == le_bytes(n, 4)[j] by {
                assert(s.subrange(pos, pos + 5)[j + 1] == c[j + 1]);
            }
        }
        lemma_read_fixed(s, pos + 1, n, 4);
    }
}

/// A byte vector is read back from its encoding.
proof fn lemma_read_vec(s: Seq<u8>, pos: int, b: Seq<u8>)
    requires
        b.len() <= u32::MAX,
        0 <= pos,
        pos + vec_bytes(b).len() <= s.len(),
        s.subrange(pos, pos + vec_bytes(b).len()) == vec_bytes(b),
    ensures
        read_vec(s, pos) == Ok::<(Seq<u8>, int), CodecError>((b, pos + vec_bytes(b).len())),
{
    let c = compact_bytes(b.len());
    assert(s.subrange(pos, pos + c.len()) =~= c) by {
        assert forall|j: int| 0 <= j < c.len() implies s.subrange(pos, pos + c.len())[j] == c[j] by {
            assert(s.subrange(pos, pos + vec_bytes(b).len())[j] == vec_bytes(b)[j]);
        }
    }
    lemma_read_compact(s, pos, b.len());
    assert(s.subrange(pos + c.len(), pos + c.len() + b.len()) =~= b) by {
        assert forall|j: int| 0 <= j < b.len() implies s.subrange(pos + c.len(), pos + c.len() + b.len())[j] == b[j] by {
            assert(s.subrange(pos, pos + vec_bytes(b).len())[c.len() + j] == vec_bytes(b)[c.len() + j]);
        }
    }
}

/// Reads a fixed-width little-endian integer of `n` (at most 16) bytes at `pos`.
fn read_fixed_exec(bytes: &[u8], pos: usize, n: usize) -> (r: Result<(u128, usize), CodecError>)
    requires
        n <= 16,
    ensures
        match (r, read_fixed(bytes@, pos as int, n as nat)) {
            (Ok((v, p)), Ok((w, q))) => v == w && p == q,
            (Err(e), Err(f)) => e == f,
            _ => false,
        },
{
    if n > bytes.len() || pos > bytes.len() - n {
        return Err(CodecError::NotEnoughData);
    }
    let ghost part = bytes@.subrange(pos as int, pos + n);
    let mut v: u128 = 0;
    let mut k: usize = n;
    proof {
        lemma_pow256_small();
        assert(part.subrange(n as int, n as int) =~= Seq::<u8>::empty());
    }
    while k > 0
        invariant
            k <= n <= 16,
            pos + n <= bytes.len(),
            part == bytes@.subrange(pos as int, pos + n),
            v as nat == le_value(part.subrange(k as int, n as int)),
            le_value(part.subrange(k as int, n as int)) < pow256((n - k) as nat),
            pow256(16) == 0x1_0000_0000_0000_0000_0000_0000_0000_0000,
        decreases k,
    {
        let b = bytes[pos + k - 1];
        proof {
            let tail = part.subrange(k - 1, n as int);
            assert(tail.drop_first() =~= part.subrange(k as int, n as int));
            assert(tail[0] == b);
            lemma_le_value_bound(tail);
            assert(pow256((n - k + 1) as nat) <= pow256(16)) by {
                lemma_pow256_mono((n - k + 1) as nat, 16);
            }
        }
        v = v * 256 + b as u128;
        k = k - 1;
    }
    proof {
        assert(part.subrange(0, n as int) =~= part);
    }
    Ok((v, pos + n))
}

proof fn lemma_pow256_mono(a: nat, b: nat)
    requires
        a <= b,
    ensures
        pow256(a) <= pow256(b),
    decreases b,
{
    if a < b {
        lemma_pow256_mono(a, (b - 1) as nat);
        lemma_pow256_pos((b - 1) as nat);
    }
}

/// Reads a compact length at `pos`.
fn read_compact_exec(bytes: &[u8], pos: usize) -> (r: Result<(usize, usize), CodecError>)
    ensures
        match (r, read_compact(bytes@, pos as int)) {
            (Ok((v, p)), Ok((w, q))) => v == w && p == q,
            (Err(e), Err(f)) => e == f,
            _ => false,
        },
{
    if pos >= bytes.len() {
        return Err(CodecError::NotEnoughData);
    }
    let b = bytes[pos];
    proof {
        lemma_pow256_small();
    }
    if b % 4 == 0 {
        Ok(((b / 4) as usize, pos + 1))
    } else if b % 4 == 1 {
        let (x, p) = read_fixed_exec(bytes, pos, 2)?;
        if x / 4 < 64 {
            Err(CodecError::OutOfRange)
        } else {
            proof {
                lemma_le_value_bound(bytes@.subrange(pos as int, pos + 2));
            }
            Ok(((x / 4) as usize, p))
        }
    } else if b % 4 == 2 {
        let (x, p) = read_fixed_exec(bytes, pos, 4)?;
        if x / 4 < 0x4000 {
            Err(CodecError::OutOfRange)
        } else {
            proof {
                lemma_le_value_bound(bytes@.subrange(pos as int, pos + 4));
            }
            Ok(((x / 4) as usize, p))
        }
    } else if b / 4 != 0 {
        Err(CodecError::OutOfRange)
    } else {
        let (x, p) = read_fixed_exec(bytes, pos + 1, 4)?;
        if x < 0x4000_0000 {
            Err(CodecError::OutOfRange)
        } else {
            proof {
                lemma_le_value_bound(bytes@.subrange(pos + 1, pos + 1 + 4));
            }
            Ok((x as usize, p))
        }
    }
}

/// Reads a byte vector at `pos`.
fn read_vec_exec(bytes: &[u8], pos: usize) -> (r: Result<(Vec<u8>, usize), CodecError>)
    ensures
        match (r, read_vec(bytes@, pos as int)) {
            (Ok((v, p)), Ok((w, q))) => v@ == w && p == q,
            (Err(e), Err(f)) => e == f,
            _ => false,
        },
{
    let (n, p) = read_compact_exec(bytes, pos)?;
    if n > bytes.len() || p > bytes.len() - n {
        return Err(CodecError::NotEnoughData);
    }
    let mut out: Vec<u8> = Vec::new();
    push_bytes(&mut out, vstd::slice::slice_subrange(bytes, p, p + n));
    assert(out@ =~= bytes@.subrange(p as int, p + n));
    Ok((out, p + n))
}

/// Reads a VM type at `pos`.
fn read_vm_exec(bytes: &[u8], pos: usize) -> (r: Result<(VmType, usize), CodecError>)
    ensures
        match (r, read_vm(bytes@, pos as int)) {
            (Ok((v, p)), Ok((w, q))) => v == w && p == q,
            (Err(e), Err(f)) => e == f,
            _ => false,
        },
{
    if pos >= bytes.len() {
        return Err(CodecError::NotEnoughData);
    }
    let b = bytes[pos];
    if b == 0 {
        Ok((VmType::Evm, pos + 1))
    } else if b == 1 {
        Ok((VmType::Svm, pos + 1))
    } else if b == 2 {
        Ok((VmType::X3, pos + 1))
    } else {
        Err(CodecError::InvalidVariant)
    }
}

/// Appends the `n` (at most 8) little-endian bytes of `v`.
fn push_le(out: &mut Vec<u8>, v: u64, n: usize)
    requires
        n <= 8,
    ensures
        final(out)@ == old(out)@ + le_bytes(v as nat, n as nat),
{
    let ghost before = out@;
    let mut w: u64 = v;
    let mut j: usize = 0;
    assert(pow256(0) == 1);
    while j < n
        invariant
            j <= n <= 8,
            out@.len() == before.len() + j,
            w as nat == v as nat / pow256(j as nat),
            forall|k: int| 0 <= k < before.len() ==> out@[k] == before[k],
            forall|k: int| 0 <= k < j ==> #[trigger] out@[before.len() + k] == ((v as nat / pow256(k as nat)) % 256) as u8,
        decreases n - j,
    {
        out.push((w % 256) as u8);
        proof {
            lemma_pow256_pos(j as nat);
            vstd::arithmetic::div_mod::lemma_div_denominator(v as int, pow256(j as nat) as int, 256);
            assert(pow256(j as nat) * 256 == pow256((j + 1) as nat)) by (nonlinear_arith)
                requires pow256((j + 1) as nat) == 256 * pow256(j as nat);
        }
        w = w / 256;
        j = j + 1;
    }
    assert forall|k: int| 0 <= k < out@.len() implies #[trigger] out@[k] == (before + le_bytes(v as nat, n as nat))[k] by {
        if k >= before.len() {
            assert(out@[before.len() + (k - before.len())] == out@[k]);
        }
    }
    assert(out@ =~= before + le_bytes(v as nat, n as nat));
}

/// Appends the compact encoding of a length below `2^32`.
fn push_compact(out: &mut Vec<u8>, n: usize)
    requires
        n <= u32::MAX,
    ensures
        final(out)@ == old(out)@ + compact_bytes(n as nat),
{
    let m = n as u64;
    if m < 64 {
        let ghost before = out@;
        out.push((m * 4) as u8);
        assert(out@ =~= before + compact_bytes(n as nat));
    } else if m < 0x4000 {
        push_le(out, m * 4 + 1, 2);
    } else if m < 0x4000_0000 {
        push_le(out, m * 4 + 2, 4);
    } else {
        let ghost before = out@;
        out.push(3u8);
        push_le(out, m, 4);
        assert(out@ =~= before + compact_bytes(n as nat));
    }
}

/// Appends the encoding of a byte vector.
fn push_vec(out: &mut Vec<u8>, b: &Vec<u8>)
    requires
        b.len() <= u32::MAX,
    ensures
        final(out)@ == old(out)@ + vec_bytes(b@),
{
    let ghost before = out@;
    push_compact(out, b.len());
    push_bytes(out, b.as_slice());
    assert(out@ =~= before + vec_bytes(b@));
}


/// The SCALE encoding of an event: its variant index, then its fields in
/// order.
pub open spec fn event_bytes(e: EventModel) -> Seq<u8> {
    match e {
        EventModel::TransferInitiated { operation_id, source_vm, dest_vm, amount } =>
            seq![0u8] + le_bytes(operation_id as nat, 8) + seq![vm_type_index(source_vm)] + seq![vm_type_index(dest_vm)] + le_bytes(amount as nat, 16),
        EventModel::TransferCompleted { operation_id, gas_used } =>
            seq![1u8] + le_bytes(operation_id as nat, 8) + le_bytes(gas_used as nat, 8),
        EventModel::TransferFailed { operation_id, reason } =>
            seq![2u8] + le_bytes(operation_id as nat, 8) + vec_bytes(reason),
        EventModel::AtomicSwapExecuted { evm_amount, svm_amount, gas_used } =>
            seq![3u8] + le_bytes(evm_amount as nat, 16) + le_bytes(svm_amount as nat, 16) + le_bytes(gas_used as nat, 8),
        EventModel::PrepareCompleted { nonce, evm_gas_reserved, svm_compute_reserved } =>
            seq![4u8] + le_bytes(nonce as nat, 8) + le_bytes(evm_gas_reserved as nat, 8) + le_bytes(svm_compute_reserved as nat, 8),
        EventModel::CommitCompleted { nonce, total_gas_used } =>
            seq![5u8] + le_bytes(nonce as nat, 8) + le_bytes(total_gas_used as nat, 8),
        EventModel::Aborted { nonce, reason } =>
            seq![6u8] + le_bytes(nonce as nat, 8) + vec_bytes(reason),
        EventModel::CircuitBreakerTripped { epoch_volume, max_epoch_volume } =>
            seq![7u8] + le_bytes(epoch_volume as nat, 16) + le_bytes(max_epoch_volume as nat, 16),
    }
}

/// The byte vectors of an event are short enough for a compact length.
pub open spec fn event_fits(e: EventModel) -> bool {
    match e {
        EventModel::TransferFailed { reason, .. } => reason.len() <= u32::MAX,
        EventModel::Aborted { reason, .. } => reason.len() <= u32::MAX,
        _ => true,
    }
}

/// Reading an event from the front of `s`: the model and the number of
/// bytes read.
pub open spec fn read_event(s: Seq<u8>) -> Result<(EventModel, int), CodecError> {
    if s.len() == 0 {
        Err(CodecError::NotEnoughData)
    } else if s[0] == 0 {
        match read_fixed(s, 1, 8) {
            Err(e) => Err(e),
            Ok((id, p1)) => match read_vm(s, p1) {
                Err(e) => Err(e),
                Ok((src, p2)) => match read_vm(s, p2) {
                    Err(e) => Err(e),
                    Ok((dst, p3)) => match read_fixed(s, p3, 16) {
                        Err(e) => Err(e),
                        Ok((amt, p4)) => Ok((EventModel::TransferInitiated { operation_id: id as u64, source_vm: src, dest_vm: dst, amount: amt as u128 }, p4)),
                    },
                },
            },
        }
    } else if s[0] == 1 {
        match read_fixed(s, 1, 8) {
            Err(e) => Err(e),
            Ok((id, p1)) => match read_fixed(s, p1, 8) {
                Err(e) => Err(e),
                Ok((g, p2)) => Ok((EventModel::TransferCompleted { operation_id: id as u64, gas_used: g as u64 }, p2)),
            },
        }
    } else if s[0] == 2 {
        match read_fixed(s, 1, 8) {
            Err(e) => Err(e),
            Ok((id, p1)) => match read_vec(s, p1) {
                Err(e) => Err(e),
                Ok((r, p2)) => Ok((EventModel::TransferFailed { operation_id: id as u64, reason: r }, p2)),
            },
        }
    } else if s[0] == 3 {
        match read_fixed(s, 1, 16) {
            Err(e) => Err(e),
            Ok((a, p1)) => match read_fixed(s, p1, 16) {
                Err(e) => Err(e),
                Ok((b, p2)) => match read_fixed(s, p2, 8) {
                    Err(e) => Err(e),
                    Ok((g, p3)) => Ok((EventModel::AtomicSwapExecuted { evm_amount: a as u128, svm_amount: b as u128, gas_used: g as u64 }, p3)),
                },
            },
        }
    } else if s[0] == 4 {
        match read_fixed(s, 1, 8) {
            Err(e) => Err(e),
            Ok((n, p1)) => match read_fixed(s, p1, 8) {
                Err(e) => Err(e),
                Ok((g, p2)) => match read_fixed(s, p2, 8) {
                    Err(e) => Err(e),
                    Ok((c, p3)) => Ok((EventModel::PrepareCompleted { nonce: n as u64, evm_gas_reserved: g as u64, svm_compute_reserved: c as u64 }, p3)),
                },
            },
        }
    } else if s[0] == 5 {
        match read_fixed(s, 1, 8) {
            Err(e) => Err(e),
            Ok((n, p1)) => match read_fixed(s, p1, 8) {
                Err(e) => Err(e),
                Ok((g, p2)) => Ok((EventModel::CommitCompleted { nonce: n as u64, total_gas_used: g as u64 }, p2)),
            },
        }
    } else if s[0] == 6 {
        match read_fixed(s, 1, 8) {
            Err(e) => Err(e),
            Ok((n, p1)) => match read_vec(s, p1) {
                Err(e) => Err(e),
                Ok((r, p2)) => Ok((EventModel::Aborted { nonce: n as u64, reason: r }, p2)),
            },
        }
    } else if s[0] == 7 {
        match read_fixed(s, 1, 16) {
            Err(e) => Err(e),
            Ok((a, p1)) => match read_fixed(s, p1, 16) {
                Err(e) => Err(e),
                Ok((b, p2)) => Ok((EventModel::CircuitBreakerTripped { epoch_volume: a as u128, max_epoch_volume: b as u128 }, p2)),
            },
        }
    } else {
        Err(CodecError::InvalidVariant)
    }
}

/// The SCALE encoding of a commit phase.
pub open spec fn phase_bytes(p: PhaseModel) -> Seq<u8> {
    match p {
        PhaseModel::Init => seq![0u8],
        PhaseModel::Prepared => seq![1u8],
        PhaseModel::Committed => seq![2u8],
        PhaseModel::Aborted(m) => seq![3u8] + vec_bytes(m),
    }
}

/// Reading a commit phase from the front of `s`.
pub open spec fn read_phase(s: Seq<u8>) -> Result<(PhaseModel, int), CodecError> {
    if s.len() == 0 {
        Err(CodecError::NotEnoughData)
    } else if s[0] == 0 {
        Ok((PhaseModel::Init, 1))
    } else if s[0] == 1 {
        Ok((PhaseModel::Prepared, 1))
    } else if s[0] == 2 {
        Ok((PhaseModel::Committed, 1))
    } else if s[0] == 3 {
        match read_vec(s, 1) {
            Err(e) => Err(e),
            Ok((m, p)) => Ok((PhaseModel::Aborted(m), p)),
        }
    } else {
        Err(CodecError::InvalidVariant)
    }
}

/// Decoding undoes encoding: an encoded commit phase, followed by anything,
/// reads back as that phase, consuming exactly its encoding.
pub proof fn lemma_phase_round_trip(p: PhaseModel, rest: Seq<u8>)
    requires
        p matches PhaseModel::Aborted(m) ==> m.len() <= u32::MAX,
    ensures
        read_phase(phase_bytes(p) + rest) == Ok::<(PhaseModel, int), CodecError>((p, phase_bytes(p).len() as int)),
{
    let s = phase_bytes(p) + rest;
    if let PhaseModel::Aborted(m) = p {
        assert(s.subrange(1, 1 + vec_bytes(m).len() as int) =~= vec_bytes(m));
        lemma_read_vec(s, 1, m);
    }
}

/// Decoding undoes encoding: an encoded event, followed by anything, reads
/// back as that event, consuming exactly its encoding.
pub proof fn lemma_event_round_trip(e: EventModel, rest: Seq<u8>)
    requires
        event_fits(e),
    ensures
        read_event(event_bytes(e) + rest) == Ok::<(EventModel, int), CodecError>((e, event_bytes(e).len() as int)),
{
    lemma_pow256_small();
    let s = event_bytes(e) + rest;
    match e {
        EventModel::TransferInitiated { operation_id, source_vm, dest_vm, amount } => {
            assert(s.subrange(1, 9) =~= le_bytes(operation_id as nat, 8));
            lemma_read_fixed(s, 1, operation_id as nat, 8);
            assert(s[9] == vm_type_index(source_vm));
            assert(s[10] == vm_type_index(dest_vm));
            assert(s.subrange(11, 27) =~= le_bytes(amount as nat, 16));
            lemma_read_fixed(s, 11, amount as nat, 16);
        },
        EventModel::TransferCompleted { operation_id, gas_used } => {
            assert(s.subrange(1, 9) =~= le_bytes(operation_id as nat, 8));
            lemma_read_fixed(s, 1, operation_id as nat, 8);
            assert(s.subrange(9, 17) =~= le_bytes(gas_used as nat, 8));
            lemma_read_fixed(s, 9, gas_used as nat, 8);
        },
        EventModel::TransferFailed { operation_id, reason } => {
            assert(s.subrange(1, 9) =~= le_bytes(operation_id as nat, 8));
            lemma_read_fixed(s, 1, operation_id as nat, 8);
            assert(s.subrange(9, 9 + vec_bytes(reason).len() as int) =~= vec_bytes(reason));
            lemma_read_vec(s, 9, reason);
        },
        EventModel::AtomicSwapExecuted { evm_amount, svm_amount, gas_used } => {
            assert(s.subrange(1, 17) =~= le_bytes(evm_amount as nat, 16));
            lemma_read_fixed(s, 1, evm_amount as nat, 16);
            assert(s.subrange(17, 33) =~= le_bytes(svm_amount as nat, 16));
            lemma_read_fixed(s, 17, svm_amount as nat, 16);
            assert(s.subrange(33, 41) =~= le_bytes(gas_used as nat, 8));
            lemma_read_fixed(s, 33, gas_used as nat, 8);
        },
        EventModel::PrepareCompleted { nonce, evm_gas_reserved, svm_compute_reserved } => {
            assert(s.subrange(1, 9) =~= le_bytes(nonce as nat, 8));
            lemma_read_fixed(s, 1, nonce as nat, 8);
            assert(s.subrange(9, 17) =~= le_bytes(evm_gas_reserved as nat, 8));
            lemma_read_fixed(s, 9, evm_gas_reserved as nat, 8);
            assert(s.subrange(17, 25) =~= le_bytes(svm_compute_reserved as nat, 8));
            lemma_read_fixed(s, 17, svm_compute_reserved as nat, 8);
        },
        EventModel::CommitCompleted { nonce, total_gas_used } => {
            assert(s.subrange(1, 9) =~= le_bytes(nonce as nat, 8));
            lemma_read_fixed(s, 1, nonce as nat, 8);
            assert(s.subrange(9, 17) =~= le_bytes(total_gas_used as nat, 8));
            lemma_read_fixed(s, 9, total_gas_used as nat, 8);
        },
        EventModel::Aborted { nonce, reason } => {
            assert(s.subrange(1, 9) =~= le_bytes(nonce as nat, 8));
            lemma_read_fixed(s, 1, nonce as nat, 8);
            assert(s.subrange(9, 9 + vec_bytes(reason).len() as int) =~= vec_bytes(reason));
            lemma_read_vec(s, 9, reason);
        },
        EventModel::CircuitBreakerTripped { epoch_volume, max_epoch_volume } => {
            assert(s.subrange(1, 17) =~= le_bytes(epoch_volume as nat, 16));
            lemma_read_fixed(s, 1, epoch_volume as nat, 16);
            assert(s.subrange(17, 33) =~= le_bytes(max_epoch_volume as nat, 16));
            lemma_read_fixed(s, 17, max_epoch_volume as nat, 16);
        },
    }
}


/// Reads a fixed-width integer of at most 8 bytes at `pos`, as a `u64`.
fn read_u64_exec(bytes: &[u8], pos: usize, n: usize) -> (r: Result<(u64, usize), CodecError>)
    requires
        n <= 8,
    ensures
        match (r, read_fixed(bytes@, pos as int, n as nat)) {
            (Ok((v, p)), Ok((w, q))) => v as nat == w && p == q,
            (Err(e), Err(f)) => e == f,
            _ => false,
        },
{
    let (v, p) = read_fixed_exec(bytes, pos, n)?;
    proof {
        lemma_pow256_small();
        lemma_le_value_bound(bytes@.subrange(pos as int, pos + n));
        lemma_pow256_mono(n as nat, 8);
    }
    Ok((v as u64, p))
}

/// The byte vectors of a commit phase are short enough for a compact length.
pub open spec fn phase_fits(p: PhaseModel) -> bool {
    p matches PhaseModel::Aborted(m) ==> m.len() <= u32::MAX
}

impl TwoPhaseCommitPhase {
    /// The SCALE encoding of the phase.
    pub fn encode(&self) -> (out: Vec<u8>)
        requires
            phase_fits(self@),
        ensures
            out@ == phase_bytes(self@),
    {
        let mut out: Vec<u8> = Vec::new();
        match self {
            TwoPhaseCommitPhase::Init => out.push(0u8),
            TwoPhaseCommitPhase::Prepared => out.push(1u8),
            TwoPhaseCommitPhase::Committed => out.push(2u8),
            TwoPhaseCommitPhase::Aborted(m) => {
                out.push(3u8);
                push_vec(&mut out, m);
            },
        }
        assert(out@ =~= phase_bytes(self@));
        out
    }

    /// Decodes a phase from the front of `input` and advances `input` past
    /// it; on an error `input` is left as it was.
    pub fn decode(input: &mut &[u8]) -> (r: Result<TwoPhaseCommitPhase, CodecError>)
        ensures
            match (r, read_phase(old(input)@)) {
                (Ok(v), Ok((w, k))) => v@ == w && final(input)@ == old(input)@.skip(k),
                (Err(e), Err(f)) => e == f && final(input)@ == old(input)@,
                _ => false,
            },
    {
        let bytes: &[u8] = *input;
        if bytes.len() == 0 {
            return Err(CodecError::NotEnoughData);
        }
        let tag = bytes[0];
        let (v, k) = if tag == 0 {
            (TwoPhaseCommitPhase::Init, 1usize)
        } else if tag == 1 {
            (TwoPhaseCommitPhase::Prepared, 1usize)
        } else if tag == 2 {
            (TwoPhaseCommitPhase::Committed, 1usize)
        } else if tag == 3 {
            let (m, p) = read_vec_exec(bytes, 1)?;
            (TwoPhaseCommitPhase::Aborted(m), p)
        } else {
            return Err(CodecError::InvalidVariant);
        };
        let rest = vstd::slice::slice_subrange(bytes, k, bytes.len());
        assert(rest@ =~= bytes@.skip(k as int));
        *input = rest;
        Ok(v)
    }
}

impl CrossVmEvent {
    /// The SCALE encoding of the event.
    pub fn encode(&self) -> (out: Vec<u8>)
        requires
            event_fits(self@),
        ensures
            out@ == event_bytes(self@),
    {
        let mut out: Vec<u8> = Vec::new();
        match self {
            CrossVmEvent::TransferInitiated { operation_id, source_vm, dest_vm, amount } => {
                out.push(0u8);
                push_le(&mut out, *operation_id, 8);
                let a = source_vm.encode();
                push_bytes(&mut out, a.as_slice());
                let b = dest_vm.encode();
                push_bytes(&mut out, b.as_slice());
                crate::bytes::push_u128_le(&mut out, *amount);
            },
            CrossVmEvent::TransferCompleted { operation_id, gas_used } => {
                out.push(1u8);
                push_le(&mut out, *operation_id, 8);
                push_le(&mut out, *gas_used, 8);
            },
            CrossVmEvent::TransferFailed { operation_id, reason } => {
                out.push(2u8);
                push_le(&mut out, *operation_id, 8);
                push_vec(&mut out, reason);
            },
            CrossVmEvent::AtomicSwapExecuted { evm_amount, svm_amount, gas_used } => {
                out.push(3u8);
                crate::bytes::push_u128_le(&mut out, *evm_amount);
                crate::bytes::push_u128_le(&mut out, *svm_amount);
                push_le(&mut out, *gas_used, 8);
            },
            CrossVmEvent::PrepareCompleted { nonce, evm_gas_reserved, svm_compute_reserved } => {
                out.push(4u8);
                push_le(&mut out, *nonce, 8);
                push_le(&mut out, *evm_gas_reserved, 8);
                push_le(&mut out, *svm_compute_reserved, 8);
            },
            CrossVmEvent::CommitCompleted { nonce, total_gas_used } => {
                out.push(5u8);
                push_le(&mut out, *nonce, 8);
                push_le(&mut out, *total_gas_used, 8);
            },
            CrossVmEvent::Aborted { nonce, reason } => {
                out.push(6u8);
                push_le(&mut out, *nonce, 8);
                push_vec(&mut out, reason);
            },
            CrossVmEvent::CircuitBreakerTripped { epoch_volume, max_epoch_volume } => {
                out.push(7u8);
                crate::bytes::push_u128_le(&mut out, *epoch_volume);
                crate::bytes::push_u128_le(&mut out, *max_epoch_volume);
            },
        }
        assert(out@ =~= event_bytes(self@));
        out
    }

    /// Decodes an event from the front of `input` and advances `input` past
    /// it; on an error `input` is left as it was.
    pub fn decode(input: &mut &[u8]) -> (r: Result<CrossVmEvent, CodecError>)
        ensures
            match (r, read_event(old(input)@)) {
                (Ok(v), Ok((w, k))) => v@ == w && final(input)@ == old(input)@.skip(k),
                (Err(e), Err(f)) => e == f && final(input)@ == old(input)@,
                _ => false,
            },
    {
        let bytes: &[u8] = *input;
        if bytes.len() == 0 {
            return Err(CodecError::NotEnoughData);
        }
        let tag = bytes[0];
        let (v, k) = if tag == 0 {
            let (id, p1) = read_u64_exec(bytes, 1, 8)?;
            let (src, p2) = read_vm_exec(bytes, p1)?;
            let (dst, p3) = read_vm_exec(bytes, p2)?;
            let (amt, p4) = read_fixed_exec(bytes, p3, 16)?;
            (CrossVmEvent::TransferInitiated { operation_id: id, source_vm: src, dest_vm: dst, amount: amt }, p4)
        } else if tag == 1 {
            let (id, p1) = read_u64_exec(bytes, 1, 8)?;
            let (g, p2) = read_u64_exec(bytes, p1, 8)?;
            (CrossVmEvent::TransferCompleted { operation_id: id, gas_used: g }, p2)
        } else if tag == 2 {
            let (id, p1) = read_u64_exec(bytes, 1, 8)?;
            let (r, p2) = read_vec_exec(bytes, p1)?;
            (CrossVmEvent::TransferFailed { operation_id: id, reason: r }, p2)
        } else if tag == 3 {
            let (a, p1) = read_fixed_exec(bytes, 1, 16)?;
            let (b, p2) = read_fixed_exec(bytes, p1, 16)?;
            let (g, p3) = read_u64_exec(bytes, p2, 8)?;
            (CrossVmEvent::AtomicSwapExecuted { evm_amount: a, svm_amount: b, gas_used: g }, p3)
        } else if tag == 4 {
            let (n, p1) = read_u64_exec(bytes, 1, 8)?;
            let (g, p2) = read_u64_exec(bytes, p1, 8)?;
            let (c, p3) = read_u64_exec(bytes, p2, 8)?;
            (CrossVmEvent::PrepareCompleted { nonce: n, evm_gas_reserved: g, svm_compute_reserved: c }, p3)
        } else if tag == 5 {
            let (n, p1) = read_u64_exec(bytes, 1, 8)?;
            let (g, p2) = read_u64_exec(bytes, p1, 8)?;
            (CrossVmEvent::CommitCompleted { nonce: n, total_gas_used: g }, p2)
        } else if tag == 6 {
            let (n, p1) = read_u64_exec(bytes, 1, 8)?;
            let (r, p2) = read_vec_exec(bytes, p1)?;
            (CrossVmEvent::Aborted { nonce: n, reason: r }, p2)
        } else if tag == 7 {
            let (a, p1) = read_fixed_exec(bytes, 1, 16)?;
            let (b, p2) = read_fixed_exec(bytes, p1, 16)?;
            (CrossVmEvent::CircuitBreakerTripped { epoch_volume: a, max_epoch_volume: b }, p2)
        } else {
            return Err(CodecError::InvalidVariant);
        };
        let rest = vstd::slice::slice_subrange(bytes, k, bytes.len());
        assert(rest@ =~= bytes@.skip(k as int));
        *input = rest;
        Ok(v)
    }
}


/// A piece of an encoding, found at `off` within it, is found at `pos + off`
/// in a sequence that holds the encoding at `pos`.
proof fn lemma_piece(s: Seq<u8>, pos: int, whole: Seq<u8>, off: int, piece: Seq<u8>)
    requires
        0 <= pos,
        pos + whole.len() <= s.len(),
        s.subrange(pos, pos + whole.len()) == whole,
        0 <= off,
        off + piece.len() <= whole.len(),
        whole.subrange(off, off + piece.len()) == piece,
    ensures
        s.subrange(pos + off, pos + off + piece.len()) == piece,
{
    assert forall|j: int| 0 <= j < piece.len() implies s.subrange(pos + off, pos + off + piece.len())[j] == piece[j] by {
        assert(s.subrange(pos, pos + whole.len())[off + j] == whole[off + j]);
        assert(whole.subrange(off, off + piece.len())[j] == whole[off + j]);
    }
    assert(s.subrange(pos + off, pos + off + piece.len()) =~= piece);
}

/// Reading 20 raw bytes at `pos`.
pub open spec fn read_array20(s: Seq<u8>, pos: int) -> Result<(Seq<u8>, int), CodecError> {
    if pos < 0 || pos + 20 > s.len() {
        Err(CodecError::NotEnoughData)
    } else {
        Ok((s.subrange(pos, pos + 20), pos + 20))
    }
}

/// Reading one byte at `pos`.
pub open spec fn read_byte(s: Seq<u8>, pos: int) -> Result<(u8, int), CodecError> {
    if pos < 0 || pos >= s.len() { Err(CodecError::NotEnoughData) } else { Ok((s[pos], pos + 1)) }
}

/// The SCALE encoding of an operation: its variant index, then its fields in
/// order; addresses are 20 raw bytes.
pub open spec fn op_bytes(o: OperationModel) -> Seq<u8> {
    match o {
        OperationModel::TransferToEvm { source, destination, amount } =>
            seq![0u8] + vec_bytes(source) + destination + le_bytes(amount as nat, 16),
        OperationModel::TransferToSvm { source, destination, amount } =>
            seq![1u8] + source + vec_bytes(destination) + le_bytes(amount as nat, 16),
        OperationModel::CallEvm { caller, contract, input, value } =>
            seq![2u8] + vec_bytes(caller) + contract + vec_bytes(input) + le_bytes(value as nat, 16),
        OperationModel::CallSvm { caller, pallet_index, call_index, input } =>
            seq![3u8] + caller + seq![pallet_index] + seq![call_index] + vec_bytes(input),
        OperationModel::AtomicSwap { evm_party, svm_party, evm_asset, svm_asset, evm_amount, svm_amount } =>
            seq![4u8] + evm_party + vec_bytes(svm_party) + evm_asset + vec_bytes(svm_asset) + le_bytes(evm_amount as nat, 16)
                + le_bytes(svm_amount as nat, 16),
        OperationModel::MessageToEvm { sender, target_contract, message, nonce } =>
            seq![5u8] + vec_bytes(sender) + target_contract + vec_bytes(message) + le_bytes(nonce as nat, 8),
        OperationModel::MessageToSvm { sender, target_program, message, nonce } =>
            seq![6u8] + sender + vec_bytes(target_program) + vec_bytes(message) + le_bytes(nonce as nat, 8),
    }
}

/// The addresses of an operation are 20 bytes and its byte vectors are
/// short enough for a compact length.
pub open spec fn op_fits(o: OperationModel) -> bool {
    match o {
        OperationModel::TransferToEvm { source, destination, .. } => source.len() <= u32::MAX && destination.len() == 20,
        OperationModel::TransferToSvm { source, destination, .. } => source.len() == 20 && destination.len() <= u32::MAX,
        OperationModel::CallEvm { caller, contract, input, .. } => caller.len() <= u32::MAX && contract.len() == 20 && input.len() <= u32::MAX,
        OperationModel::CallSvm { caller, input, .. } => caller.len() == 20 && input.len() <= u32::MAX,
        OperationModel::AtomicSwap { evm_party, svm_party, evm_asset, svm_asset, .. } =>
            evm_party.len() == 20 && svm_party.len() <= u32::MAX && evm_asset.len() == 20 && svm_asset.len() <= u32::MAX,
        OperationModel::MessageToEvm { sender, target_contract, message, .. } =>
            sender.len() <= u32::MAX && target_contract.len() == 20 && message.len() <= u32::MAX,
        OperationModel::MessageToSvm { sender, target_program, message, .. } =>
            sender.len() == 20 && target_program.len() <= u32::MAX && message.len() <= u32::MAX,
    }
}

/// Reading an operation at `pos`.
#[verifier::opaque]
pub open spec fn read_op(s: Seq<u8>, pos: int) -> Result<(OperationModel, int), CodecError> {
    match read_byte(s, pos) {
        Err(e) => Err(e),
        Ok((tag, p0)) => if tag == 0 {
            match read_vec(s, p0) { Err(e) => Err(e), Ok((a, p1)) =>
            match read_array20(s, p1) { Err(e) => Err(e), Ok((b, p2)) =>
            match read_fixed(s, p2, 16) { Err(e) => Err(e), Ok((c, p3)) =>
                Ok((OperationModel::TransferToEvm { source: a, destination: b, amount: c as u128 }, p3)) } } }
        } else if tag == 1 {
            match read_array20(s, p0) { Err(e) => Err(e), Ok((a, p1)) =>
            match read_vec(s, p1) { Err(e) => Err(e), Ok((b, p2)) =>
            match read_fixed(s, p2, 16) { Err(e) => Err(e), Ok((c, p3)) =>
                Ok((OperationModel::TransferToSvm { source: a, destination: b, amount: c as u128 }, p3)) } } }
        } else if tag == 2 {
            match read_vec(s, p0) { Err(e) => Err(e), Ok((a, p1)) =>
            match read_array20(s, p1) { Err(e) => Err(e), Ok((b, p2)) =>
            match read_vec(s, p2) { Err(e) => Err(e), Ok((c, p3)) =>
            match read_fixed(s, p3, 16) { Err(e) => Err(e), Ok((d, p4)) =>
                Ok((OperationModel::CallEvm { caller: a, contract: b, input: c, value: d as u128 }, p4)) } } } }
        } else if tag == 3 {
            match read_array20(s, p0) { Err(e) => Err(e), Ok((a, p1)) =>
            match read_byte(s, p1) { Err(e) => Err(e), Ok((b, p2)) =>
            match read_byte(s, p2) { Err(e) => Err(e), Ok((c, p3)) =>
            match read_vec(s, p3) { Err(e) => Err(e), Ok((d, p4)) =>
                Ok((OperationModel::CallSvm { caller: a, pallet_index: b, call_index: c, input: d }, p4)) } } } }
        } else if tag == 4 {
            match read_array20(s, p0) { Err(e) => Err(e), Ok((a, p1)) =>
            match read_vec(s, p1) { Err(e) => Err(e), Ok((b, p2)) =>
            match read_array20(s, p2) { Err(e) => Err(e), Ok((c, p3)) =>
            match read_vec(s, p3) { Err(e) => Err(e), Ok((d, p4)) =>
            match read_fixed(s, p4, 16) { Err(e) => Err(e), Ok((x, p5)) =>
            match read_fixed(s, p5, 16) { Err(e) => Err(e), Ok((y, p6)) =>
                Ok((OperationModel::AtomicSwap { evm_party: a, svm_party: b, evm_asset: c, svm_asset: d, evm_amount: x as u128, svm_amount: y as u128 }, p6)) } } } } } }
        } else if tag == 5 {
            match read_vec(s, p0) { Err(e) => Err(e), Ok((a, p1)) =>
            match read_array20(s, p1) { Err(e) => Err(e), Ok((b, p2)) =>
            match read_vec(s, p2) { Err(e) => Err(e), Ok((c, p3)) =>
            match read_fixed(s, p3, 8) { Err(e) => Err(e), Ok((d, p4)) =>
                Ok((OperationModel::MessageToEvm { sender: a, target_contract: b, message: c, nonce: d as u64 }, p4)) } } } }
        } else if tag == 6 {
            match read_array20(s, p0) { Err(e) => Err(e), Ok((a, p1)) =>
            match read_vec(s, p1) { Err(e) => Err(e), Ok((b, p2)) =>
            match read_vec(s, p2) { Err(e) => Err(e), Ok((c, p3)) =>
            match read_fixed(s, p3, 8) { Err(e) => Err(e), Ok((d, p4)) =>
                Ok((OperationModel::MessageToSvm { sender: a, target_program: b, message: c, nonce: d as u64 }, p4)) } } } }
        } else {
            Err(CodecError::InvalidVariant)
        },
    }
}

/// Reading a commit phase at `pos`.
pub open spec fn read_phase_at(s: Seq<u8>, pos: int) -> Result<(PhaseModel, int), CodecError> {
    match read_byte(s, pos) {
        Err(e) => Err(e),
        Ok((tag, p)) => if tag == 0 {
            Ok((PhaseModel::Init, p))
        } else if tag == 1 {
            Ok((PhaseModel::Prepared, p))
        } else if tag == 2 {
            Ok((PhaseModel::Committed, p))
        } else if tag == 3 {
            match read_vec(s, p) {
                Err(e) => Err(e),
                Ok((m, q)) => Ok((PhaseModel::Aborted(m), q)),
            }
        } else {
            Err(CodecError::InvalidVariant)
        },
    }
}

/// The SCALE encoding of a prepared operation: its fields in order.
pub open spec fn prepared_bytes(p: PreparedModel) -> Seq<u8> {
    le_bytes(p.nonce as nat, 8) + op_bytes(p.operation) + phase_bytes(p.phase) + le_bytes(p.evm_gas_reserved as nat, 8)
        + le_bytes(p.svm_compute_reserved as nat, 8) + vec_bytes(p.source_lock_receipt) + vec_bytes(p.dest_lock_receipt)
}

/// The parts of a prepared operation fit their encodings.
pub open spec fn prepared_fits(p: PreparedModel) -> bool {
    &&& op_fits(p.operation)
    &&& phase_fits(p.phase)
    &&& p.source_lock_receipt.len() <= u32::MAX
    &&& p.dest_lock_receipt.len() <= u32::MAX
}

/// Reading a prepared operation from the front of `s`.
pub open spec fn read_prepared(s: Seq<u8>) -> Result<(PreparedModel, int), CodecError> {
    match read_fixed(s, 0, 8) { Err(e) => Err(e), Ok((n, p1)) =>
    match read_op(s, p1) { Err(e) => Err(e), Ok((op, p2)) =>
    match read_phase_at(s, p2) { Err(e) => Err(e), Ok((ph, p3)) =>
    match read_fixed(s, p3, 8) { Err(e) => Err(e), Ok((g, p4)) =>
    match read_fixed(s, p4, 8) { Err(e) => Err(e), Ok((c, p5)) =>
    match read_vec(s, p5) { Err(e) => Err(e), Ok((r1, p6)) =>
    match read_vec(s, p6) { Err(e) => Err(e), Ok((r2, p7)) =>
        Ok((PreparedModel {
            nonce: n as u64,
            operation: op,
            phase: ph,
            evm_gas_reserved: g as u64,
            svm_compute_reserved: c as u64,
            source_lock_receipt: r1,
            dest_lock_receipt: r2,
        }, p7)) } } } } } } }
}

/// A commit phase is read back from its encoding at any position.
proof fn lemma_read_phase_at(s: Seq<u8>, pos: int, p: PhaseModel)
    requires
        phase_fits(p),
        0 <= pos,
        pos + phase_bytes(p).len() <= s.len(),
        s.subrange(pos, pos + phase_bytes(p).len()) == phase_bytes(p),
    ensures
        read_phase_at(s, pos) == Ok::<(PhaseModel, int), CodecError>((p, pos + phase_bytes(p).len())),
{
    let w = phase_bytes(p);
    assert(s[pos] == w[0]) by {
        assert(s.subrange(pos, pos + w.len())[0] == w[0]);
    }
    if let PhaseModel::Aborted(m) = p {
        assert(w.subrange(1, 1 + vec_bytes(m).len() as int) =~= vec_bytes(m));
        lemma_piece(s, pos, w, 1, vec_bytes(m));
        lemma_read_vec(s, pos + 1, m);
    }
}

#[verifier::rlimit(30)]
proof fn lemma_read_op_transfer_to_evm(s: Seq<u8>, pos: int, o: OperationModel)
    requires
        o is TransferToEvm,
        op_fits(o),
        0 <= pos,
        pos + op_bytes(o).len() <= s.len(),
        s.subrange(pos, pos + op_bytes(o).len()) == op_bytes(o),
    ensures
        read_op(s, pos) == Ok::<(OperationModel, int), CodecError>((o, pos + op_bytes(o).len())),
{
    reveal(read_op);
    lemma_pow256_small();
    let w = op_bytes(o);
    assert(s[pos] == w[0]) by {
        assert(s.subrange(pos, pos + w.len())[0] == w[0]);
    }
    if let OperationModel::TransferToEvm { source, destination, amount } = o {
        let a = vec_bytes(source);
        assert(w.subrange(1, 1 + a.len() as int) =~= a);
        lemma_piece(s, pos, w, 1, a);
        lemma_read_vec(s, pos + 1, source);
        let o1: int = 1 + a.len() as int;
        assert(w.subrange(o1, o1 + 20) =~= destination);
        lemma_piece(s, pos, w, o1, destination);
        let o2: int = o1 + 20;
        assert(w.subrange(o2, o2 + 16) =~= le_bytes(amount as nat, 16));
        lemma_piece(s, pos, w, o2, le_bytes(amount as nat, 16));
        lemma_read_fixed(s, pos + o2, amount as nat, 16);
    }
}

#[verifier::rlimit(30)]
proof fn lemma_read_op_transfer_to_svm(s: Seq<u8>, pos: int, o: OperationModel)
    requires
        o is TransferToSvm,
        op_fits(o),
        0 <= pos,
        pos + op_bytes(o).len() <= s.len(),
        s.subrange(pos, pos + op_bytes(o).len()) == op_bytes(o),
    ensures
        read_op(s, pos) == Ok::<(OperationModel, int), CodecError>((o, pos + op_bytes(o).len())),
{
    reveal(read_op);
    lemma_pow256_small();
    let w = op_bytes(o);
    assert(s[pos] == w[0]) by {
        assert(s.subrange(pos, pos + w.len())[0] == w[0]);
    }
    if let OperationModel::TransferToSvm { source, destination, amount } = o {
        assert(w.subrange(1, 21) =~= source);
        lemma_piece(s, pos, w, 1, source);
        let b = vec_bytes(destination);
        assert(w.subrange(21, 21 + b.len() as int) =~= b);
        lemma_piece(s, pos, w, 21, b);
        lemma_read_vec(s, pos + 21, destination);
        let o2: int = 21 + b.len() as int;
        assert(w.subrange(o2, o2 + 16) =~= le_bytes(amount as nat, 16));
        lemma_piece(s, pos, w, o2, le_bytes(amount as nat, 16));
        lemma_read_fixed(s, pos + o2, amount as nat, 16);
    }
}

#[verifier::rlimit(30)]
proof fn lemma_read_op_call_evm(s: Seq<u8>, pos: int, o: OperationModel)
    requires
        o is CallEvm,
        op_fits(o),
        0 <= pos,
        pos + op_bytes(o).len() <= s.len(),
        s.subrange(pos, pos + op_bytes(o).len()) == op_bytes(o),
    ensures
        read_op(s, pos) == Ok::<(OperationModel, int), CodecError>((o, pos + op_bytes(o).len())),
{
    reveal(read_op);
    lemma_pow256_small();
    let w = op_bytes(o);
    assert(s[pos] == w[0]) by {
        assert(s.subrange(pos, pos + w.len())[0] == w[0]);
    }
    if let OperationModel::CallEvm { caller, contract, input, value } = o {
        let a = vec_bytes(caller);
        assert(w.subrange(1, 1 + a.len() as int) =~= a);
        lemma_piece(s, pos, w, 1, a);
        lemma_read_vec(s, pos + 1, caller);
        let o1: int = 1 + a.len() as int;
        assert(w.subrange(o1, o1 + 20) =~= contract);
        lemma_piece(s, pos, w, o1, contract);
        let o2: int = o1 + 20;
        let c = vec_bytes(input);
        assert(w.subrange(o2, o2 + c.len() as int) =~= c);
        lemma_piece(s, pos, w, o2, c);
        lemma_read_vec(s, pos + o2, input);
        let o3: int = o2 + c.len();
        assert(w.subrange(o3, o3 + 16) =~= le_bytes(value as nat, 16));
        lemma_piece(s, pos, w, o3, le_bytes(value as nat, 16));
        lemma_read_fixed(s, pos + o3, value as nat, 16);
    }
}

#[verifier::rlimit(30)]
proof fn lemma_read_op_call_svm(s: Seq<u8>, pos: int, o: OperationModel)
    requires
        o is CallSvm,
        op_fits(o),
        0 <= pos,
        pos + op_bytes(o).len() <= s.len(),
        s.subrange(pos, pos + op_bytes(o).len()) == op_bytes(o),
    ensures
        read_op(s, pos) == Ok::<(OperationModel, int), CodecError>((o, pos + op_bytes(o).len())),
{
    reveal(read_op);
    lemma_pow256_small();
    let w = op_bytes(o);
    assert(s[pos] == w[0]) by {
        assert(s.subrange(pos, pos + w.len())[0] == w[0]);
    }
    if let OperationModel::CallSvm { caller, pallet_index, call_index, input } = o {
        assert(w.subrange(1, 21) =~= caller);
        lemma_piece(s, pos, w, 1, caller);
        assert(s[pos + 21] == pallet_index) by {
            assert(s.subrange(pos, pos + w.len())[21] == w[21]);
        }
        assert(s[pos + 22] == call_index) by {
            assert(s.subrange(pos, pos + w.len())[22] == w[22]);
        }
        let d = vec_bytes(input);
        assert(w.subrange(23, 23 + d.len() as int) =~= d);
        lemma_piece(s, pos, w, 23, d);
        lemma_read_vec(s, pos + 23, input);
    }
}

#[verifier::rlimit(30)]
proof fn lemma_read_op_atomic_swap(s: Seq<u8>, pos: int, o: OperationModel)
    requires
        o is AtomicSwap,
        op_fits(o),
        0 <= pos,
        pos + op_bytes(o).len() <= s.len(),
        s.subrange(pos, pos + op_bytes(o).len()) == op_bytes(o),
    ensures
        read_op(s, pos) == Ok::<(OperationModel, int), CodecError>((o, pos + op_bytes(o).len())),
{
    reveal(read_op);
    lemma_pow256_small();
    let w = op_bytes(o);
    assert(s[pos] == w[0]) by {
        assert(s.subrange(pos, pos + w.len())[0] == w[0]);
    }
    if let OperationModel::AtomicSwap { evm_party, svm_party, evm_asset, svm_asset, evm_amount, svm_amount } = o {
        assert(w.subrange(1, 21) =~= evm_party);
        lemma_piece(s, pos, w, 1, evm_party);
        let b = vec_bytes(svm_party);
        assert(w.subrange(21, 21 + b.len() as int) =~= b);
        lemma_piece(s, pos, w, 21, b);
        lemma_read_vec(s, pos + 21, svm_party);
        let o2: int = 21 + b.len() as int;
        assert(w.subrange(o2, o2 + 20) =~= evm_asset);
        lemma_piece(s, pos, w, o2, evm_asset);
        let o3: int = o2 + 20;
        let d = vec_bytes(svm_asset);
        assert(w.subrange(o3, o3 + d.len() as int) =~= d);
        lemma_piece(s, pos, w, o3, d);
        lemma_read_vec(s, pos + o3, svm_asset);
        let o4: int = o3 + d.len();
        assert(w.subrange(o4, o4 + 16) =~= le_bytes(evm_amount as nat, 16));
        lemma_piece(s, pos, w, o4, le_bytes(evm_amount as nat, 16));
        lemma_read_fixed(s, pos + o4, evm_amount as nat, 16);
        let o5: int = o4 + 16;
        assert(w.subrange(o5, o5 + 16) =~= le_bytes(svm_amount as nat, 16));
        lemma_piece(s, pos, w, o5, le_bytes(svm_amount as nat, 16));
        lemma_read_fixed(s, pos + o5, svm_amount as nat, 16);
    }
}

#[verifier::rlimit(30)]
proof fn lemma_read_op_message_to_evm(s: Seq<u8>, pos: int, o: OperationModel)
    requires
        o is MessageToEvm,
        op_fits(o),
        0 <= pos,
        pos + op_bytes(o).len() <= s.len(),
        s.subrange(pos, pos + op_bytes(o).len()) == op_bytes(o),
    ensures
        read_op(s, pos) == Ok::<(OperationModel, int), CodecError>((o, pos + op_bytes(o).len())),
{
    reveal(read_op);
    lemma_pow256_small();
    let w = op_bytes(o);
    assert(s[pos] == w[0]) by {
        assert(s.subrange(pos, pos + w.len())[0] == w[0]);
    }
    if let OperationModel::MessageToEvm { sender, target_contract, message, nonce } = o {
        let a = vec_bytes(sender);
        assert(w.subrange(1, 1 + a.len() as int) =~= a);
        lemma_piece(s, pos, w, 1, a);
        lemma_read_vec(s, pos + 1, sender);
        let o1: int = 1 + a.len() as int;
        assert(w.subrange(o1, o1 + 20) =~= target_contract);
        lemma_piece(s, pos, w, o1, target_contract);
        let o2: int = o1 + 20;
        let c = vec_bytes(message);
        assert(w.subrange(o2, o2 + c.len() as int) =~= c);
        lemma_piece(s, pos, w, o2, c);
        lemma_read_vec(s, pos + o2, message);
        let o3: int = o2 + c.len();
        assert(w.subrange(o3, o3 + 8) =~= le_bytes(nonce as nat, 8));
        lemma_piece(s, pos, w, o3, le_bytes(nonce as nat, 8));
        lemma_read_fixed(s, pos + o3, nonce as nat, 8);
    }
}

#[verifier::rlimit(30)]
proof fn lemma_read_op_message_to_svm(s: Seq<u8>, pos: int, o: OperationModel)
    requires
        o is MessageToSvm,
        op_fits(o),
        0 <= pos,
        pos + op_bytes(o).len() <= s.len(),
        s.subrange(pos, pos + op_bytes(o).len()) == op_bytes(o),
    ensures
        read_op(s, pos) == Ok::<(OperationModel, int), CodecError>((o, pos + op_bytes(o).len())),
{
    reveal(read_op);
    lemma_pow256_small();
    let w = op_bytes(o);
    assert(s[pos] == w[0]) by {
        assert(s.subrange(pos, pos + w.len())[0] == w[0]);
    }
    if let OperationModel::MessageToSvm { sender, target_program, message, nonce } = o {
        assert(w.subrange(1, 21) =~= sender);
        lemma_piece(s, pos, w, 1, sender);
        let b = vec_bytes(target_program);
        assert(w.subrange(21, 21 + b.len() as int) =~= b);
        lemma_piece(s, pos, w, 21, b);
        lemma_read_vec(s, pos + 21, target_program);
        let o2: int = 21 + b.len() as int;
        let c = vec_bytes(message);
        assert(w.subrange(o2, o2 + c.len() as int) =~= c);
        lemma_piece(s, pos, w, o2, c);
        lemma_read_vec(s, pos + o2, message);
        let o3: int = o2 + c.len();
        assert(w.subrange(o3, o3 + 8) =~= le_bytes(nonce as nat, 8));
        lemma_piece(s, pos, w, o3, le_bytes(nonce as nat, 8));
        lemma_read_fixed(s, pos + o3, nonce as nat, 8);
    }
}

/// An operation is read back from its encoding at any position.
proof fn lemma_read_op(s: Seq<u8>, pos: int, o: OperationModel)
    requires
        op_fits(o),
        0 <= pos,
        pos + op_bytes(o).len() <= s.len(),
        s.subrange(pos, pos + op_bytes(o).len()) == op_bytes(o),
    ensures
        read_op(s, pos) == Ok::<(OperationModel, int), CodecError>((o, pos + op_bytes(o).len())),
{
    match o {
        OperationModel::TransferToEvm { .. } => lemma_read_op_transfer_to_evm(s, pos, o),
        OperationModel::TransferToSvm { .. } => lemma_read_op_transfer_to_svm(s, pos, o),
        OperationModel::CallEvm { .. } => lemma_read_op_call_evm(s, pos, o),
        OperationModel::CallSvm { .. } => lemma_read_op_call_svm(s, pos, o),
        OperationModel::AtomicSwap { .. } => lemma_read_op_atomic_swap(s, pos, o),
        OperationModel::MessageToEvm { .. } => lemma_read_op_message_to_evm(s, pos, o),
        OperationModel::MessageToSvm { .. } => lemma_read_op_message_to_svm(s, pos, o),
    }
}

/// Decoding undoes encoding: an encoded prepared operation, followed by
/// anything, reads back as that operation, consuming exactly its encoding.
#[verifier::rlimit(60)]
pub proof fn lemma_prepared_round_trip(p: PreparedModel, rest: Seq<u8>)
    requires
        prepared_fits(p),
    ensures
        read_prepared(prepared_bytes(p) + rest) == Ok::<(PreparedModel, int), CodecError>((p, prepared_bytes(p).len() as int)),
{
    lemma_pow256_small();
    let w = prepared_bytes(p);
    let s = w + rest;
    assert(s.subrange(0, w.len() as int) =~= w);
    let n8 = le_bytes(p.nonce as nat, 8);
    assert(w.subrange(0, 8) =~= n8);
    lemma_piece(s, 0, w, 0, n8);
    lemma_read_fixed(s, 0, p.nonce as nat, 8);
    let ob = op_bytes(p.operation);
    assert(w.subrange(8, 8 + ob.len() as int) =~= ob);
    lemma_piece(s, 0, w, 8, ob);
    lemma_read_op(s, 8, p.operation);
    let o2: int = 8 + ob.len() as int;
    let pb = phase_bytes(p.phase);
    assert(w.subrange(o2, o2 + pb.len() as int) =~= pb);
    lemma_piece(s, 0, w, o2, pb);
    lemma_read_phase_at(s, o2, p.phase);
    let o3: int = o2 + pb.len();
    let g8 = le_bytes(p.evm_gas_reserved as nat, 8);
    assert(w.subrange(o3, o3 + 8) =~= g8);
    lemma_piece(s, 0, w, o3, g8);
    lemma_read_fixed(s, o3, p.evm_gas_reserved as nat, 8);
    let o4: int = o3 + 8;
    let c8 = le_bytes(p.svm_compute_reserved as nat, 8);
    assert(w.subrange(o4, o4 + 8) =~= c8);
    lemma_piece(s, 0, w, o4, c8);
    lemma_read_fixed(s, o4, p.svm_compute_reserved as nat, 8);
    let o5: int = o4 + 8;
    let r1 = vec_bytes(p.source_lock_receipt);
    assert(w.subrange(o5, o5 + r1.len() as int) =~= r1);
    lemma_piece(s, 0, w, o5, r1);
    lemma_read_vec(s, o5, p.source_lock_receipt);
    let o6: int = o5 + r1.len();
    let r2 = vec_bytes(p.dest_lock_receipt);
    assert(w.subrange(o6, o6 + r2.len() as int) =~= r2);
    lemma_piece(s, 0, w, o6, r2);
    lemma_read_vec(s, o6, p.dest_lock_receipt);
}


/// Reads 20 raw bytes at `pos`.
fn read_array20_exec(bytes: &[u8], pos: usize) -> (r: Result<([u8; 20], usize), CodecError>)
    ensures
        match (r, read_array20(bytes@, pos as int)) {
            (Ok((v, p)), Ok((w, q))) => v@ == w && p == q,
            (Err(e), Err(f)) => e == f,
            _ => false,
        },
{
    if bytes.len() < 20 || pos > bytes.len() - 20 {
        return Err(CodecError::NotEnoughData);
    }
    let mut a = [0u8; 20];
    let mut i: usize = 0;
    while i < 20
        invariant
            i <= 20,
            pos + 20 <= bytes.len(),
            forall|j: int| 0 <= j < i ==> a@[j] == bytes@[pos + j],
        decreases 20 - i,
    {
        a[i] = bytes[pos + i];
        i = i + 1;
    }
    assert(a@ =~= bytes@.subrange(pos as int, pos + 20));
    Ok((a, pos + 20))
}

/// Reads one byte at `pos`.
fn read_byte_exec(bytes: &[u8], pos: usize) -> (r: Result<(u8, usize), CodecError>)
    ensures
        match (r, read_byte(bytes@, pos as int)) {
            (Ok((v, p)), Ok((w, q))) => v == w && p == q,
            (Err(e), Err(f)) => e == f,
            _ => false,
        },
{
    if pos >= bytes.len() {
        return Err(CodecError::NotEnoughData);
    }
    Ok((bytes[pos], pos + 1))
}

/// Reads an operation at `pos`.
fn read_op_exec(bytes: &[u8], pos: usize) -> (r: Result<(CrossVmOperation, usize), CodecError>)
    ensures
        match (r, read_op(bytes@, pos as int)) {
            (Ok((v, p)), Ok((w, q))) => v@ == w && p == q && p <= bytes.len(),
            (Err(e), Err(f)) => e == f,
            _ => false,
        },
{
    reveal(read_op);
    let (tag, p0) = read_byte_exec(bytes, pos)?;
    if tag == 0 {
        let (a, p1) = read_vec_exec(bytes, p0)?;
        let (b, p2) = read_array20_exec(bytes, p1)?;
        let (c, p3) = read_fixed_exec(bytes, p2, 16)?;
        Ok((CrossVmOperation::TransferToEvm { source: a, destination: b, amount: c }, p3))
    } else if tag == 1 {
        let (a, p1) = read_array20_exec(bytes, p0)?;
        let (b, p2) = read_vec_exec(bytes, p1)?;
        let (c, p3) = read_fixed_exec(bytes, p2, 16)?;
        Ok((CrossVmOperation::TransferToSvm { source: a, destination: b, amount: c }, p3))
    } else if tag == 2 {
        let (a, p1) = read_vec_exec(bytes, p0)?;
        let (b, p2) = read_array20_exec(bytes, p1)?;
        let (c, p3) = read_vec_exec(bytes, p2)?;
        let (d, p4) = read_fixed_exec(bytes, p3, 16)?;
        Ok((CrossVmOperation::CallEvm { caller: a, contract: b, input: c, value: d }, p4))
    } else if tag == 3 {
        let (a, p1) = read_array20_exec(bytes, p0)?;
        let (b, p2) = read_byte_exec(bytes, p1)?;
        let (c, p3) = read_byte_exec(bytes, p2)?;
        let (d, p4) = read_vec_exec(bytes, p3)?;
        Ok((CrossVmOperation::CallSvm { caller: a, pallet_index: b, call_index: c, input: d }, p4))
    } else if tag == 4 {
        let (a, p1) = read_array20_exec(bytes, p0)?;
        let (b, p2) = read_vec_exec(bytes, p1)?;
        let (c, p3) = read_array20_exec(bytes, p2)?;
        let (d, p4) = read_vec_exec(bytes, p3)?;
        let (x, p5) = read_fixed_exec(bytes, p4, 16)?;
        let (y, p6) = read_fixed_exec(bytes, p5, 16)?;
        Ok((CrossVmOperation::AtomicSwap { evm_party: a, svm_party: b, evm_asset: c, svm_asset: d, evm_amount: x, svm_amount: y }, p6))
    } else if tag == 5 {
        let (a, p1) = read_vec_exec(bytes, p0)?;
        let (b, p2) = read_array20_exec(bytes, p1)?;
        let (c, p3) = read_vec_exec(bytes, p2)?;
        let (d, p4) = read_u64_exec(bytes, p3, 8)?;
        Ok((CrossVmOperation::MessageToEvm { sender: a, target_contract: b, message: c, nonce: d }, p4))
    } else if tag == 6 {
        let (a, p1) = read_array20_exec(bytes, p0)?;
        let (b, p2) = read_vec_exec(bytes, p1)?;
        let (c, p3) = read_vec_exec(bytes, p2)?;
        let (d, p4) = read_u64_exec(bytes, p3, 8)?;
        Ok((CrossVmOperation::MessageToSvm { sender: a, target_program: b, message: c, nonce: d }, p4))
    } else {
        Err(CodecError::InvalidVariant)
    }
}

/// Reads a commit phase at `pos`.
fn read_phase_at_exec(bytes: &[u8], pos: usize) -> (r: Result<(TwoPhaseCommitPhase, usize), CodecError>)
    ensures
        match (r, read_phase_at(bytes@, pos as int)) {
            (Ok((v, p)), Ok((w, q))) => v@ == w && p == q,
            (Err(e), Err(f)) => e == f,
            _ => false,
        },
{
    let (tag, p) = read_byte_exec(bytes, pos)?;
    if tag == 0 {
        Ok((TwoPhaseCommitPhase::Init, p))
    } else if tag == 1 {
        Ok((TwoPhaseCommitPhase::Prepared, p))
    } else if tag == 2 {
        Ok((TwoPhaseCommitPhase::Committed, p))
    } else if tag == 3 {
        let (m, q) = read_vec_exec(bytes, p)?;
        Ok((TwoPhaseCommitPhase::Aborted(m), q))
    } else {
        Err(CodecError::InvalidVariant)
    }
}

/// Appends the encoding of an operation.
fn push_op(out: &mut Vec<u8>, op: &CrossVmOperation)
    requires
        op_fits(op@),
    ensures
        final(out)@ == old(out)@ + op_bytes(op@),
{
    let ghost before = out@;
    match op {
        CrossVmOperation::TransferToEvm { source, destination, amount } => {
            out.push(0u8);
            push_vec(out, source);
            push_bytes(out, destination);
            crate::bytes::push_u128_le(out, *amount);
        },
        CrossVmOperation::TransferToSvm { source, destination, amount } => {
            out.push(1u8);
            push_bytes(out, source);
            push_vec(out, destination);
            crate::bytes::push_u128_le(out, *amount);
        },
        CrossVmOperation::CallEvm { caller, contract, input, value } => {
            out.push(2u8);
            push_vec(out, caller);
            push_bytes(out, contract);
            push_vec(out, input);
            crate::bytes::push_u128_le(out, *value);
        },
        CrossVmOperation::CallSvm { caller, pallet_index, call_index, input } => {
            out.push(3u8);
            push_bytes(out, caller);
            out.push(*pallet_index);
            out.push(*call_index);
            push_vec(out, input);
        },
        CrossVmOperation::AtomicSwap { evm_party, svm_party, evm_asset, svm_asset, evm_amount, svm_amount } => {
            out.push(4u8);
            push_bytes(out, evm_party);
            push_vec(out, svm_party);
            push_bytes(out, evm_asset);
            push_vec(out, svm_asset);
            crate::bytes::push_u128_le(out, *evm_amount);
            crate::bytes::push_u128_le(out, *svm_amount);
        },
        CrossVmOperation::MessageToEvm { sender, target_contract, message, nonce } => {
            out.push(5u8);
            push_vec(out, sender);
            push_bytes(out, target_contract);
            push_vec(out, message);
            push_le(out, *nonce, 8);
        },
        CrossVmOperation::MessageToSvm { sender, target_program, message, nonce } => {
            out.push(6u8);
            push_bytes(out, sender);
            push_vec(out, target_program);
            push_vec(out, message);
            push_le(out, *nonce, 8);
        },
    }
    assert(out@ =~= before + op_bytes(op@));
}

impl CrossVmOperation {
    /// The SCALE encoding of the operation.
    pub fn encode(&self) -> (out: Vec<u8>)
        requires
            op_fits(self@),
        ensures
            out@ == op_bytes(self@),
    {
        let mut out: Vec<u8> = Vec::new();
        push_op(&mut out, self);
        assert(out@ =~= op_bytes(self@));
        out
    }

    /// Decodes an operation from the front of `input` and advances `input`
    /// past it; on an error `input` is left as it was.
    pub fn decode(input: &mut &[u8]) -> (r: Result<CrossVmOperation, CodecError>)
        ensures
            match (r, read_op(old(input)@, 0)) {
                (Ok(v), Ok((w, k))) => v@ == w && final(input)@ == old(input)@.skip(k),
                (Err(e), Err(f)) => e == f && final(input)@ == old(input)@,
                _ => false,
            },
    {
        let bytes: &[u8] = *input;
        let (v, k) = read_op_exec(bytes, 0)?;
        let rest = vstd::slice::slice_subrange(bytes, k, bytes.len());
        assert(rest@ =~= bytes@.skip(k as int));
        *input = rest;
        Ok(v)
    }
}

impl PreparedOperation {
    /// The SCALE encoding of the prepared operation.
    pub fn encode(&self) -> (out: Vec<u8>)
        requires
            prepared_fits(self@),
        ensures
            out@ == prepared_bytes(self@),
    {
        let mut out: Vec<u8> = Vec::new();
        push_le(&mut out, self.nonce, 8);
        push_op(&mut out, &self.operation);
        let ph = self.phase.encode();
        push_bytes(&mut out, ph.as_slice());
        push_le(&mut out, self.evm_gas_reserved, 8);
        push_le(&mut out, self.svm_compute_reserved, 8);
        push_vec(&mut out, &self.source_lock_receipt);
        push_vec(&mut out, &self.dest_lock_receipt);
        assert(out@ =~= prepared_bytes(self@));
        out
    }

    /// Decodes a prepared operation from the front of `input` and advances
    /// `input` past it; on an error `input` is left as it was.
    pub fn decode(input: &mut &[u8]) -> (r: Result<PreparedOperation, CodecError>)
        ensures
            match (r, read_prepared(old(input)@)) {
                (Ok(v), Ok((w, k))) => v@ == w && final(input)@ == old(input)@.skip(k),
                (Err(e), Err(f)) => e == f && final(input)@ == old(input)@,
                _ => false,
            },
    {
        let bytes: &[u8] = *input;
        let (nonce, p1) = read_u64_exec(bytes, 0, 8)?;
        let (operation, p2) = read_op_exec(bytes, p1)?;
        let (phase, p3) = read_phase_at_exec(bytes, p2)?;
        let (evm_gas_reserved, p4) = read_u64_exec(bytes, p3, 8)?;
        let (svm_compute_reserved, p5) = read_u64_exec(bytes, p4, 8)?;
        let (source_lock_receipt, p6) = read_vec_exec(bytes, p5)?;
        let (dest_lock_receipt, p7) = read_vec_exec(bytes, p6)?;
        let rest = vstd::slice::slice_subrange(bytes, p7, bytes.len());
        assert(rest@ =~= bytes@.skip(p7 as int));
        *input = rest;
        Ok(PreparedOperation {
            nonce,
            operation,
            phase,
            evm_gas_reserved,
            svm_compute_reserved,
            source_lock_receipt,
            dest_lock_receipt,
        })
    }
}

} // verus!
