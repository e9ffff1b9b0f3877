//! Argument decoding of the node's and the sidecar's RPC methods: hex
//! parameters, addresses, job ids, gas limits and amounts.

use vstd::prelude::*;
use crate::bytes::utf8;
use crate::text::chars_of;

verus! {

/// Why hex text does not decode.
#[derive(Clone, Copy, Debug, PartialEq, Eq, Structural)]
pub enum HexError {
    /// A byte that is no hex digit, and its position.
    InvalidHexCharacter { c: char, index: usize },
    /// An odd number of digits.
    OddLength,
    /// A target buffer of the wrong size (decoding into a new vector never
    /// gives it).
    InvalidStringLength,
}

/// The value of the hex digit `c`, of either case.
pub open spec fn hex_digit(c: u8) -> Option<u8> {
    if 0x30 <= c <= 0x39 {
        Some((c - 0x30) as u8)
    } else if 0x61 <= c <= 0x66 {
        Some((c - 0x61 + 10) as u8)
    } else if 0x41 <= c <= 0x46 {
        Some((c - 0x41 + 10) as u8)
    } else {
        None
    }
}

/// Hex text decoded to bytes: an odd length fails first; then the first
/// byte that is no hex digit fails; otherwise each pair of digits is a byte,
/// high digit first.
pub open spec fn hex_decode_spec(s: Seq<u8>) -> Result<Seq<u8>, HexError> {
    if s.len() % 2 != 0 {
        Err(HexError::OddLength)
    } else if exists|i: int| 0 <= i < s.len() && hex_digit(s[i]) is None {
        let i = choose|i: int| 0 <= i < s.len() && hex_digit(s[i]) is None && forall|j: int| 0 <= j < i ==> hex_digit(s[j]) is Some;
        Err(HexError::InvalidHexCharacter { c: s[i] as char, index: i as usize })
    } else {
        Ok(Seq::new(s.len() / 2, |k: int| (hex_digit(s[2 * k])->Some_0 * 16 + hex_digit(s[2 * k + 1])->Some_0) as u8))
    }
}

/// Calls `hex::decode`. In hex 0.4 it fails with `OddLength` on an odd
/// number of bytes, else with `InvalidHexCharacter` on the first byte that
/// is not in `0-9`, `a-f` or `A-F` (the byte as a character, and its index),
/// else gives one byte per pair of digits, high digit first; the contract
/// states exactly that.
#[verifier::external_body]
pub(crate) fn hex_decode(data: &[u8]) -> (r: Result<Vec<u8>, HexError>)
    ensures
        match (r, hex_decode_spec(data@)) {
            (Ok(v), Ok(w)) => v@ == w,
            (Err(e), Err(f)) => e == f,
            _ => false,
        },
{
    match hex::decode(data) {
        Ok(v) => Ok(v),
        Err(hex::FromHexError::InvalidHexCharacter { c, index }) => Err(HexError::InvalidHexCharacter { c, index }),
        Err(hex::FromHexError::OddLength) => Err(HexError::OddLength),
        Err(hex::FromHexError::InvalidStringLength) => Err(HexError::InvalidStringLength),
    }
}

/// Why an address argument is refused.
#[derive(Clone, Copy, Debug, PartialEq, Eq, Structural)]
pub enum AddressError {
    /// The text is not hex.
    InvalidHex(HexError),
    /// The text decodes to other than 20 bytes.
    WrongLength,
}

/// `s` without a leading `0x`.
pub open spec fn strip_0x(s: Seq<u8>) -> Seq<u8> {
    if s.len() >= 2 && s[0] == 0x30u8 && s[1] == 0x78u8 { s.skip(2) } else { s }
}

/// Decoding an EVM address argument: an optional `0x`, then hex for
/// exactly 20 bytes.
pub open spec fn decode_address_spec(s: Seq<u8>) -> Result<Seq<u8>, AddressError> {
    match hex_decode_spec(strip_0x(s)) {
        Err(e) => Err(AddressError::InvalidHex(e)),
        Ok(b) => if b.len() != 20 { Err(AddressError::WrongLength) } else { Ok(b) },
    }
}

/// Decode an EVM address argument (see [`decode_address_spec`]).
pub fn decode_address(s: &str) -> (r: Result<Vec<u8>, AddressError>)
    ensures
        match (r, decode_address_spec(utf8(s))) {
            (Ok(v), Ok(w)) => v@ == w,
            (Err(e), Err(f)) => e == f,
            _ => false,
        },
{
    let all = s.as_bytes();
    let stripped: &[u8] = if all.len() >= 2 && all[0] == 0x30u8 && all[1] == 0x78u8 {
        vstd::slice::slice_subrange(all, 2, all.len())
    } else {
        all
    };
    assert(stripped@ =~= strip_0x(utf8(s)));
    let bytes = match hex_decode(stripped) {
        Ok(b) => b,
        Err(e) => {
            return Err(AddressError::InvalidHex(e));
        },
    };
    if bytes.len() != 20 {
        return Err(AddressError::WrongLength);
    }
    Ok(bytes)
}


/// The value of a character of the Bitcoin base58 alphabet
/// `123456789ABCDEFGHJKLMNPQRSTUVWXYZabcdefghijkmnopqrstuvwxyz` (its
/// position there); `None` for any other byte.
pub open spec fn b58_digit(c: u8) -> Option<nat> {
    if 49 <= c <= 57 {
        Some((c - 49) as nat)
    } else if 65 <= c <= 72 {
        Some((c - 65 + 9) as nat)
    } else if 74 <= c <= 78 {
        Some((c - 74 + 17) as nat)
    } else if 80 <= c <= 90 {
        Some((c - 80 + 22) as nat)
    } else if 97 <= c <= 107 {
        Some((c - 97 + 33) as nat)
    } else if 109 <= c <= 122 {
        Some((c - 109 + 44) as nat)
    } else {
        None
    }
}

/// The number that base58 text spells, most significant digit first;
/// `None` where a character is not in the alphabet.
pub open spec fn b58_value(s: Seq<u8>) -> Option<nat>
    decreases s.len(),
{
    if s.len() == 0 {
        Some(0)
    } else {
        match (b58_value(s.drop_last()), b58_digit(s.last())) {
            (Some(v), Some(d)) => Some(v * 58 + d),
            _ => None,
        }
    }
}

/// The big-endian bytes of `n`, without leading zero bytes (none for 0).
pub open spec fn be_bytes_min(n: nat) -> Seq<u8>
    decreases n,
{
    if n == 0 { Seq::empty() } else { be_bytes_min(n / 256).push((n % 256) as u8) }
}

/// The number of leading `1` characters (the zero digit).
pub open spec fn leading_ones(s: Seq<u8>) -> nat
    decreases s.len(),
{
    if s.len() == 0 || s[0] != 49 { 0 } else { 1 + leading_ones(s.skip(1)) }
}

/// The bytes that base58 text (Bitcoin alphabet) decodes to: a zero byte
/// for each leading `1`, then the big-endian bytes of the number the text
/// spells; `None` where a character is not in the alphabet.
pub open spec fn bs58_decode_spec(s: Seq<u8>) -> Option<Seq<u8>> {
    match b58_value(s) {
        None => None,
        Some(v) => Some(Seq::new(leading_ones(s), |i: int| 0u8) + be_bytes_min(v)),
    }
}

/// Calls `bs58::decode(..).into_vec()` with the default (Bitcoin)
/// alphabet. Claims that it decodes as [`bs58_decode_spec`] says, `None`
/// standing for either error the crate reports (an invalid or a non-ASCII
/// character); which error it was is not kept.
#[verifier::external_body]
fn bs58_decode(data: &[u8]) -> (r: Option<Vec<u8>>)
    ensures
        match r {
            Some(v) => bs58_decode_spec(data@) == Some(v@),
            None => bs58_decode_spec(data@) is None,
        },
{
    bs58::decode(data).into_vec().ok()
}

/// Why an SVM public key argument is refused.
#[derive(Clone, Copy, Debug, PartialEq, Eq, Structural)]
pub enum SvmKeyError {
    /// `0x` text that is not hex.
    InvalidHex(HexError),
    /// Text that is not base58.
    InvalidBase58,
    /// The key is not 32 bytes.
    WrongLength,
}

/// A decoded key of exactly 32 bytes.
pub open spec fn key_of_length(b: Seq<u8>) -> Result<Seq<u8>, SvmKeyError> {
    if b.len() != 32 { Err(SvmKeyError::WrongLength) } else { Ok(b) }
}

/// Decoding an SVM public key: after `0x`, hex for exactly 32 bytes;
/// otherwise base58 for exactly 32 bytes, `b58` being what the base58 text
/// decodes to.
pub open spec fn svm_key_spec(s: Seq<u8>, b58: Option<Seq<u8>>) -> Result<Seq<u8>, SvmKeyError> {
    if s.len() >= 2 && s[0] == 0x30u8 && s[1] == 0x78u8 {
        match hex_decode_spec(s.skip(2)) {
            Err(e) => Err(SvmKeyError::InvalidHex(e)),
            Ok(b) => key_of_length(b),
        }
    } else {
        match b58 {
            None => Err(SvmKeyError::InvalidBase58),
            Some(b) => key_of_length(b),
        }
    }
}

/// The key that base58 decoding gave: refused where it failed or is not 32
/// bytes.
pub fn pubkey_from_base58(decoded: Option<Vec<u8>>) -> (r: Result<Vec<u8>, SvmKeyError>)
    ensures
        match (r, decoded) {
            (Ok(v), Some(d)) => d@.len() == 32 && v@ == d@,
            (Err(e), Some(d)) => d@.len() != 32 && e == SvmKeyError::WrongLength,
            (Err(e), None) => e == SvmKeyError::InvalidBase58,
            _ => false,
        },
{
    match decoded {
        None => Err(SvmKeyError::InvalidBase58),
        Some(b) => if b.len() != 32 { Err(SvmKeyError::WrongLength) } else { Ok(b) },
    }
}

/// Decode an SVM public key argument (see [`svm_key_spec`]).
pub fn decode_svm_pubkey(s: &str) -> (r: Result<Vec<u8>, SvmKeyError>)
    ensures
        match (r, svm_key_spec(utf8(s), bs58_decode_spec(utf8(s)))) {
            (Ok(v), Ok(w)) => v@ == w,
            (Err(e), Err(f)) => e == f,
            _ => false,
        },
{
    let all = s.as_bytes();
    if all.len() >= 2 && all[0] == 0x30u8 && all[1] == 0x78u8 {
        let hex_part = vstd::slice::slice_subrange(all, 2, all.len());
        assert(hex_part@ =~= utf8(s).skip(2));
        let bytes = match hex_decode(hex_part) {
            Ok(b) => b,
            Err(e) => {
                return Err(SvmKeyError::InvalidHex(e));
            },
        };
        if bytes.len() != 32 {
            return Err(SvmKeyError::WrongLength);
        }
        return Ok(bytes);
    }
    pubkey_from_base58(bs58_decode(all))
}

/// Why an integer does not parse.
#[derive(Clone, Copy, Debug, PartialEq, Eq, Structural)]
pub enum IntErrorKind {
    /// The text is empty.
    Empty,
    /// A character is no digit of the radix (a lone sign among them).
    InvalidDigit,
    /// The value does not fit.
    PosOverflow,
}

/// The value of `c` as a digit of `radix` (at most 36), as
/// `char::to_digit` reads it.
pub open spec fn digit_value(c: char, radix: nat) -> Option<nat> {
    let d: int = if '0' <= c <= '9' {
        c as int - '0' as int
    } else if 'a' <= c <= 'z' {
        c as int - 'a' as int + 10
    } else if 'A' <= c <= 'Z' {
        c as int - 'A' as int + 10
    } else {
        -1
    };
    if 0 <= d < radix { Some(d as nat) } else { None }
}

/// Scanning digits from the left: the first character that is no digit
/// fails, else the first step past `max` overflows.
pub open spec fn scan_digits(ds: Seq<char>, radix: nat, max: nat) -> Result<nat, IntErrorKind>
    decreases ds.len(),
{
    if ds.len() == 0 {
        Ok(0)
    } else {
        match scan_digits(ds.drop_last(), radix, max) {
            Err(e) => Err(e),
            Ok(v) => match digit_value(ds.last(), radix) {
                None => Err(IntErrorKind::InvalidDigit),
                Some(d) => if v * radix + d > max { Err(IntErrorKind::PosOverflow) } else { Ok(v * radix + d) },
            },
        }
    }
}

/// Parsing an unsigned integer no larger than `max` in `radix` as the
/// unsigned types' `from_str_radix` does: empty text fails; a lone `+` or
/// `-` is an invalid digit; one leading `+` is skipped; then the digits are
/// scanned.
pub open spec fn parse_uint_spec(s: Seq<char>, radix: nat, max: nat) -> Result<nat, IntErrorKind> {
    if s.len() == 0 {
        Err(IntErrorKind::Empty)
    } else if s.len() == 1 && (s[0] == '+' || s[0] == '-') {
        Err(IntErrorKind::InvalidDigit)
    } else {
        scan_digits(if s[0] == '+' { s.drop_first() } else { s }, radix, max)
    }
}

/// Parsing a `u64` in `radix` (see [`parse_uint_spec`]).
pub open spec fn parse_u64_spec(s: Seq<char>, radix: nat) -> Result<u64, IntErrorKind> {
    match parse_uint_spec(s, radix, u64::MAX as nat) {
        Err(e) => Err(e),
        Ok(v) => Ok(v as u64),
    }
}

/// Parse an unsigned integer no larger than `max` in `radix` (see
/// [`parse_uint_spec`]).
pub fn parse_uint_bounded(s: &Vec<char>, radix: u32, max: u64) -> (r: Result<u64, IntErrorKind>)
    requires
        2 <= radix <= 36,
    ensures
        match parse_uint_spec(s@, radix as nat, max as nat) {
            Ok(v) => r == Ok::<u64, IntErrorKind>(v as u64),
            Err(e) => r == Err::<u64, IntErrorKind>(e),
        },
{
    if s.len() == 0 {
        return Err(IntErrorKind::Empty);
    }
    if s.len() == 1 && (s[0] == '+' || s[0] == '-') {
        return Err(IntErrorKind::InvalidDigit);
    }
    let start: usize = if s[0] == '+' { 1 } else { 0 };
    let ghost ds = if s@[0] == '+' { s@.drop_first() } else { s@ };
    assert(ds =~= s@.skip(start as int));
    let mut value: u64 = 0;
    let mut i: usize = start;
    assert(ds.take(0) =~= Seq::<char>::empty());
    while i < s.len()
        invariant
            start <= i <= s@.len(),
            ds == s@.skip(start as int),
            ds == (if s@[0] == '+' { s@.drop_first() } else { s@ }),
            s@.len() > 0,
            !(s@.len() == 1 && (s@[0] == '+' || s@[0] == '-')),
            2 <= radix <= 36,
            scan_digits(ds.take(i - start), radix as nat, max as nat) == Ok::<nat, IntErrorKind>(value as nat),
        decreases s.len() - i,
    {
        let c = s[i];
        let ghost pre = ds.take(i - start + 1);
        assert(pre.drop_last() =~= ds.take(i - start));
        assert(pre.last() == c);
        let d: u32 = if '0' <= c && c <= '9' {
            (c as u32) - ('0' as u32)
        } else if 'a' <= c && c <= 'z' {
            (c as u32) - ('a' as u32) + 10
        } else if 'A' <= c && c <= 'Z' {
            (c as u32) - ('A' as u32) + 10
        } else {
            radix
        };
        proof {
            if d < radix {
                assert(digit_value(c, radix as nat) == Some(d as nat));
            } else {
                assert(digit_value(c, radix as nat) is None);
            }
        }
        if d >= radix {
            proof {
                assert(scan_digits(pre, radix as nat, max as nat) == Err::<nat, IntErrorKind>(IntErrorKind::InvalidDigit));
                lemma_scan_prefix_error(ds, (i - start + 1) as int, radix as nat, max as nat, IntErrorKind::InvalidDigit);
            }
            return Err(IntErrorKind::InvalidDigit);
        }
        let next: Option<u64> = match value.checked_mul(radix as u64) {
            Some(m) => m.checked_add(d as u64),
            None => None,
        };
        match next {
            Some(n) if n <= max => {
                proof {
                    assert(n == value * radix + d);
                    assert(scan_digits(pre, radix as nat, max as nat) == Ok::<nat, IntErrorKind>(n as nat));
                }
                value = n;
            },
            _ => {
                proof {
                    assert(value * radix + d > max) by (nonlinear_arith)
                        requires
                            value * radix > u64::MAX || value * radix + d > u64::MAX || next == Some((value * radix + d) as u64),
                            next is Some ==> next->Some_0 > max,
                            max <= u64::MAX;
                    assert(scan_digits(pre, radix as nat, max as nat) == Err::<nat, IntErrorKind>(IntErrorKind::PosOverflow));
                    lemma_scan_prefix_error(ds, (i - start + 1) as int, radix as nat, max as nat, IntErrorKind::PosOverflow);
                }
                return Err(IntErrorKind::PosOverflow);
            },
        }
        i = i + 1;
    }
    assert(ds.take(ds.len() as int) =~= ds);
    Ok(value)
}

/// Parse an unsigned 64-bit integer in `radix` (see [`parse_u64_spec`]).
pub fn parse_u64_radix(s: &Vec<char>, radix: u32) -> (r: Result<u64, IntErrorKind>)
    requires
        2 <= radix <= 36,
    ensures
        r == parse_u64_spec(s@, radix as nat),
{
    parse_uint_bounded(s, radix, u64::MAX)
}

/// A scan that fails on a prefix fails the same way on the whole.
proof fn lemma_scan_prefix_error(ds: Seq<char>, k: int, radix: nat, max: nat, e: IntErrorKind)
    requires
        0 <= k <= ds.len(),
        scan_digits(ds.take(k), radix, max) == Err::<nat, IntErrorKind>(e),
    ensures
        scan_digits(ds, radix, max) == Err::<nat, IntErrorKind>(e),
    decreases ds.len() - k,
{
    if k < ds.len() {
        assert(ds.take(k + 1).drop_last() =~= ds.take(k));
        lemma_scan_prefix_error(ds, k + 1, radix, max, e);
    } else {
        assert(ds.take(k) =~= ds);
    }
}

/// The `gas` field of a transaction object, as far as the gas limit reads
/// it.
#[derive(Clone, Debug)]
pub enum GasValue {
    /// No `gas` field.
    Absent,
    /// A non-negative integer that fits in 64 bits.
    Unsigned(u64),
    /// A string.
    Text(String),
    /// Any other value.
    Other,
}

/// Why a gas limit is refused.
#[derive(Clone, Copy, Debug, PartialEq, Eq, Structural)]
pub enum GasError {
    /// A string that is no valid integer.
    InvalidGas(IntErrorKind),
    /// Neither an integer nor a string.
    InvalidGasValue,
}

/// The default gas limit of a call that names none.
pub const DEFAULT_GAS_LIMIT: u64 = 10_000_000u64;

/// The gas limit a `gas` field gives: the default when absent, the integer
/// itself, a `0x`-prefixed string read as hex, any other string read as
/// decimal.
pub open spec fn gas_limit_spec(gas: GasValue) -> Result<u64, GasError> {
    match gas {
        GasValue::Absent => Ok(DEFAULT_GAS_LIMIT),
        GasValue::Unsigned(v) => Ok(v),
        GasValue::Text(s) => {
            let t = s@;
            let r = if t.len() >= 2 && t[0] == '0' && t[1] == 'x' { parse_u64_spec(t.skip(2), 16) } else { parse_u64_spec(t, 10) };
            match r {
                Ok(v) => Ok(v),
                Err(k) => Err(GasError::InvalidGas(k)),
            }
        },
        GasValue::Other => Err(GasError::InvalidGasValue),
    }
}

/// The gas limit of a call (see [`gas_limit_spec`]).
pub fn parse_gas_limit(gas: &GasValue) -> (r: Result<u64, GasError>)
    ensures
        r == gas_limit_spec(*gas),
{
    match gas {
        GasValue::Absent => Ok(DEFAULT_GAS_LIMIT),
        GasValue::Unsigned(v) => Ok(*v),
        GasValue::Text(s) => {
            let cs = chars_of(s.as_str());
            let r = if cs.len() >= 2 && cs[0] == '0' && cs[1] == 'x' {
                let mut rest: Vec<char> = Vec::new();
                let mut i: usize = 2;
                while i < cs.len()
                    invariant
                        2 <= i <= cs@.len(),
                        rest@ == cs@.subrange(2, i as int),
                    decreases cs.len() - i,
                {
                    rest.push(cs[i]);
                    assert(rest@ =~= cs@.subrange(2, i + 1));
                    i = i + 1;
                }
                assert(rest@ =~= cs@.skip(2));
                parse_u64_radix(&rest, 16)
            } else {
                parse_u64_radix(&cs, 10)
            };
            match r {
                Ok(v) => Ok(v),
                Err(k) => Err(GasError::InvalidGas(k)),
            }
        },
        GasValue::Other => Err(GasError::InvalidGasValue),
    }
}


/// Parse a decimal `u128` (see [`parse_uint_spec`]).
pub fn parse_u128_dec(s: &Vec<char>) -> (r: Result<u128, IntErrorKind>)
    ensures
        match (r, parse_uint_spec(s@, 10, u128::MAX as nat)) {
            (Ok(v), Ok(w)) => v as nat == w,
            (Err(e), Err(f)) => e == f,
            _ => false,
        },
{
    if s.len() == 0 {
        return Err(IntErrorKind::Empty);
    }
    if s.len() == 1 && (s[0] == '+' || s[0] == '-') {
        return Err(IntErrorKind::InvalidDigit);
    }
    let start: usize = if s[0] == '+' { 1 } else { 0 };
    let ghost ds = if s@[0] == '+' { s@.drop_first() } else { s@ };
    assert(ds =~= s@.skip(start as int));
    let mut value: u128 = 0;
    let mut i: usize = start;
    assert(ds.take(0) =~= Seq::<char>::empty());
    while i < s.len()
        invariant
            start <= i <= s@.len(),
            ds == s@.skip(start as int),
            ds == (if s@[0] == '+' { s@.drop_first() } else { s@ }),
            s@.len() > 0,
            !(s@.len() == 1 && (s@[0] == '+' || s@[0] == '-')),
            scan_digits(ds.take(i - start), 10, u128::MAX as nat) == Ok::<nat, IntErrorKind>(value as nat),
        decreases s.len() - i,
    {
        let c = s[i];
        let ghost pre = ds.take(i - start + 1);
        assert(pre.drop_last() =~= ds.take(i - start));
        assert(pre.last() == c);
        if !('0' <= c && c <= '9') {
            proof {
                assert(digit_value(c, 10) is None);
                assert(scan_digits(pre, 10, u128::MAX as nat) == Err::<nat, IntErrorKind>(IntErrorKind::InvalidDigit));
                lemma_scan_prefix_error(ds, (i - start + 1) as int, 10, u128::MAX as nat, IntErrorKind::InvalidDigit);
            }
            return Err(IntErrorKind::InvalidDigit);
        }
        let d: u128 = ((c as u32) - ('0' as u32)) as u128;
        proof {
            assert(digit_value(c, 10) == Some(d as nat));
        }
        let next: Option<u128> = match value.checked_mul(10) {
            Some(m) => m.checked_add(d),
            None => None,
        };
        match next {
            Some(n) => {
                proof {
                    assert(scan_digits(pre, 10, u128::MAX as nat) == Ok::<nat, IntErrorKind>(n as nat));
                }
                value = n;
            },
            None => {
                proof {
                    assert(value * 10 + d > u128::MAX) by (nonlinear_arith)
                        requires
                            value * 10 > u128::MAX || value * 10 + d > u128::MAX;
                    assert(scan_digits(pre, 10, u128::MAX as nat) == Err::<nat, IntErrorKind>(IntErrorKind::PosOverflow));
                    lemma_scan_prefix_error(ds, (i - start + 1) as int, 10, u128::MAX as nat, IntErrorKind::PosOverflow);
                }
                return Err(IntErrorKind::PosOverflow);
            },
        }
        i = i + 1;
    }
    assert(ds.take(ds.len() as int) =~= ds);
    Ok(value)
}

/// A hex parameter decoded: an optional `0x`, then hex.
pub open spec fn hex_param_spec(s: Seq<u8>) -> Result<Seq<u8>, HexError> {
    hex_decode_spec(strip_0x(s))
}

/// Decode a hex parameter (see [`hex_param_spec`]).
pub fn decode_hex_param(value: &str) -> (r: Result<Vec<u8>, HexError>)
    ensures
        match (r, hex_param_spec(utf8(value))) {
            (Ok(v), Ok(w)) => v@ == w,
            (Err(e), Err(f)) => e == f,
            _ => false,
        },
{
    let all = value.as_bytes();
    let stripped: &[u8] = if all.len() >= 2 && all[0] == 0x30u8 && all[1] == 0x78u8 {
        vstd::slice::slice_subrange(all, 2, all.len())
    } else {
        all
    };
    assert(stripped@ =~= strip_0x(utf8(value)));
    hex_decode(stripped)
}

/// Why a storage-slot argument is refused.
#[derive(Clone, Copy, Debug, PartialEq, Eq, Structural)]
pub enum StorageSlotError {
    /// The text is not hex.
    InvalidHex(HexError),
    /// The slot has more than 32 bytes.
    TooLong,
}

/// `b` (at most 32 bytes) left-padded with zeros to 32 bytes.
pub open spec fn left_pad_32(b: Seq<u8>) -> Seq<u8> {
    Seq::new(32, |i: int| if i < 32 - b.len() { 0u8 } else { b[i - (32 - b.len())] })
}

/// Decoding a storage-slot argument: an optional `0x`, hex for at most 32
/// bytes, left-padded with zeros to the 32-byte storage key.
pub open spec fn storage_slot_spec(s: Seq<u8>) -> Result<Seq<u8>, StorageSlotError> {
    match hex_param_spec(s) {
        Err(e) => Err(StorageSlotError::InvalidHex(e)),
        Ok(b) => if b.len() > 32 { Err(StorageSlotError::TooLong) } else { Ok(left_pad_32(b)) },
    }
}

/// Decode a storage-slot argument into its 32-byte key (see [`storage_slot_spec`]).
pub fn decode_storage_slot(slot: &str) -> (r: Result<[u8; 32], StorageSlotError>)
    ensures
        match (r, storage_slot_spec(utf8(slot))) {
            (Ok(k), Ok(w)) => k@ == w,
            (Err(e), Err(f)) => e == f,
            _ => false,
        },
{
    let bytes = match decode_hex_param(slot) {
        Ok(b) => b,
        Err(e) => {
            return Err(StorageSlotError::InvalidHex(e));
        },
    };
    if bytes.len() > 32 {
        return Err(StorageSlotError::TooLong);
    }
    let offset = 32 - bytes.len();
    let mut key = [0u8; 32];
    let mut i: usize = 0;
    while i < bytes.len()
        invariant
            bytes@.len() <= 32,
            offset == 32 - bytes@.len(),
            i <= bytes@.len(),
            forall|j: int| 0 <= j < offset ==> key@[j] == 0u8,
            forall|j: int| offset <= j < offset + i ==> key@[j] == bytes@[j - offset],
            forall|j: int| offset + i <= j < 32 ==> key@[j] == 0u8,
        decreases bytes.len() - i,
    {
        key[offset + i] = bytes[i];
        i = i + 1;
    }
    assert(key@ =~= left_pad_32(bytes@));
    Ok(key)
}

/// Why a 32-byte hex parameter is refused.
#[derive(Clone, Copy, Debug, PartialEq, Eq, Structural)]
pub enum Hex32Error {
    /// The text is not hex.
    InvalidHex(HexError),
    /// The text decodes to other than 32 bytes.
    WrongLength,
}

/// A 32-byte hex parameter decoded.
pub open spec fn hex32_spec(s: Seq<u8>) -> Result<Seq<u8>, Hex32Error> {
    match hex_param_spec(s) {
        Err(e) => Err(Hex32Error::InvalidHex(e)),
        Ok(b) => if b.len() != 32 { Err(Hex32Error::WrongLength) } else { Ok(b) },
    }
}

/// Copies 32 bytes into an array.
fn to_array32(b: &Vec<u8>) -> (a: [u8; 32])
    requires
        b.len() == 32,
    ensures
        a@ == b@,
{
    let mut a = [0u8; 32];
    let mut i: usize = 0;
    while i < 32
        invariant
            i <= 32,
            b.len() == 32,
            forall|j: int| 0 <= j < i ==> a@[j] == b@[j],
        decreases 32 - i,
    {
        a[i] = b[i];
        i = i + 1;
    }
    assert(a@ =~= b@);
    a
}

/// Decode a 32-byte hex parameter (see [`hex32_spec`]).
pub fn decode_hex_32(value: &str) -> (r: Result<[u8; 32], Hex32Error>)
    ensures
        match (r, hex32_spec(utf8(value))) {
            (Ok(v), Ok(w)) => v@ == w,
            (Err(e), Err(f)) => e == f,
            _ => false,
        },
{
    let bytes = match decode_hex_param(value) {
        Ok(b) => b,
        Err(e) => {
            return Err(Hex32Error::InvalidHex(e));
        },
    };
    if bytes.len() != 32 {
        return Err(Hex32Error::WrongLength);
    }
    Ok(to_array32(&bytes))
}

/// `s` without every leading `0x`.
pub open spec fn trim_0x(s: Seq<u8>) -> Seq<u8>
    decreases s.len(),
{
    if s.len() >= 2 && s[0] == 0x30u8 && s[1] == 0x78u8 { trim_0x(s.skip(2)) } else { s }
}

/// A job id decoded: every leading `0x` trimmed, then hex for exactly 32
/// bytes.
pub open spec fn job_id_spec(s: Seq<u8>) -> Result<Seq<u8>, Hex32Error> {
    match hex_decode_spec(trim_0x(s)) {
        Err(e) => Err(Hex32Error::InvalidHex(e)),
        Ok(b) => if b.len() != 32 { Err(Hex32Error::WrongLength) } else { Ok(b) },
    }
}

/// Decode a sidecar job id (see [`job_id_spec`]).
pub fn parse_job_id(job_id: &str) -> (r: Result<[u8; 32], Hex32Error>)
    ensures
        match (r, job_id_spec(utf8(job_id))) {
            (Ok(v), Ok(w)) => v@ == w,
            (Err(e), Err(f)) => e == f,
            _ => false,
        },
{
    let mut rest: &[u8] = job_id.as_bytes();
    while rest.len() >= 2 && rest[0] == 0x30u8 && rest[1] == 0x78u8
        invariant
            trim_0x(rest@) == trim_0x(utf8(job_id)),
        decreases rest.len(),
    {
        let next = vstd::slice::slice_subrange(rest, 2, rest.len());
        assert(next@ =~= rest@.skip(2));
        rest = next;
    }
    let bytes = match hex_decode(rest) {
        Ok(b) => b,
        Err(e) => {
            return Err(Hex32Error::InvalidHex(e));
        },
    };
    if bytes.len() != 32 {
        return Err(Hex32Error::WrongLength);
    }
    Ok(to_array32(&bytes))
}

/// An amount parameter, as far as the amount parser reads it.
#[derive(Clone, Debug)]
pub enum AmountValue {
    /// No such parameter.
    Absent,
    /// A string.
    Text(String),
    /// A non-negative integer that fits in 64 bits.
    Unsigned(u64),
    /// Any other value.
    Other,
}

/// Why an amount parameter is refused.
#[derive(Clone, Copy, Debug, PartialEq, Eq, Structural)]
pub enum AmountError {
    Missing,
    /// A string that is no valid decimal `u128`.
    Invalid(IntErrorKind),
    /// Neither a string nor an integer.
    InvalidType,
}

/// The amount a parameter gives: a string read as a decimal `u128`, or an
/// integer.
pub open spec fn amount_spec(v: AmountValue) -> Result<u128, AmountError> {
    match v {
        AmountValue::Absent => Err(AmountError::Missing),
        AmountValue::Text(s) => match parse_uint_spec(s@, 10, u128::MAX as nat) {
            Ok(n) => Ok(n as u128),
            Err(k) => Err(AmountError::Invalid(k)),
        },
        AmountValue::Unsigned(n) => Ok(n as u128),
        AmountValue::Other => Err(AmountError::InvalidType),
    }
}

/// Read an amount parameter (see [`amount_spec`]).
pub fn parse_u128_value(value: &AmountValue) -> (r: Result<u128, AmountError>)
    ensures
        r == amount_spec(*value),
{
    match value {
        AmountValue::Absent => Err(AmountError::Missing),
        AmountValue::Text(s) => {
            let cs = chars_of(s.as_str());
            match parse_u128_dec(&cs) {
                Ok(n) => Ok(n),
                Err(k) => Err(AmountError::Invalid(k)),
            }
        },
        AmountValue::Unsigned(n) => Ok(*n as u128),
        AmountValue::Other => Err(AmountError::InvalidType),
    }
}

} // verus!
