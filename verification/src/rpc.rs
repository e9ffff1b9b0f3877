//! Pieces of the coordinator's JSON-RPC client that are pure computation:
//! URL splitting, base64 decoding, HTTP request framing and response body
//! extraction, and the request-id counter.

use vstd::prelude::*;
use std::sync::atomic::AtomicU64;
use crate::text::{chars_of, concat3, decimal, decimal_spec, owned, push_char, string_of};
use crate::bytes::utf8;
use crate::eth_rpc::{parse_u64_radix, parse_u64_spec, IntErrorKind};

verus! {

/// `s` starts with `prefix`.
pub open spec fn starts_with(s: Seq<char>, prefix: Seq<char>) -> bool {
    s.len() >= prefix.len() && s.take(prefix.len() as int) == prefix
}

/// `http://`
pub open spec fn http_scheme() -> Seq<char> {
    seq!['h', 't', 't', 'p', ':', '/', '/']
}

/// `https://`
pub open spec fn https_scheme() -> Seq<char> {
    seq!['h', 't', 't', 'p', 's', ':', '/', '/']
}

/// `u` without a leading `http://` or `https://`.
pub open spec fn strip_scheme(u: Seq<char>) -> Seq<char> {
    if starts_with(u, http_scheme()) {
        u.skip(7)
    } else if starts_with(u, https_scheme()) {
        u.skip(8)
    } else {
        u
    }
}

/// The index of the first `c` in `s`, if any.
#[verifier::opaque]
pub open spec fn first_index(s: Seq<char>, c: char) -> Option<int> {
    if exists|i: int| 0 <= i < s.len() && s[i] == c {
        Some(choose|i: int| 0 <= i < s.len() && s[i] == c && forall|j: int| 0 <= j < i ==> s[j] != c)
    } else {
        None
    }
}

/// `c` is an ASCII decimal digit.
pub open spec fn is_digit(c: char) -> bool {
    '0' <= c && c <= '9'
}

/// The value of the decimal digits `s`.
pub open spec fn digits_value(s: Seq<char>) -> nat
    decreases s.len(),
{
    if s.len() == 0 {
        0
    } else {
        (digits_value(s.drop_last()) * 10 + (s.last() as nat - '0' as nat)) as nat
    }
}

/// The `u16` that `s` denotes as `str::parse` reads it: an optional `+`,
/// then at least one ASCII digit, with a value that fits.
pub open spec fn parse_u16_spec(s: Seq<char>) -> Option<u16> {
    let digits = unsigned_digits(s);
    if digits.len() == 0 || !all_digits(digits) {
        None
    } else if digits_value(digits) > 65535 {
        None
    } else {
        Some(digits_value(digits) as u16)
    }
}

/// `s` without a leading `+`.
pub open spec fn unsigned_digits(s: Seq<char>) -> Seq<char> {
    if s.len() > 0 && s[0] == '+' { s.drop_first() } else { s }
}

/// Every character of `s` is an ASCII digit.
pub open spec fn all_digits(s: Seq<char>) -> bool {
    forall|i: int| 0 <= i < s.len() ==> is_digit(#[trigger] s[i])
}

/// Splitting a URL into host, port and path: the scheme is dropped, the
/// path starts at the first `/` (`/` when there is none), the port follows
/// the first `:` of the rest (80 when there is none).
pub open spec fn parse_url_spec(url: Seq<char>) -> Result<(Seq<char>, u16, Seq<char>), Seq<char>> {
    let (host_port, path) = split_path_spec(strip_scheme(url));
    match first_index(host_port, ':') {
        Some(p) => match parse_u16_spec(host_port.skip(p + 1)) {
            Some(port) => Ok((host_port.take(p), port, path)),
            None => Err(seq!['I', 'n', 'v', 'a', 'l', 'i', 'd', ' ', 'p', 'o', 'r', 't']),
        },
        None => Ok((host_port, 80, path)),
    }
}

/// Index of the first `c` in `s`.
fn find_char(s: &Vec<char>, c: char) -> (r: Option<usize>)
    ensures
        match r {
            Some(i) => first_index(s@, c) == Some(i as int) && i < s@.len() && s@[i as int] == c,
            None => first_index(s@, c) is None,
        },
{
    reveal(first_index);
    let mut i: usize = 0;
    while i < s.len()
        invariant
            i <= s@.len(),
            forall|j: int| 0 <= j < i ==> s@[j] != c,
        decreases s.len() - i,
    {
        if s[i] == c {
            reveal(first_index);
            assert(exists|k: int| 0 <= k < s@.len() && s@[k] == c);
            let ghost k = choose|k: int| 0 <= k < s@.len() && s@[k] == c && forall|j: int| 0 <= j < k ==> s@[j] != c;
            assert(k == i) by {
                if k < i {
                    assert(s@[k] != c);
                } else if k > i {
                    assert(s@[i as int] != c);
                }
            }
            return Some(i);
        }
        i = i + 1;
    }
    None
}

/// `s[start..end]`.
fn slice_chars(s: &Vec<char>, start: usize, end: usize) -> (r: Vec<char>)
    requires
        start <= end <= s@.len(),
    ensures
        r@ == s@.subrange(start as int, end as int),
{
    let mut r: Vec<char> = Vec::new();
    let mut i: usize = start;
    while i < end
        invariant
            start <= i <= end,
            end <= s@.len(),
            r@ == s@.subrange(start as int, i as int),
        decreases end - i,
    {
        r.push(s[i]);
        assert(r@ =~= s@.subrange(start as int, i + 1));
        i = i + 1;
    }
    r
}

fn starts_with_chars(s: &Vec<char>, prefix: &Vec<char>) -> (b: bool)
    ensures
        b == starts_with(s@, prefix@),
{
    if s.len() < prefix.len() {
        return false;
    }
    let mut i: usize = 0;
    while i < prefix.len()
        invariant
            i <= prefix@.len(),
            prefix@.len() <= s@.len(),
            forall|j: int| 0 <= j < i ==> s@[j] == prefix@[j],
        decreases prefix.len() - i,
    {
        if s[i] != prefix[i] {
            assert(s@.take(prefix@.len() as int)[i as int] != prefix@[i as int]);
            return false;
        }
        i = i + 1;
    }
    assert(s@.take(prefix@.len() as int) =~= prefix@);
    true
}

/// The `u16` that `s` denotes (see [`parse_u16_spec`]).
pub fn parse_u16(s: &Vec<char>) -> (r: Option<u16>)
    ensures
        r == parse_u16_spec(s@),
{
    let start: usize = if s.len() > 0 && s[0] == '+' { 1 } else { 0 };
    let ghost digits = unsigned_digits(s@);
    assert(digits =~= s@.skip(start as int));
    if s.len() == start {
        return None;
    }
    let mut value: u32 = 0;
    let mut i: usize = start;
    while i < s.len()
        invariant
            start <= i <= s@.len(),
            digits == s@.skip(start as int),
            digits == unsigned_digits(s@),
            digits.len() > 0,
            forall|j: int| 0 <= j < i - start ==> is_digit(digits[j]),
            value == digits_value(digits.take(i - start)),
            value <= 65535,
        decreases s.len() - i,
    {
        let c = s[i];
        if !('0' <= c && c <= '9') {
            assert(digits[i - start] == c);
            assert(!is_digit(digits[i - start]));
            assert(i - start < digits.len());
            assert(!all_digits(digits));
            return None;
        }
        let d = (c as u32) - ('0' as u32);
        assert(digits.take(i - start + 1).drop_last() =~= digits.take(i - start));
        assert(digits.take(i - start + 1).last() == c);
        let next = value * 10 + d;
        if next > 65535 {
            proof {
                assert(digits_value(digits.take(i - start + 1)) == next);
                lemma_digits_value_grows(digits, (i - start + 1) as int);
                if all_digits(digits) {
                    assert(digits_value(digits) > 65535);
                }
            }
            return None;
        }
        value = next;
        i = i + 1;
    }
    assert(digits.take(digits.len() as int) =~= digits);
    Some(value as u16)
}

/// A longer prefix of digits is worth at least as much as a shorter one.
proof fn lemma_digits_value_grows(d: Seq<char>, k: int)
    requires
        0 <= k <= d.len(),
        forall|j: int| 0 <= j < k ==> is_digit(d[j]),
    ensures
        all_digits(d) ==> digits_value(d.take(k)) <= digits_value(d),
    decreases d.len() - k,
{
    if k < d.len() && all_digits(d) {
        lemma_digits_value_grows(d, k + 1);
        assert(d.take(k + 1).drop_last() =~= d.take(k));
    } else if k == d.len() {
        assert(d.take(k) =~= d);
    }
}

fn strip_scheme_chars(all: &Vec<char>) -> (u: Vec<char>)
    ensures
        u@ == strip_scheme(all@),
{
    let http = chars_of("http://");
    let https = chars_of("https://");
    proof {
        reveal_strlit("http://");
        reveal_strlit("https://");
        assert(http@ =~= http_scheme());
        assert(https@ =~= https_scheme());
    }
    if starts_with_chars(all, &http) {
        slice_chars(all, 7, all.len())
    } else if starts_with_chars(all, &https) {
        slice_chars(all, 8, all.len())
    } else {
        let r = slice_chars(all, 0, all.len());
        assert(r@ =~= all@);
        r
    }
}

/// The host-and-port part of `u` and its path.
pub open spec fn split_path_spec(u: Seq<char>) -> (Seq<char>, Seq<char>) {
    match first_index(u, '/') {
        Some(p) => (u.take(p), u.skip(p)),
        None => (u, seq!['/']),
    }
}

fn split_path(u: &Vec<char>) -> (r: (Vec<char>, Vec<char>))
    ensures
        r.0@ == split_path_spec(u@).0,
        r.1@ == split_path_spec(u@).1,
{
    match find_char(u, '/') {
        Some(pos) => {
            let a = slice_chars(u, 0, pos);
            let b = slice_chars(u, pos, u.len());
            assert(a@ =~= u@.take(pos as int));
            assert(b@ =~= u@.skip(pos as int));
            (a, b)
        },
        None => {
            let mut root: Vec<char> = Vec::new();
            root.push('/');
            assert(root@ =~= seq!['/']);
            let a = slice_chars(u, 0, u.len());
            assert(a@ =~= u@);
            (a, root)
        },
    }
}

/// Parse a URL into (host, port, path) (see [`parse_url_spec`]).
pub fn parse_url(url: &str) -> (r: Result<(String, u16, String), String>)
    ensures
        match (r, parse_url_spec(url@)) {
            (Ok((h, p, path)), Ok((h2, p2, path2))) => h@ == h2 && p == p2 && path@ == path2,
            (Err(e), Err(e2)) => e@ == e2,
            _ => false,
        },
{
    let all = chars_of(url);
    let u = strip_scheme_chars(&all);
    let (host_port, path) = split_path(&u);
    match find_char(&host_port, ':') {
        Some(pos) => {
            assert(pos < host_port.len());
            let port_chars = slice_chars(&host_port, pos + 1, host_port.len());
            assert(port_chars@ =~= host_port@.skip(pos + 1));
            match parse_u16(&port_chars) {
                Some(port) => {
                    let host = slice_chars(&host_port, 0, pos);
                    assert(host@ =~= host_port@.take(pos as int));
                    Ok((string_of(host.as_slice()), port, string_of(path.as_slice())))
                },
                None => {
                    let e = owned("Invalid port");
                    proof {
                        reveal_strlit("Invalid port");
                    }
                    assert(e@ =~= seq!['I', 'n', 'v', 'a', 'l', 'i', 'd', ' ', 'p', 'o', 'r', 't']);
                    Err(e)
                },
            }
        },
        None => Ok((string_of(host_port.as_slice()), 80, string_of(path.as_slice()))),
    }
}

/// The value of a base64 alphabet byte (`A-Z`, `a-z`, `0-9`, `+`, `/`).
pub open spec fn b64_value(c: u8) -> Option<u32> {
    if 65 <= c <= 90 {
        Some((c - 65) as u32)
    } else if 97 <= c <= 122 {
        Some((c - 71) as u32)
    } else if 48 <= c <= 57 {
        Some((c + 4) as u32)
    } else if c == 43 {
        Some(62)
    } else if c == 47 {
        Some(63)
    } else {
        None
    }
}

/// `b` without its trailing `=` bytes.
pub open spec fn trim_padding(b: Seq<u8>) -> Seq<u8>
    decreases b.len(),
{
    if b.len() > 0 && b.last() == 61 { trim_padding(b.drop_last()) } else { b }
}

/// The three bytes that four sextets encode.
pub open spec fn quartet_bytes(a: u32, b: u32, c: u32, d: u32) -> Seq<u8> {
    seq![(a * 4 + b / 16) as u8, ((b % 16) * 16 + c / 4) as u8, ((c % 4) * 64 + d) as u8]
}

/// The whole bytes that fewer than four trailing sextets encode.
pub open spec fn tail_bytes(v: Seq<u32>) -> Seq<u8> {
    if v.len() == 2 {
        seq![(v[0] * 4 + v[1] / 16) as u8]
    } else if v.len() == 3 {
        seq![(v[0] * 4 + v[1] / 16) as u8, ((v[1] % 16) * 16 + v[2] / 4) as u8]
    } else {
        Seq::empty()
    }
}

/// The bytes that a sequence of sextets encodes, four sextets to three
/// bytes; incomplete trailing bits are dropped.
pub open spec fn decode_sextets(v: Seq<u32>) -> Seq<u8>
    decreases v.len(),
{
    if v.len() < 4 {
        tail_bytes(v)
    } else {
        quartet_bytes(v[0], v[1], v[2], v[3]) + decode_sextets(v.skip(4))
    }
}

/// The first byte of `b` outside the base64 alphabet, if any.
#[verifier::opaque]
pub open spec fn first_invalid(b: Seq<u8>) -> Option<int> {
    if exists|i: int| 0 <= i < b.len() && b64_value(b[i]) is None {
        Some(choose|i: int| 0 <= i < b.len() && b64_value(b[i]) is None && forall|j: int| 0 <= j < i ==> b64_value(b[j]) is Some)
    } else {
        None
    }
}

/// Decoding base64 text: trailing `=` are dropped; the first byte outside
/// the alphabet is reported; otherwise the sextets' bytes.
pub open spec fn base64_decode_spec(input: Seq<u8>) -> Result<Seq<u8>, Seq<char>> {
    decode_unpadded(trim_padding(input))
}

/// Decoding base64 text without padding.
pub open spec fn decode_unpadded(t: Seq<u8>) -> Result<Seq<u8>, Seq<char>> {
    match first_invalid(t) {
        Some(i) => Err(invalid_char_text(t[i])),
        None => Ok(decode_sextets(t.map_values(|c: u8| b64_value(c)->Some_0))),
    }
}

/// `Invalid base64 character: <c>`, the byte read as a character.
pub open spec fn invalid_char_text(c: u8) -> Seq<char> {
    seq!['I', 'n', 'v', 'a', 'l', 'i', 'd', ' ', 'b', 'a', 's', 'e', '6', '4', ' ', 'c', 'h', 'a', 'r', 'a', 'c', 't', 'e', 'r', ':', ' ', c as char]
}

/// Decoding splits at a multiple of four sextets.
proof fn lemma_decode_append(s: Seq<u32>, t: Seq<u32>)
    requires
        s.len() % 4 == 0,
    ensures
        decode_sextets(s + t) == decode_sextets(s) + decode_sextets(t),
    decreases s.len(),
{
    if s.len() == 0 {
        assert(s + t =~= t);
        assert(decode_sextets(s) =~= Seq::empty());
    } else {
        lemma_decode_append(s.skip(4), t);
        assert((s + t).skip(4) =~= s.skip(4) + t);
        assert((s + t)[0] == s[0] && (s + t)[1] == s[1] && (s + t)[2] == s[2] && (s + t)[3] == s[3]);
    }
}

/// The decoded output of the first `k` sextets: the complete quartets, then
/// the whole bytes of the incomplete one.
#[verifier::opaque]
pub open spec fn decoded_prefix(v: Seq<u32>, k: int) -> Seq<u8> {
    let base = k - k % 4;
    decode_sextets(v.take(base)) + tail_bytes(v.subrange(base, k))
}

proof fn lemma_decoded_prefix_full(v: Seq<u32>)
    ensures
        decoded_prefix(v, v.len() as int) == decode_sextets(v),
{
    reveal(decoded_prefix);
    let k = v.len() as int;
    let base = k - k % 4;
    assert(v =~= v.take(base) + v.subrange(base, k));
    lemma_decode_append(v.take(base), v.subrange(base, k));
    assert(decode_sextets(v.subrange(base, k)) == tail_bytes(v.subrange(base, k)));
}

/// The alphabet value of `c`.
fn b64_lookup(c: u8) -> (r: Option<u32>)
    ensures
        r == b64_value(c),
{
    if 65 <= c && c <= 90 {
        Some((c - 65) as u32)
    } else if 97 <= c && c <= 122 {
        Some((c - 71) as u32)
    } else if 48 <= c && c <= 57 {
        Some((c + 4) as u32)
    } else if c == 43 {
        Some(62)
    } else if c == 47 {
        Some(63)
    } else {
        None
    }
}

/// How the decoded output grows with one more sextet.
proof fn lemma_prefix_step(v: Seq<u32>, k: int)
    requires
        0 <= k < v.len(),
    ensures
        k % 4 == 0 ==> decoded_prefix(v, k + 1) == decoded_prefix(v, k),
        k % 4 == 1 ==> decoded_prefix(v, k + 1) == decoded_prefix(v, k).push((v[k - 1] * 4 + v[k] / 16) as u8),
        k % 4 == 2 ==> decoded_prefix(v, k + 1) == decoded_prefix(v, k).push(((v[k - 1] % 16) * 16 + v[k] / 4) as u8),
        k % 4 == 3 ==> decoded_prefix(v, k + 1) == decoded_prefix(v, k).push(((v[k - 1] % 4) * 64 + v[k]) as u8),
{
    reveal(decoded_prefix);
    let r = k % 4;
    let base = k - r;
    if r == 0 {
        assert(v.subrange(base, k + 1) =~= seq![v[k]]);
        assert(v.subrange(base, k) =~= Seq::<u32>::empty());
        assert(decoded_prefix(v, k + 1) =~= decoded_prefix(v, k));
    } else if r == 1 {
        assert(v.subrange(base, k + 1) =~= seq![v[k - 1], v[k]]);
        assert(v.subrange(base, k) =~= seq![v[k - 1]]);
        assert(decoded_prefix(v, k + 1) =~= decoded_prefix(v, k).push((v[k - 1] * 4 + v[k] / 16) as u8));
    } else if r == 2 {
        assert(v.subrange(base, k + 1) =~= seq![v[k - 2], v[k - 1], v[k]]);
        assert(v.subrange(base, k) =~= seq![v[k - 2], v[k - 1]]);
        assert(decoded_prefix(v, k + 1) =~= decoded_prefix(v, k).push(((v[k - 1] % 16) * 16 + v[k] / 4) as u8));
    } else {
        let q = v.subrange(base, k + 1);
        assert(q =~= seq![v[k - 3], v[k - 2], v[k - 1], v[k]]);
        assert(v.subrange(base, k) =~= seq![v[k - 3], v[k - 2], v[k - 1]]);
        assert(v.take(k + 1) =~= v.take(base) + q);
        lemma_decode_append(v.take(base), q);
        assert(q.skip(4) =~= Seq::<u32>::empty());
        assert(decode_sextets(q.skip(4)) =~= Seq::<u8>::empty());
        assert(decode_sextets(q) =~= quartet_bytes(q[0], q[1], q[2], q[3]));
        assert(v.subrange(k + 1, k + 1) =~= Seq::<u32>::empty());
        assert(decoded_prefix(v, k + 1) =~= decoded_prefix(v, k).push(((v[k - 1] % 4) * 64 + v[k]) as u8));
    }
}

/// Shift one sextet into the bit buffer and emit a byte once eight bits are
/// buffered.
fn feed_sextet(buf: &mut u32, bits: &mut u32, output: &mut Vec<u8>, val: u32)
    requires
        val < 64,
        *old(bits) == 0 && *old(buf) == 0 || *old(bits) == 6 && *old(buf) < 64 || *old(bits) == 4 && *old(buf) < 16 || *old(bits) == 2 && *old(buf) < 4,
    ensures
        *old(bits) == 0 ==> *final(bits) == 6 && *final(buf) == val && final(output)@ == old(output)@,
        *old(bits) == 6 ==> *final(bits) == 4 && *final(buf) == val % 16 && final(output)@ == old(output)@.push((*old(buf) * 4 + val / 16) as u8),
        *old(bits) == 4 ==> *final(bits) == 2 && *final(buf) == val % 4 && final(output)@ == old(output)@.push((*old(buf) * 16 + val / 4) as u8),
        *old(bits) == 2 ==> *final(bits) == 0 && *final(buf) == 0 && final(output)@ == old(output)@.push((*old(buf) * 64 + val) as u8),
{
    let b0 = *buf;
    let n0 = *bits;
    *buf = (*buf << 6) | val;
    *bits = *bits + 6;
    if *bits >= 8 {
        *bits = *bits - 8;
        let n = *bits;
        assert(1u32 << n >= 1u32) by (bit_vector)
            requires n < 32u32;
        output.push(#[verifier::truncate] ((*buf >> n) as u8));
        *buf = *buf & ((1u32 << n) - 1);
    }
    proof {
        if n0 == 0 {
            assert(((b0 << 6u32) | val) == val) by (bit_vector)
                requires b0 == 0u32, val < 64;
        } else if n0 == 6 {
            assert(((b0 << 6u32) | val) >> 4u32 == b0 * 4 + val / 16 && ((b0 << 6u32) | val) & 15u32 == val % 16 && (1u32 << 4u32) == 16u32) by (bit_vector)
                requires b0 < 64, val < 64;
        } else if n0 == 4 {
            assert(((b0 << 6u32) | val) >> 2u32 == b0 * 16 + val / 4 && ((b0 << 6u32) | val) & 3u32 == val % 4 && (1u32 << 2u32) == 4u32) by (bit_vector)
                requires b0 < 16, val < 64;
        } else {
            assert(((b0 << 6u32) | val) >> 0u32 == b0 * 64 + val && ((b0 << 6u32) | val) & 0u32 == 0 && (1u32 << 0u32) == 1u32) by (bit_vector)
                requires b0 < 4, val < 64;
        }
    }
}

/// The error text for byte `c`.
fn invalid_char_error(c: u8) -> (e: String)
    ensures
        e@ == invalid_char_text(c),
{
    let mut e = owned("Invalid base64 character: ");
    push_char(&mut e, c as char);
    proof {
        reveal_strlit("Invalid base64 character: ");
    }
    assert(e@ =~= invalid_char_text(c));
    e
}

proof fn lemma_first_invalid_at(t: Seq<u8>, k: int)
    requires
        0 <= k < t.len(),
        b64_value(t[k]) is None,
        forall|j: int| 0 <= j < k ==> b64_value(#[trigger] t[j]) is Some,
    ensures
        first_invalid(t) == Some(k),
{
    reveal(first_invalid);
    let i = choose|i: int| 0 <= i < t.len() && b64_value(t[i]) is None && forall|j: int| 0 <= j < i ==> b64_value(t[j]) is Some;
    assert(i == k) by {
        if i < k {
            assert(b64_value(t[i]) is Some);
        } else if i > k {
            assert(b64_value(t[k]) is Some);
        }
    }
}

/// Decode base64 text (see [`base64_decode_spec`]).
pub fn base64_decode(input: &str) -> (r: Result<Vec<u8>, String>)
    ensures
        match (r, base64_decode_spec(utf8(input))) {
            (Ok(v), Ok(w)) => v@ == w,
            (Err(e), Err(e2)) => e@ == e2,
            _ => false,
        },
{
    let bytes = input.as_bytes();
    let mut end = bytes.len();
    assert(bytes@.take(bytes@.len() as int) =~= bytes@);
    while end > 0 && bytes[end - 1] == 61
        invariant
            end <= bytes@.len(),
            trim_padding(bytes@) == trim_padding(bytes@.take(end as int)),
        decreases end,
    {
        assert(bytes@.take(end as int).drop_last() =~= bytes@.take(end - 1));
        end = end - 1;
    }
    let trimmed = vstd::slice::slice_subrange(bytes, 0, end);
    assert(trimmed@ =~= bytes@.take(end as int));
    assert(trim_padding(trimmed@) == trimmed@);
    decode_unpadded_bytes(trimmed)
}

/// Decode base64 text that carries no padding (see [`decode_unpadded`]).
fn decode_unpadded_bytes(t: &[u8]) -> (r: Result<Vec<u8>, String>)
    ensures
        match (r, decode_unpadded(t@)) {
            (Ok(v), Ok(w)) => v@ == w,
            (Err(e), Err(e2)) => e@ == e2,
            _ => false,
        },
{
    let ghost vals = t@.map_values(|c: u8| b64_value(c)->Some_0);
    let mut output: Vec<u8> = Vec::new();
    let mut buf: u32 = 0;
    let mut bits: u32 = 0;
    let mut k: usize = 0;
    proof {
        reveal(decoded_prefix);
        assert(vals.take(0) =~= Seq::<u32>::empty());
        assert(vals.subrange(0, 0) =~= Seq::<u32>::empty());
        assert(decoded_prefix(vals, 0) =~= Seq::<u8>::empty());
    }
    while k < t.len()
        invariant
            k <= t@.len(),
            vals == t@.map_values(|c: u8| b64_value(c)->Some_0),
            forall|j: int| 0 <= j < k ==> b64_value(#[trigger] t@[j]) is Some,
            output@ == decoded_prefix(vals, k as int),
            k % 4 == 0 ==> bits == 0 && buf == 0,
            k % 4 == 1 ==> bits == 6 && buf == vals[k - 1],
            k % 4 == 2 ==> bits == 4 && buf == vals[k - 1] % 16,
            k % 4 == 3 ==> bits == 2 && buf == vals[k - 1] % 4,
        decreases t.len() - k,
    {
        let c = t[k];
        let val = match b64_lookup(c) {
            Some(v) => v,
            None => {
                let e = invalid_char_error(c);
                proof {
                    lemma_first_invalid_at(t@, k as int);
                }
                return Err(e);
            },
        };
        assert(vals[k as int] == val);
        proof {
            lemma_prefix_step(vals, k as int);
        }
        feed_sextet(&mut buf, &mut bits, &mut output, val);
        k = k + 1;
    }
    proof {
        lemma_decoded_prefix_full(vals);
        reveal(first_invalid);
    }
    Ok(output)
}

/// Generic JSON-RPC client: the endpoint URL and a request-id counter that
/// starts at 1.
pub struct RpcClient {
    url: String,
    request_id: AtomicU64,
}

impl RpcClient {
    /// The endpoint URL.
    pub closed spec fn url_view(&self) -> Seq<char> {
        self.url@
    }

    /// A client for `url`.
    pub fn new(url: String) -> (c: Self)
        ensures
            c.url_view() == url@,
    {
        RpcClient { url, request_id: AtomicU64::new(1) }
    }

    /// The endpoint URL.
    pub fn url(&self) -> (u: &str)
        ensures
            u@ == self.url_view(),
    {
        self.url.as_str()
    }

    /// Take the next request id.
    pub fn next_request_id(&self) -> u64 {
        self.request_id.fetch_add(1, std::sync::atomic::Ordering::Relaxed)
    }

    /// The endpoint's (host, port, path).
    pub fn endpoint(&self) -> (r: Result<(String, u16, String), String>)
        ensures
            match (r, parse_url_spec(self.url_view())) {
                (Ok((h, p, path)), Ok((h2, p2, path2))) => h@ == h2 && p == p2 && path@ == path2,
                (Err(e), Err(e2)) => e@ == e2,
                _ => false,
            },
    {
        parse_url(self.url.as_str())
    }
}


/// The HTTP/1.1 POST request that carries `body` to `path` on `host`, as a
/// JSON document, with its byte length and a closing connection.
pub open spec fn http_post_text(path: Seq<char>, host: Seq<char>, body_len: nat, body: Seq<char>) -> Seq<char> {
    "POST "@ + path + " HTTP/1.1\r\nHost: "@ + host + "\r\nContent-Type: application/json\r\nContent-Length: "@
        + decimal_spec(body_len) + "\r\nConnection: close\r\n\r\n"@ + body
}

/// The request text of an HTTP POST of `body` (see [`http_post_text`]).
pub fn build_http_post(path: &str, host: &str, body: &str) -> (r: String)
    ensures
        r@ == http_post_text(path@, host@, utf8(body).len(), body@),
{
    let len = body.as_bytes().len();
    let mut r = concat3("POST ", path, " HTTP/1.1\r\nHost: ");
    r.append(host);
    r.append("\r\nContent-Type: application/json\r\nContent-Length: ");
    let n = decimal(len as u64);
    r.append(n.as_str());
    r.append("\r\nConnection: close\r\n\r\n");
    r.append(body);
    r
}

/// The position of the first blank line (`\r\n\r\n`) in `s`, if any.
pub open spec fn blank_line_at(s: Seq<u8>, i: int) -> bool {
    0 <= i && i + 4 <= s.len() && s[i] == 13u8 && s[i + 1] == 10u8 && s[i + 2] == 13u8 && s[i + 3] == 10u8
}

/// The body of an HTTP response: the bytes after its first blank line.
pub open spec fn http_body_spec(s: Seq<u8>) -> Option<Seq<u8>> {
    if exists|i: int| blank_line_at(s, i) {
        let i = choose|i: int| blank_line_at(s, i) && forall|j: int| 0 <= j < i ==> !blank_line_at(s, j);
        Some(s.skip(i + 4))
    } else {
        None
    }
}

/// The body of an HTTP response (see [`http_body_spec`]).
pub fn http_body(response: &[u8]) -> (r: Option<Vec<u8>>)
    ensures
        match (r, http_body_spec(response@)) {
            (Some(b), Some(c)) => b@ == c,
            (None, None) => true,
            _ => false,
        },
{
    let mut i: usize = 0;
    while i < response.len() && response.len() - i >= 4
        invariant
            i <= response.len(),
            forall|j: int| 0 <= j < i ==> !blank_line_at(response@, j),
        decreases response.len() - i,
    {
        if response[i] == 13 && response[i + 1] == 10 && response[i + 2] == 13 && response[i + 3] == 10 {
            proof {
                assert(blank_line_at(response@, i as int));
                let k = choose|k: int| blank_line_at(response@, k) && forall|j: int| 0 <= j < k ==> !blank_line_at(response@, j);
                if k < i {
                    assert(!blank_line_at(response@, k));
                } else if k > i {
                    assert(!blank_line_at(response@, i as int));
                }
            }
            let mut out: Vec<u8> = Vec::new();
            let mut k: usize = i + 4;
            while k < response.len()
                invariant
                    i + 4 <= k <= response.len(),
                    out@ == response@.subrange(i + 4, k as int),
                decreases response.len() - k,
            {
                out.push(response[k]);
                proof {
                    assert(out@ =~= response@.subrange(i + 4, k + 1));
                }
                k = k + 1;
            }
            proof {
                assert(out@ =~= response@.skip(i + 4));
            }
            return Some(out);
        }
        i = i + 1;
    }
    proof {
        assert forall|j: int| !blank_line_at(response@, j) by {
            if 0 <= j && j + 4 <= response@.len() {
                assert(j < i);
            }
        }
    }
    None
}


/// `s` without one leading `0x`.
pub open spec fn without_0x(s: Seq<char>) -> Seq<char> {
    if s.len() >= 2 && s[0] == '0' && s[1] == 'x' { s.skip(2) } else { s }
}

/// A hex quantity of a JSON-RPC reply (a block number or a timestamp): an
/// optional `0x`, then base-16 digits for a 64-bit value.
pub fn parse_hex_quantity(s: &str) -> (r: Result<u64, IntErrorKind>)
    ensures
        r == parse_u64_spec(without_0x(s@), 16),
{
    let all = chars_of(s);
    let digits: Vec<char> = if all.len() >= 2 && all[0] == '0' && all[1] == 'x' {
        let mut d: Vec<char> = Vec::new();
        let mut i: usize = 2;
        while i < all.len()
            invariant
                2 <= i <= all@.len(),
                d@ == all@.subrange(2, i as int),
            decreases all.len() - i,
        {
            d.push(all[i]);
            assert(d@ =~= all@.subrange(2, i + 1));
            i = i + 1;
        }
        assert(d@ =~= all@.skip(2));
        d
    } else {
        all
    };
    parse_u64_radix(&digits, 16)
}

} // verus!
