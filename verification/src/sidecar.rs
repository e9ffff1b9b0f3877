//! The executor sidecar's request handling: reading a job submission,
//! answering a job query from the queue and the recorded statuses, and
//! deriving job ids.

use vstd::prelude::*;
use blake2::Digest;
use crate::bytes::{le_bytes, push_bytes};
use crate::bytes::utf8;
use crate::eth_rpc::{hex_decode, hex_decode_spec, trim_0x, HexError};
use crate::node::JobStatusEntry;
use crate::text::{owned, push_char};

verus! {

/// Text after every leading `0x`, decoded as hex.
pub open spec fn trimmed_hex_spec(s: Seq<u8>) -> Result<Seq<u8>, HexError> {
    hex_decode_spec(trim_0x(s))
}

/// Decode hex after every leading `0x` (see [`trimmed_hex_spec`]).
pub fn decode_trimmed_hex(value: &str) -> (r: Result<Vec<u8>, HexError>)
    ensures
        match (r, trimmed_hex_spec(utf8(value))) {
            (Ok(v), Ok(w)) => v@ == w,
            (Err(e), Err(f)) => e == f,
            _ => false,
        },
{
    let mut rest: &[u8] = value.as_bytes();
    while rest.len() >= 2 && rest[0] == 0x30u8 && rest[1] == 0x78u8
        invariant
            trim_0x(rest@) == trim_0x(utf8(value)),
        decreases rest.len(),
    {
        let next = vstd::slice::slice_subrange(rest, 2, rest.len());
        assert(next@ =~= rest@.skip(2));
        rest = next;
    }
    hex_decode(rest)
}

/// Why a job submission is refused.
#[derive(Clone, Copy, Debug, PartialEq, Eq, Structural)]
pub enum SubmitError {
    InvalidBytecode(HexError),
    InvalidInput(HexError),
}

/// A job as submitted.
#[derive(Clone, Debug)]
pub struct JobRequest {
    pub bytecode: Vec<u8>,
    pub input: Vec<u8>,
    pub gas_limit: u64,
    /// 1 (lowest) to 10.
    pub priority: u8,
    pub callback_url: Option<String>,
}

/// Reads a job submission: bytecode and optional input in hex (every
/// leading `0x` skipped), a gas limit of 1 000 000 and a priority of 5
/// where none is given.
pub fn job_request(bytecode: &str, input: Option<&str>, gas_limit: Option<u64>, priority: Option<u8>, callback_url: Option<String>) -> (r: Result<JobRequest, SubmitError>)
    ensures
        trimmed_hex_spec(utf8(bytecode)) matches Err(e) ==> r == Err::<JobRequest, SubmitError>(SubmitError::InvalidBytecode(e)),
        trimmed_hex_spec(utf8(bytecode)) is Ok && (input matches Some(i) && trimmed_hex_spec(utf8(i)) is Err) ==> r == Err::<JobRequest, SubmitError>(SubmitError::InvalidInput(trimmed_hex_spec(utf8(input->Some_0))->Err_0)),
        r matches Ok(j) ==> {
            &&& trimmed_hex_spec(utf8(bytecode)) == Ok::<Seq<u8>, HexError>(j.bytecode@)
            &&& match input {
                Some(i) => trimmed_hex_spec(utf8(i)) == Ok::<Seq<u8>, HexError>(j.input@),
                None => j.input@.len() == 0,
            }
            &&& j.gas_limit == (match gas_limit { Some(g) => g, None => 1_000_000 })
            &&& j.priority == (match priority { Some(p) => p, None => 5 })
            &&& j.callback_url == callback_url
        },
        (trimmed_hex_spec(utf8(bytecode)) is Ok && !(input matches Some(i) && trimmed_hex_spec(utf8(i)) is Err)) ==> r is Ok,
{
    let code = match decode_trimmed_hex(bytecode) {
        Ok(b) => b,
        Err(e) => {
            return Err(SubmitError::InvalidBytecode(e));
        },
    };
    let data = match input {
        Some(i) => match decode_trimmed_hex(i) {
            Ok(b) => b,
            Err(e) => {
                return Err(SubmitError::InvalidInput(e));
            },
        },
        None => Vec::new(),
    };
    let gas_limit = match gas_limit {
        Some(g) => g,
        None => 1_000_000,
    };
    let priority = match priority {
        Some(p) => p,
        None => 5,
    };
    Ok(JobRequest { bytecode: code, input: data, gas_limit, priority, callback_url })
}

/// The lowercase hex digit of a nibble.
pub open spec fn nibble(n: nat) -> char {
    if n < 10 { (48 + n) as char } else { (87 + n) as char }
}

/// Two lowercase hex digits per byte, as `hex::encode` writes them.
pub open spec fn hex_text(b: Seq<u8>) -> Seq<char>
    decreases b.len(),
{
    if b.len() == 0 { Seq::empty() } else { hex_text(b.drop_last()) + seq![nibble(b.last() as nat / 16), nibble(b.last() as nat % 16)] }
}

fn nibble_char(n: u8) -> (c: char)
    requires
        n < 16,
    ensures
        c == nibble(n as nat),
{
    if n < 10 { (48 + n) as char } else { (87 + n) as char }
}

/// Lowercase hex of some bytes (see [`hex_text`]).
pub fn hex_encode(b: &[u8]) -> (s: String)
    ensures
        s@ == hex_text(b@),
{
    let mut s = String::new();
    let mut i: usize = 0;
    assert(b@.take(0) =~= Seq::<u8>::empty());
    while i < b.len()
        invariant
            i <= b@.len(),
            s@ == hex_text(b@.take(i as int)),
        decreases b.len() - i,
    {
        push_char(&mut s, nibble_char(b[i] / 16));
        push_char(&mut s, nibble_char(b[i] % 16));
        assert(b@.take(i + 1).drop_last() =~= b@.take(i as int));
        assert(s@ =~= hex_text(b@.take(i + 1)));
        i = i + 1;
    }
    assert(b@.take(b@.len() as int) =~= b@);
    s
}

/// What the queue knows of a job.
#[derive(Clone, Copy, Debug)]
pub struct QueuedJob {
    pub gas_limit: u64,
    pub priority: u8,
    /// How long it has waited (seconds).
    pub queued_for_secs: u64,
    /// Whether the executor has started it.
    pub running: bool,
}

/// The answer to a job query.
#[derive(Clone, Debug)]
pub struct JobInfo {
    pub job_id: String,
    pub status: String,
    pub gas_limit: Option<u64>,
    pub priority: Option<u8>,
    pub queued_for_secs: Option<u64>,
    pub tx_hash: Option<String>,
    pub error: Option<String>,
    pub updated_at_unix: Option<u64>,
}

/// A queued job's status where no status is recorded for it.
pub open spec fn queue_status(running: bool) -> Seq<char> {
    if running { "running"@ } else { "pending"@ }
}

fn queue_status_text(running: bool) -> (s: String)
    ensures
        s@ == queue_status(running),
{
    if running { owned("running") } else { owned("pending") }
}

/// Answers a job query: a queued job with its queue facts and its tracked
/// status (the queue's where none is recorded); a job only recorded with
/// its recorded status; `None` for a job neither queued nor recorded.
pub fn job_info(job_id: &[u8; 32], entry: Option<JobStatusEntry>, queued: Option<QueuedJob>) -> (r: Option<JobInfo>)
    ensures
        r is None <==> (entry is None && queued is None),
        r matches Some(info) ==> {
            &&& info.job_id@ == hex_text(job_id@)
            &&& match queued {
                Some(q) => {
                    &&& info.gas_limit == Some(q.gas_limit)
                    &&& info.priority == Some(q.priority)
                    &&& info.queued_for_secs == Some(q.queued_for_secs)
                    &&& info.status@ == (match entry { Some(t) => t.status@, None => queue_status(q.running) })
                },
                None => {
                    &&& info.gas_limit is None
                    &&& info.priority is None
                    &&& info.queued_for_secs is None
                    &&& info.status@ == entry->Some_0.status@
                },
            }
            &&& info.tx_hash == (match entry { Some(t) => t.tx_hash, None => None })
            &&& info.error == (match entry { Some(t) => t.error, None => None })
            &&& info.updated_at_unix == (match entry { Some(t) => Some(t.updated_at_unix), None => None })
        },
{
    match (queued, entry) {
        (Some(q), t) => {
            let (status, tx_hash, error, updated_at_unix) = match t {
                Some(e) => (e.status, e.tx_hash, e.error, Some(e.updated_at_unix)),
                None => (queue_status_text(q.running), None, None, None),
            };
            Some(JobInfo {
                job_id: hex_encode(job_id),
                status,
                gas_limit: Some(q.gas_limit),
                priority: Some(q.priority),
                queued_for_secs: Some(q.queued_for_secs),
                tx_hash,
                error,
                updated_at_unix,
            })
        },
        (None, Some(e)) => Some(JobInfo {
            job_id: hex_encode(job_id),
            status: e.status,
            gas_limit: None,
            priority: None,
            queued_for_secs: None,
            tx_hash: e.tx_hash,
            error: e.error,
            updated_at_unix: Some(e.updated_at_unix),
        }),
        (None, None) => None,
    }
}

/// BLAKE2s with a 32-byte digest of `data`.
pub uninterp spec fn blake2s_256_spec(data: Seq<u8>) -> Seq<u8>;

/// Calls `blake2::Blake2s256::digest`. Claims only that the 32-byte result
/// is the named function of the input bytes.
#[verifier::external_body]
fn blake2s_256(data: &[u8]) -> (h: [u8; 32])
    ensures
        h@ == blake2s_256_spec(data@),
{
    let out = blake2::Blake2s256::digest(data);
    let mut h = [0u8; 32];
    h.copy_from_slice(&out);
    h
}

/// A job id from the time of submission (nanoseconds since the Unix
/// epoch) and 16 random bytes: BLAKE2s-256 of the time's 16 little-endian
/// bytes and the random bytes.
pub fn job_id_from(nanos: u128, random: [u8; 16]) -> (id: [u8; 32])
    ensures
        id@ == blake2s_256_spec(le_bytes(nanos as nat, 16) + random@),
{
    let mut data: Vec<u8> = Vec::new();
    crate::bytes::push_u128_le(&mut data, nanos);
    push_bytes(&mut data, &random);
    blake2s_256(data.as_slice())
}

} // verus!
