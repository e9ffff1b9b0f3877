//! Reading the GPU inventory that `nvidia-smi` reports: one CSV line per
//! device (index, name, total and free memory in MiB, SM and memory clocks
//! in MHz, compute capability), without header or units.

use vstd::prelude::*;
use crate::eth_rpc::{parse_uint_bounded, parse_uint_spec};
use crate::text::{chars_of, string_of};

verus! {

/// Whether `c` has the Unicode `White_Space` property, as
/// `char::is_whitespace` reads it.
pub open spec fn is_ws(c: char) -> bool {
    let n = c as u32;
    ||| 0x9 <= n <= 0xd
    ||| n == 0x20 || n == 0x85 || n == 0xa0 || n == 0x1680
    ||| 0x2000 <= n <= 0x200a
    ||| n == 0x2028 || n == 0x2029 || n == 0x202f || n == 0x205f || n == 0x3000
}

fn is_ws_char(c: char) -> (r: bool)
    ensures
        r == is_ws(c),
{
    let n = c as u32;
    (0x9 <= n && n <= 0xd) || n == 0x20 || n == 0x85 || n == 0xa0 || n == 0x1680 || (0x2000 <= n && n <= 0x200a) || n == 0x2028
        || n == 0x2029 || n == 0x202f || n == 0x205f || n == 0x3000
}

/// `s` without leading white space.
pub open spec fn trim_start(s: Seq<char>) -> Seq<char>
    decreases s.len(),
{
    if s.len() > 0 && is_ws(s[0]) { trim_start(s.drop_first()) } else { s }
}

/// `s` without trailing white space.
pub open spec fn trim_end(s: Seq<char>) -> Seq<char>
    decreases s.len(),
{
    if s.len() > 0 && is_ws(s.last()) { trim_end(s.drop_last()) } else { s }
}

/// `s` without leading or trailing white space, as `str::trim` gives it.
pub open spec fn trim(s: Seq<char>) -> Seq<char> {
    trim_end(trim_start(s))
}

/// The pieces of `s` between occurrences of `sep`, as `str::split` gives
/// them: one more than there are separators.
pub open spec fn split_on(s: Seq<char>, sep: char) -> Seq<Seq<char>>
    decreases s.len(),
{
    if s.len() == 0 {
        seq![Seq::empty()]
    } else if s.last() == sep {
        split_on(s.drop_last(), sep).push(Seq::empty())
    } else {
        let p = split_on(s.drop_last(), sep);
        p.update(p.len() - 1, p.last().push(s.last()))
    }
}

proof fn lemma_split_nonempty(s: Seq<char>, sep: char)
    ensures
        split_on(s, sep).len() >= 1,
    decreases s.len(),
{
    if s.len() > 0 {
        lemma_split_nonempty(s.drop_last(), sep);
    }
}

/// The pieces of a line, each trimmed.
pub open spec fn trimmed_columns(line: Seq<char>) -> Seq<Seq<char>> {
    split_on(line, ',').map_values(|c: Seq<char>| trim(c))
}

/// A number column: its decimal value where it parses within `max`, else
/// zero.
pub open spec fn number_or_zero(c: Seq<char>, max: nat) -> nat {
    match parse_uint_spec(c, 10, max) {
        Ok(v) => v,
        Err(_) => 0,
    }
}

/// One device of the report, memory still in MiB.
pub struct RowModel {
    pub device_id: nat,
    pub name: Seq<char>,
    pub total_mib: nat,
    pub free_mib: nat,
    pub sm_clock: nat,
    pub mem_clock: nat,
    pub compute_capability: Seq<char>,
}

/// The device a line of seven or more columns describes.
pub open spec fn row_of(cols: Seq<Seq<char>>) -> RowModel {
    RowModel {
        device_id: number_or_zero(cols[0], u32::MAX as nat),
        name: cols[1],
        total_mib: number_or_zero(cols[2], u64::MAX as nat),
        free_mib: number_or_zero(cols[3], u64::MAX as nat),
        sm_clock: number_or_zero(cols[4], u32::MAX as nat),
        mem_clock: number_or_zero(cols[5], u32::MAX as nat),
        compute_capability: cols[6],
    }
}

/// The devices some lines describe: blank lines and lines of fewer than
/// seven columns are skipped.
pub open spec fn rows_of(lines: Seq<Seq<char>>) -> Seq<RowModel>
    decreases lines.len(),
{
    if lines.len() == 0 {
        Seq::empty()
    } else {
        let prev = rows_of(lines.drop_last());
        let t = trim(lines.last());
        if t.len() == 0 || trimmed_columns(t).len() < 7 { prev } else { prev.push(row_of(trimmed_columns(t))) }
    }
}

/// The devices a report describes.
pub open spec fn gpu_rows(report: Seq<char>) -> Seq<RowModel> {
    rows_of(split_on(report, '\n'))
}

/// Every device's memory, in bytes, fits in 64 bits.
pub open spec fn memory_fits(rows: Seq<RowModel>) -> bool {
    forall|i: int| 0 <= i < rows.len() ==> (#[trigger] rows[i]).total_mib * 1048576 <= u64::MAX && rows[i].free_mib * 1048576 <= u64::MAX
}

/// One device of the report.
#[derive(Clone, Debug, PartialEq, Eq)]
pub struct GpuDeviceRow {
    pub device_id: u32,
    pub name: String,
    /// In bytes.
    pub total_memory: u64,
    /// In bytes.
    pub available_memory: u64,
    pub clock_speed_mhz: u32,
    pub mem_clock_mhz: u32,
    pub compute_capability: String,
}

/// A device row matches its model, memory converted to bytes.
pub open spec fn row_matches(r: GpuDeviceRow, m: RowModel) -> bool {
    &&& r.device_id == m.device_id
    &&& r.name@ == m.name
    &&& r.total_memory == m.total_mib * 1048576
    &&& r.available_memory == m.free_mib * 1048576
    &&& r.clock_speed_mhz == m.sm_clock
    &&& r.mem_clock_mhz == m.mem_clock
    &&& r.compute_capability@ == m.compute_capability
}

/// The pieces of `s` between occurrences of `sep` (see [`split_on`]).
fn split_chars(s: &Vec<char>, sep: char) -> (r: Vec<Vec<char>>)
    ensures
        r@.map_values(|p: Vec<char>| p@) == split_on(s@, sep),
{
    let mut parts: Vec<Vec<char>> = Vec::new();
    parts.push(Vec::new());
    let mut i: usize = 0;
    assert(s@.take(0) =~= Seq::<char>::empty());
    assert(parts@.map_values(|p: Vec<char>| p@) =~= seq![Seq::<char>::empty()]);
    while i < s.len()
        invariant
            i <= s@.len(),
            parts@.len() >= 1,
            parts@.map_values(|p: Vec<char>| p@) == split_on(s@.take(i as int), sep),
        decreases s.len() - i,
    {
        let c = s[i];
        let ghost before = parts@.map_values(|p: Vec<char>| p@);
        assert(s@.take(i + 1).drop_last() =~= s@.take(i as int));
        assert(s@.take(i + 1).last() == c);
        if c == sep {
            parts.push(Vec::new());
            assert(parts@.map_values(|p: Vec<char>| p@) =~= before.push(Seq::<char>::empty()));
        } else {
            let mut last = parts.pop().unwrap();
            let ghost last_before = last@;
            last.push(c);
            parts.push(last);
            assert(parts@.map_values(|p: Vec<char>| p@) =~= before.update(before.len() - 1, last_before.push(c)));
        }
        i = i + 1;
    }
    assert(s@.take(s@.len() as int) =~= s@);
    parts
}

/// `s` without leading or trailing white space (see [`trim`]).
fn trim_chars(s: &Vec<char>) -> (r: Vec<char>)
    ensures
        r@ == trim(s@),
{
    let mut a: usize = 0;
    assert(s@.skip(0) =~= s@);
    while a < s.len() && is_ws_char(s[a])
        invariant
            a <= s@.len(),
            trim_start(s@) == trim_start(s@.skip(a as int)),
        decreases s.len() - a,
    {
        assert(s@.skip(a as int).drop_first() =~= s@.skip(a + 1));
        a = a + 1;
    }
    assert(trim_start(s@.skip(a as int)) == s@.skip(a as int));
    let mut b: usize = s.len();
    assert(s@.subrange(a as int, b as int) =~= s@.skip(a as int));
    while b > a && is_ws_char(s[b - 1])
        invariant
            a <= b <= s@.len(),
            trim_end(s@.skip(a as int)) == trim_end(s@.subrange(a as int, b as int)),
        decreases b - a,
    {
        assert(s@.subrange(a as int, b as int).drop_last() =~= s@.subrange(a as int, b - 1));
        b = b - 1;
    }
    assert(trim_end(s@.subrange(a as int, b as int)) == s@.subrange(a as int, b as int));
    let mut r: Vec<char> = Vec::new();
    let mut k: usize = a;
    while k < b
        invariant
            a <= k <= b,
            b <= s@.len(),
            r@ == s@.subrange(a as int, k as int),
        decreases b - k,
    {
        r.push(s[k]);
        assert(r@ =~= s@.subrange(a as int, k + 1));
        k = k + 1;
    }
    r
}

/// A number column, zero where it does not parse within `max`.
fn number_or_zero_exec(c: &Vec<char>, max: u64) -> (v: u64)
    ensures
        v == number_or_zero(c@, max as nat),
{
    match parse_uint_bounded(c, 10, max) {
        Ok(v) => v,
        Err(_) => 0,
    }
}

/// The trimmed columns of a line.
fn columns(line: &Vec<char>) -> (r: Vec<Vec<char>>)
    ensures
        r@.map_values(|p: Vec<char>| p@) == trimmed_columns(line@),
{
    let parts = split_chars(line, ',');
    let ghost pv = parts@.map_values(|p: Vec<char>| p@);
    let mut cols: Vec<Vec<char>> = Vec::new();
    let mut i: usize = 0;
    while i < parts.len()
        invariant
            i <= parts@.len(),
            pv == parts@.map_values(|p: Vec<char>| p@),
            pv == split_on(line@, ','),
            cols@.len() == i,
            cols@.map_values(|p: Vec<char>| p@) == pv.take(i as int).map_values(|c: Seq<char>| trim(c)),
        decreases parts.len() - i,
    {
        let ghost before = cols@.map_values(|p: Vec<char>| p@);
        let ghost old_cols = cols@;
        let t = trim_chars(&parts[i]);
        cols.push(t);
        assert(pv[i as int] == parts@[i as int]@);
        let ghost after = cols@.map_values(|p: Vec<char>| p@);
        let ghost goal = pv.take(i + 1).map_values(|c: Seq<char>| trim(c));
        let ghost prev_goal = pv.take(i as int).map_values(|c: Seq<char>| trim(c));
        assert forall|j: int| 0 <= j < i + 1 implies #[trigger] after[j] == goal[j] by {
            if j < i {
                assert(cols@[j] == old_cols[j]);
                assert(before[j] == prev_goal[j]);
            }
        }
        assert(after =~= goal);
        i = i + 1;
    }
    assert(pv.take(pv.len() as int) =~= pv);
    cols
}

/// The devices `nvidia-smi` reports (see [`gpu_rows`]), memory in bytes;
/// `None` where a device's memory in bytes overflows 64 bits.
pub fn parse_gpu_query_checked(report: &str) -> (r: Option<Vec<GpuDeviceRow>>)
    ensures
        r is None <==> !memory_fits(gpu_rows(report@)),
        r matches Some(rows) ==> {
            &&& rows@.len() == gpu_rows(report@).len()
            &&& forall|i: int| 0 <= i < rows@.len() ==> row_matches(#[trigger] rows@[i], gpu_rows(report@)[i])
        },
{
    let all = chars_of(report);
    let lines = split_chars(&all, '\n');
    let ghost lv = lines@.map_values(|p: Vec<char>| p@);
    let mut rows: Vec<GpuDeviceRow> = Vec::new();
    let mut k: usize = 0;
    assert(lv.take(0) =~= Seq::<Seq<char>>::empty());
    while k < lines.len()
        invariant
            k <= lines@.len(),
            lv == lines@.map_values(|p: Vec<char>| p@),
            lv == split_on(report@, '\n'),
            memory_fits(rows_of(lv.take(k as int))),
            rows@.len() == rows_of(lv.take(k as int)).len(),
            forall|i: int| 0 <= i < rows@.len() ==> row_matches(#[trigger] rows@[i], rows_of(lv.take(k as int))[i]),
        decreases lines.len() - k,
    {
        let ghost pre = lv.take(k + 1);
        assert(pre.drop_last() =~= lv.take(k as int));
        assert(pre.last() == lines@[k as int]@);
        let t = trim_chars(&lines[k]);
        if t.len() > 0 {
            let cols = columns(&t);
            proof {
                assert(cols@.len() == trimmed_columns(t@).len());
            }
            if cols.len() >= 7 {
                let ghost cv = cols@.map_values(|p: Vec<char>| p@);
                let ghost m = row_of(trimmed_columns(t@));
                proof {
                    assert(cv == trimmed_columns(t@));
                    assert(cv[0] == cols@[0]@);
                    assert(cv[1] == cols@[1]@);
                    assert(cv[2] == cols@[2]@);
                    assert(cv[3] == cols@[3]@);
                    assert(cv[4] == cols@[4]@);
                    assert(cv[5] == cols@[5]@);
                    assert(cv[6] == cols@[6]@);
                    lemma_rows_prefix(lv, k + 1);
                    assert(rows_of(pre) == rows_of(lv.take(k as int)).push(m));
                    assert(rows_of(pre)[rows@.len() as int] == m);
                    assert(gpu_rows(report@) == rows_of(lv));
                    assert(rows_of(lv)[rows@.len() as int] == rows_of(pre)[rows@.len() as int]);
                }
                let device_id = number_or_zero_exec(&cols[0], 0xffff_ffff) as u32;
                let total_mib = number_or_zero_exec(&cols[2], u64::MAX);
                let free_mib = number_or_zero_exec(&cols[3], u64::MAX);
                let sm_clock = number_or_zero_exec(&cols[4], 0xffff_ffff) as u32;
                let mem_clock = number_or_zero_exec(&cols[5], 0xffff_ffff) as u32;
                proof {
                    lemma_number_bound(cols@[0]@, 0xffff_ffff);
                    lemma_number_bound(cols@[4]@, 0xffff_ffff);
                    lemma_number_bound(cols@[5]@, 0xffff_ffff);
                }
                let (total_memory, available_memory) = match (total_mib.checked_mul(1048576), free_mib.checked_mul(1048576)) {
                    (Some(t), Some(f)) => (t, f),
                    _ => {
                        proof {
                            assert(!memory_fits(rows_of(lv)));
                        }
                        return None;
                    },
                };
                let row = GpuDeviceRow {
                    device_id,
                    name: string_of(cols[1].as_slice()),
                    total_memory,
                    available_memory,
                    clock_speed_mhz: sm_clock,
                    mem_clock_mhz: mem_clock,
                    compute_capability: string_of(cols[6].as_slice()),
                };
                let ghost old_rows = rows@;
                rows.push(row);
                assert forall|i: int| 0 <= i < rows@.len() implies row_matches(#[trigger] rows@[i], rows_of(pre)[i]) by {
                    if i < old_rows.len() {
                        assert(rows@[i] == old_rows[i]);
                        assert(rows_of(pre)[i] == rows_of(lv.take(k as int))[i]);
                    }
                }
                assert forall|i: int| 0 <= i < rows_of(pre).len() implies (#[trigger] rows_of(pre)[i]).total_mib * 1048576 <= u64::MAX && rows_of(pre)[i].free_mib * 1048576 <= u64::MAX by {
                    if i < old_rows.len() {
                        assert(rows_of(pre)[i] == rows_of(lv.take(k as int))[i]);
                    }
                }
            } else {
                assert(rows_of(pre) == rows_of(lv.take(k as int)));
            }
        } else {
            assert(rows_of(pre) == rows_of(lv.take(k as int)));
        }
        k = k + 1;
    }
    assert(lv.take(lv.len() as int) =~= lv);
    Some(rows)
}

/// The devices `nvidia-smi` reports (see [`gpu_rows`]), memory in bytes.
pub fn parse_gpu_query(report: &str) -> (rows: Vec<GpuDeviceRow>)
    requires
        memory_fits(gpu_rows(report@)),
    ensures
        rows@.len() == gpu_rows(report@).len(),
        forall|i: int| 0 <= i < rows@.len() ==> row_matches(#[trigger] rows@[i], gpu_rows(report@)[i]),
{
    match parse_gpu_query_checked(report) {
        Some(rows) => rows,
        None => Vec::new(),
    }
}


/// What the first line of a memory query reads.
#[derive(Clone, Copy, Debug, PartialEq, Eq, Structural)]
pub enum MemoryReading {
    /// Free and total memory, in bytes.
    Read(u64, u64),
    /// No line of exactly two columns.
    Unreadable,
    /// The memory in bytes overflows 64 bits.
    Overflow,
}

/// The reading of a memory query (`memory.free,memory.total` in MiB):
/// the first line must have exactly two columns.
pub open spec fn memory_reading(report: Seq<char>) -> MemoryReading {
    if report.len() == 0 {
        MemoryReading::Unreadable
    } else {
        let cols = trimmed_columns(split_on(report, '\n')[0]);
        if cols.len() != 2 {
            MemoryReading::Unreadable
        } else {
            let free = number_or_zero(cols[0], u64::MAX as nat) * 1048576;
            let total = number_or_zero(cols[1], u64::MAX as nat) * 1048576;
            if free > u64::MAX || total > u64::MAX { MemoryReading::Overflow } else { MemoryReading::Read(free as u64, total as u64) }
        }
    }
}

/// Reads a memory query (see [`memory_reading`]).
pub fn parse_memory_status(report: &str) -> (r: MemoryReading)
    ensures
        r == memory_reading(report@),
{
    let all = chars_of(report);
    if all.len() == 0 {
        return MemoryReading::Unreadable;
    }
    let lines = split_chars(&all, '\n');
    proof {
        lemma_split_nonempty(all@, '\n');
        assert(lines@.map_values(|p: Vec<char>| p@)[0] == lines@[0]@);
    }
    let cols = columns(&lines[0]);
    if cols.len() != 2 {
        return MemoryReading::Unreadable;
    }
    proof {
        assert(cols@.map_values(|p: Vec<char>| p@)[0] == cols@[0]@);
        assert(cols@.map_values(|p: Vec<char>| p@)[1] == cols@[1]@);
    }
    let free_mib = number_or_zero_exec(&cols[0], u64::MAX);
    let total_mib = number_or_zero_exec(&cols[1], u64::MAX);
    match (free_mib.checked_mul(1048576), total_mib.checked_mul(1048576)) {
        (Some(f), Some(t)) => MemoryReading::Read(f, t),
        _ => MemoryReading::Overflow,
    }
}

/// A parsed number is within its bound.
proof fn lemma_number_bound(c: Seq<char>, max: nat)
    ensures
        number_or_zero(c, max) <= max,
{
    if parse_uint_spec(c, 10, max) is Ok {
        lemma_scan_bound(if c[0] == '+' { c.drop_first() } else { c }, max);
    }
}

proof fn lemma_scan_bound(ds: Seq<char>, max: nat)
    ensures
        crate::eth_rpc::scan_digits(ds, 10, max) matches Ok(v) ==> v <= max,
    decreases ds.len(),
{
    if ds.len() > 0 {
        lemma_scan_bound(ds.drop_last(), max);
    }
}

/// The devices of a longer prefix of lines extend those of a shorter one.
proof fn lemma_rows_prefix(lines: Seq<Seq<char>>, n: int)
    requires
        0 <= n <= lines.len(),
    ensures
        rows_of(lines.take(n)).len() <= rows_of(lines).len(),
        forall|i: int| 0 <= i < rows_of(lines.take(n)).len() ==> #[trigger] rows_of(lines)[i] == rows_of(lines.take(n))[i],
    decreases lines.len() - n,
{
    if n < lines.len() {
        lemma_rows_prefix(lines, n + 1);
        assert(lines.take(n + 1).drop_last() =~= lines.take(n));
    } else {
        assert(lines.take(n) =~= lines);
    }
}

} // verus!
