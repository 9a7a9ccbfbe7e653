//! Deterministic partition of a dataset into contiguous chunks, one per
//! worker, and the checks that come before any worker starts.

use vstd::prelude::*;

verus! {

/// A fault in the configuration of a scan, found before any record is read.
#[derive(Clone, Copy, Debug, PartialEq, Eq, Structural)]
pub enum ConfigError {
    /// The scan would run on no worker at all.
    NoWorkers,
    /// The dataset's byte length is not a whole number of records.
    TruncatedDataset,
}

/// Records per chunk: the dataset's length divided by the number of
/// workers, rounded up.
pub open spec fn spec_chunk_size(len: nat, workers: nat) -> nat
    recommends
        workers > 0,
{
    ((len + workers - 1) / (workers as int)) as nat
}

/// First record of chunk `index`.
pub open spec fn spec_chunk_start(len: nat, workers: nat, index: nat) -> nat {
    let at = index * spec_chunk_size(len, workers);
    if at < len { at } else { len }
}

/// One past the last record of chunk `index`.
pub open spec fn spec_chunk_end(len: nat, workers: nat, index: nat) -> nat {
    spec_chunk_start(len, workers, index + 1)
}

/// Whether record `record` lies in chunk `index`.
pub open spec fn in_chunk(len: nat, workers: nat, index: nat, record: nat) -> bool {
    spec_chunk_start(len, workers, index) <= record < spec_chunk_end(len, workers, index)
}

/// The chunk that holds record `record`.
pub open spec fn spec_chunk_of(len: nat, workers: nat, record: nat) -> nat
    recommends
        workers > 0,
        record < len,
{
    record / spec_chunk_size(len, workers)
}

/// The chunk size times the number of workers reaches the dataset's length,
/// and a non-empty dataset has non-empty chunks.
pub proof fn lemma_chunk_size(len: nat, workers: nat)
    requires
        workers > 0,
    ensures
        spec_chunk_size(len, workers) * workers >= len,
        len > 0 ==> spec_chunk_size(len, workers) > 0,
        len == 0 ==> spec_chunk_size(len, workers) == 0,
        spec_chunk_size(len, workers) <= len,
        len % workers == 0 ==> spec_chunk_size(len, workers) == len / workers,
        len % workers != 0 ==> spec_chunk_size(len, workers) == len / workers + 1,
{
    let w = workers as int;
    let l = len as int;
    let q = l / w;
    let r = l % w;
    vstd::arithmetic::div_mod::lemma_fundamental_div_mod(l, w);
    assert(l == w * q + r);
    assert(0 <= r < w) by {
        vstd::arithmetic::div_mod::lemma_mod_bound(l, w);
    }
    assert(0 <= q) by (nonlinear_arith)
        requires
            l == w * q + r,
            0 <= r < w,
            l >= 0,
            w > 0,
    ;
    if r == 0 {
        assert((l + w - 1) / w == q) by {
            vstd::arithmetic::div_mod::lemma_fundamental_div_mod_converse(l + w - 1, w, q, w - 1);
        }
    } else {
        assert(l + w - 1 == w * (q + 1) + (r - 1)) by (nonlinear_arith)
            requires
                l == w * q + r,
        ;
        assert((l + w - 1) / w == q + 1) by {
            vstd::arithmetic::div_mod::lemma_fundamental_div_mod_converse(
                l + w - 1,
                w,
                q + 1,
                r - 1,
            );
        }
    }
    let s = (l + w - 1) / w;
    assert(s * w >= l) by (nonlinear_arith)
        requires
            l == w * q + r,
            0 <= r < w,
            (r == 0 && s == q) || (r != 0 && s == q + 1),
    ;
    assert(s <= l) by (nonlinear_arith)
        requires
            l == w * q + r,
            0 <= r < w,
            w >= 1,
            q >= 0,
            (r == 0 && s == q) || (r != 0 && s == q + 1),
    ;
}

/// The chunks of a partition are contiguous, start at the first record and
/// end at the last: chunk `index` ends where chunk `index + 1` starts, chunk
/// 0 starts at 0, the last chunk ends at `len`, and no chunk is longer than
/// the chunk size.
pub proof fn lemma_chunks_contiguous(len: nat, workers: nat, index: nat)
    requires
        workers > 0,
    ensures
        spec_chunk_start(len, workers, 0) == 0,
        spec_chunk_end(len, workers, (workers - 1) as nat) == len,
        spec_chunk_end(len, workers, index) == spec_chunk_start(len, workers, index + 1),
        spec_chunk_start(len, workers, index) <= spec_chunk_end(len, workers, index) <= len,
        spec_chunk_end(len, workers, index) - spec_chunk_start(len, workers, index)
            <= spec_chunk_size(len, workers),
        index >= workers ==> spec_chunk_start(len, workers, index) == len,
{
    lemma_chunk_size(len, workers);
    let s = spec_chunk_size(len, workers) as int;
    let i = index as int;
    assert(0 * s == 0);
    assert((i + 1) * s == i * s + s) by (nonlinear_arith);
    assert(i * s >= 0) by (nonlinear_arith)
        requires
            i >= 0,
            s >= 0,
    ;
    if index >= workers {
        assert(i * s >= len) by (nonlinear_arith)
            requires
                i >= workers,
                s * workers >= len,
                s >= 0,
        ;
    }
    let last = workers as int - 1;
    assert((last + 1) * s >= len) by (nonlinear_arith)
        requires
            last + 1 == workers,
            s * workers >= len,
    ;
}

/// Partition coverage: every record of the dataset lies in exactly one
/// chunk of the partition, the chunk `spec_chunk_of` names.
pub proof fn lemma_partition_covers(len: nat, workers: nat, record: nat)
    requires
        workers > 0,
        record < len,
    ensures
        spec_chunk_of(len, workers, record) < workers,
        in_chunk(len, workers, spec_chunk_of(len, workers, record), record),
        forall|index: nat| #[trigger]
            in_chunk(len, workers, index, record) ==> index == spec_chunk_of(
                len,
                workers,
                record,
            ),
{
    lemma_chunk_size(len, workers);
    let s = spec_chunk_size(len, workers) as int;
    let r = record as int;
    let c = r / s;
    vstd::arithmetic::div_mod::lemma_fundamental_div_mod(r, s);
    vstd::arithmetic::div_mod::lemma_mod_bound(r, s);
    assert(s * c <= r < s * c + s);
    assert(c >= 0) by (nonlinear_arith)
        requires
            s * c + s > r,
            r >= 0,
            s > 0,
    ;
    assert(c < workers) by (nonlinear_arith)
        requires
            s * c <= r,
            r < len,
            s * workers >= len,
            s > 0,
    ;
    assert(c * s == s * c) by (nonlinear_arith);
    assert((c + 1) * s == s * c + s) by (nonlinear_arith);
    assert forall|index: nat| #[trigger]
        in_chunk(len, workers, index, record) implies index == spec_chunk_of(
        len,
        workers,
        record,
    ) by {
        let i = index as int;
        assert((i + 1) * s == i * s + s) by (nonlinear_arith);
        assert(i * s <= r);
        assert(r < i * s + s);
        assert(i == c) by (nonlinear_arith)
            requires
                i * s <= r,
                r < i * s + s,
                s * c <= r,
                r < s * c + s,
                s > 0,
        ;
    }
}

/// Records per chunk for `len` records on `workers` workers.
pub fn chunk_size(len: usize, workers: usize) -> (size: usize)
    requires
        workers > 0,
    ensures
        size == spec_chunk_size(len as nat, workers as nat),
{
    proof {
        lemma_chunk_size(len as nat, workers as nat);
    }
    if len % workers == 0 {
        len / workers
    } else {
        len / workers + 1
    }
}

/// The half-open range of records that chunk `index` covers.
pub fn chunk_bounds(len: usize, workers: usize, index: usize) -> (bounds: (usize, usize))
    requires
        workers > 0,
    ensures
        bounds.0 == spec_chunk_start(len as nat, workers as nat, index as nat),
        bounds.1 == spec_chunk_end(len as nat, workers as nat, index as nat),
        bounds.0 <= bounds.1 <= len,
{
    let size = chunk_size(len, workers);
    proof {
        lemma_chunk_size(len as nat, workers as nat);
        lemma_chunks_contiguous(len as nat, workers as nat, index as nat);
    }
    if size == 0 {
        assert(index * 0 == 0);
        assert((index + 1) * 0 == 0);
        return (0, 0);
    }
    let full = len / size;
    proof {
        let s = size as int;
        let l = len as int;
        let i = index as int;
        vstd::arithmetic::div_mod::lemma_fundamental_div_mod(l, s);
        vstd::arithmetic::div_mod::lemma_mod_bound(l, s);
        assert(s * (l / s) <= l < s * (l / s) + s);
        if index <= full {
            assert(i * s <= l) by (nonlinear_arith)
                requires
                    i <= l / s,
                    s * (l / s) <= l,
                    s > 0,
                    i >= 0,
            ;
        } else {
            assert(i * s > l) by (nonlinear_arith)
                requires
                    i >= l / s + 1,
                    l < s * (l / s) + s,
                    s > 0,
            ;
        }
        assert((i + 1) * s == i * s + s) by (nonlinear_arith);
    }
    let start = if index <= full { index * size } else { len };
    let end = if len - start >= size { start + size } else { len };
    (start, end)
}

/// The number of workers a scan runs on: the requested number, or the
/// available parallelism where none is requested, and never more than the
/// available parallelism. A scan on no worker is refused.
pub open spec fn spec_resolve_workers(requested: Option<usize>, available: usize) -> Result<
    usize,
    ConfigError,
> {
    let wanted = match requested {
        Some(n) => if n < available { n } else { available },
        None => available,
    };
    if wanted == 0 {
        Err(ConfigError::NoWorkers)
    } else {
        Ok(wanted)
    }
}

/// Resolves the number of workers from the request and the parallelism at hand.
pub fn resolve_workers(requested: Option<usize>, available: usize) -> (r: Result<
    usize,
    ConfigError,
>)
    ensures
        r == spec_resolve_workers(requested, available),
        r matches Ok(n) ==> 1 <= n <= available,
        r is Err <==> (requested == Some(0usize) || available == 0),
{
    let wanted = match requested {
        Some(n) => if n < available { n } else { available },
        None => available,
    };
    if wanted == 0 {
        Err(ConfigError::NoWorkers)
    } else {
        Ok(wanted)
    }
}

/// `num_cpus::get`: the number of logical cores available to the process.
/// Its documentation promises at least 1; the number depends on the
/// machine and on the moment.
#[verifier::external_body]
fn cpu_count() -> (n: usize)
    ensures
        n >= 1,
{
    num_cpus::get()
}

/// Resolves the number of workers from the request and the parallelism of
/// this machine. Whatever the machine, a request for no worker is refused
/// and nothing else is, and no more workers are granted than requested.
pub fn resolve_threads(requested: Option<usize>) -> (r: Result<usize, ConfigError>)
    ensures
        exists|available: usize| available >= 1 && r == #[trigger] spec_resolve_workers(requested, available),
        r is Err <==> requested == Some(0usize),
        r matches Ok(n) ==> n >= 1 && (requested matches Some(t) ==> n <= t),
{
    let available = cpu_count();
    resolve_workers(requested, available)
}

/// The number of records in a dataset of `byte_len` bytes: the quotient by
/// the record width where that leaves no remainder, a fault otherwise.
pub open spec fn spec_record_count(byte_len: u64, record_width: u64) -> Result<u64, ConfigError> {
    if record_width == 0 || byte_len % record_width != 0 {
        Err(ConfigError::TruncatedDataset)
    } else {
        Ok(byte_len / record_width)
    }
}

/// Counts the records of a dataset by its byte length, and refuses a length
/// that is not a whole number of records.
pub fn record_count(byte_len: u64, record_width: u64) -> (r: Result<u64, ConfigError>)
    ensures
        r == spec_record_count(byte_len, record_width),
        r matches Ok(n) ==> n * record_width == byte_len,
{
    if record_width == 0 || byte_len % record_width != 0 {
        Err(ConfigError::TruncatedDataset)
    } else {
        proof {
            vstd::arithmetic::div_mod::lemma_fundamental_div_mod(
                byte_len as int,
                record_width as int,
            );
            assert((byte_len / record_width) * record_width == record_width * (byte_len
                / record_width)) by (nonlinear_arith);
        }
        Ok(byte_len / record_width)
    }
}

/// What a scan is to run on: the number of records of the dataset and the
/// number of workers. The dataset is checked first, then the workers; a
/// fault of either refuses the scan.
pub open spec fn spec_plan_scan(
    byte_len: u64,
    record_width: u64,
    requested: Option<usize>,
    available: usize,
) -> Result<(u64, usize), ConfigError> {
    match spec_record_count(byte_len, record_width) {
        Err(e) => Err(e),
        Ok(records) => match spec_resolve_workers(requested, available) {
            Err(e) => Err(e),
            Ok(workers) => Ok((records, workers)),
        },
    }
}

/// Plans a scan before any worker starts: counts the records of a dataset
/// of `byte_len` bytes and resolves the number of workers. The scan is
/// refused exactly where the dataset is no whole number of records or there
/// is no worker to run on; a truncated dataset is reported first.
pub fn plan_scan(
    byte_len: u64,
    record_width: u64,
    requested: Option<usize>,
    available: usize,
) -> (r: Result<(u64, usize), ConfigError>)
    ensures
        r == spec_plan_scan(byte_len, record_width, requested, available),
        r is Err <==> (requested == Some(0usize) || available == 0 || record_width == 0 || byte_len
            % record_width != 0),
        r matches Err(e) ==> (e == ConfigError::TruncatedDataset <==> (record_width == 0
            || byte_len % record_width != 0)),
        r matches Ok(plan) ==> plan.0 * record_width == byte_len && 1 <= plan.1 <= available,
{
    let records = match record_count(byte_len, record_width) {
        Ok(n) => n,
        Err(e) => {
            return Err(e);
        },
    };
    match resolve_workers(requested, available) {
        Ok(workers) => Ok((records, workers)),
        Err(e) => Err(e),
    }
}

} // verus!
