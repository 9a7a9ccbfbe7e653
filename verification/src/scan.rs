//! The scan engine: runs a per-record transform over the chunks of a
//! dataset and folds what the records contribute into one tally.
//!
//! A chunk is visited in ascending order and abandoned at its first failing
//! record. The other chunks are still visited in full; of several failing
//! chunks the one with the lowest index decides the error.
//!
//! The transform is any function the caller supplies, so the contracts here
//! speak of a *trace*: the results the transform returned, in the order of
//! the calls.

use vstd::prelude::*;
use crate::partition::{
    chunk_bounds,
    lemma_chunks_contiguous,
    spec_chunk_end,
    spec_chunk_start,
    ConfigError,
};
use crate::record::CodecError;
use crate::stats::{
    join,
    lemma_tally_shaped,
    tally,
    Observation,
    ObservationView,
    Stats,
    StatsView,
    MAX_POSITIONS,
};

verus! {

/// Records between two advisory progress reports of a worker.
pub const PROGRESS_BATCH: u64 = 1024;

/// Why a scan returned no tally.
#[derive(Clone, Copy, Debug, PartialEq, Eq, Structural)]
pub enum ScanError {
    /// The scan was refused before any record was read.
    Config(ConfigError),
    /// A record could not be decoded.
    Codec(CodecError),
}

/// What the transform returned for one record.
pub type Step = Result<Observation, CodecError>;

/// The observations of a trace, one per step; the entry of a failed step is
/// arbitrary.
pub open spec fn observed(trace: Seq<Step>) -> Seq<ObservationView> {
    Seq::new(trace.len(), |i: int| trace[i]->Ok_0@)
}

/// A trace of a chunk of `len` records stops where it should: every step
/// but the last succeeded, and a trace that is shorter than the chunk ends
/// in a failure.
pub open spec fn stops_at_first_failure(trace: Seq<Step>, len: nat) -> bool {
    &&& trace.len() <= len
    &&& forall|i: int| 0 <= i < trace.len() - 1 ==> (#[trigger] trace[i]) is Ok
    &&& trace.len() < len ==> trace.len() > 0 && trace.last() is Err
}

/// What a chunk yields, given the trace of its steps: the error of its
/// failed last step, or the tally of all its steps.
pub open spec fn chunk_result(trace: Seq<Step>) -> Result<StatsView, CodecError> {
    if trace.len() > 0 && trace.last() is Err {
        Err(trace.last()->Err_0)
    } else {
        Ok(tally(observed(trace)))
    }
}

/// `trace` is a trace of `transform` over the records of a chunk that is
/// only read: step `i` is a result of the transform on record `i`.
pub open spec fn reads<R, F: Fn(&R) -> Step>(transform: F, records: Seq<R>, trace: Seq<Step>) -> bool {
    &&& stops_at_first_failure(trace, records.len())
    &&& forall|i: int|
        0 <= i < trace.len() ==> call_ensures(transform, (&records[i],), #[trigger] trace[i])
}

/// An executable result agrees with a result over the model.
pub open spec fn agrees(r: Result<Stats, CodecError>, m: Result<StatsView, CodecError>) -> bool {
    match r {
        Ok(s) => m == Ok::<StatsView, CodecError>(s@) && s.wf(),
        Err(e) => m == Err::<StatsView, CodecError>(e),
    }
}

/// Whether a worker publishes progress at the record with this index in
/// its chunk: at the first record of every batch.
pub open spec fn spec_publishes_progress(index: usize) -> bool {
    index as int % (PROGRESS_BATCH as int) == 0
}

/// Tells whether a worker publishes progress at this record of its chunk.
#[verifier::when_used_as_spec(spec_publishes_progress)]
pub fn publishes_progress(index: usize) -> (b: bool)
    ensures
        b == spec_publishes_progress(index),
{
    index % 1024 == 0
}

/// Scans the records `start..end` of a dataset in ascending order. Each
/// record is handed to `transform`; what it returns is added to a tally that
/// starts empty. The scan stops at the first record that fails and returns
/// its error. `progress` is called with the batch size at the first record
/// of every batch.
pub fn scan_range<R, F, G>(
    records: &[R],
    start: usize,
    end: usize,
    transform: &F,
    progress: &G,
) -> (r: Result<Stats, CodecError>) where F: Fn(&R) -> Step, G: Fn(u64)
    requires
        start <= end <= records.len(),
        end - start <= MAX_POSITIONS,
        forall|x: &R| call_requires(transform, (x,)),
        forall|n: u64| call_requires(progress, (n,)),
    ensures
        exists|trace: Seq<Step>|
            reads(*transform, records@.subrange(start as int, end as int), trace) && agrees(
                r,
                #[trigger] chunk_result(trace),
            ),
{
    let mut acc = Stats::new();
    let ghost chunk = records@.subrange(start as int, end as int);
    let ghost mut trace: Seq<Step> = Seq::empty();
    let mut i: usize = start;
    proof {
        assert(observed(trace) =~= Seq::<ObservationView>::empty());
    }
    while i < end
        invariant
            start <= i <= end <= records.len(),
            end - start <= MAX_POSITIONS,
            chunk == records@.subrange(start as int, end as int),
            forall|x: &R| call_requires(transform, (x,)),
            forall|n: u64| call_requires(progress, (n,)),
            trace.len() == i - start,
            forall|k: int| 0 <= k < trace.len() ==> (#[trigger] trace[k]) is Ok,
            forall|k: int|
                0 <= k < trace.len() ==> call_ensures(*transform, (&chunk[k],), #[trigger] trace[k]),
            acc.wf(),
            acc@ == tally(observed(trace)),
            acc@.positions == i - start,
        decreases end - i,
    {
        if publishes_progress(i - start) {
            progress(PROGRESS_BATCH);
        }
        let step = transform(&records[i]);
        proof {
            assert(chunk[i - start] == records[i as int]);
        }
        let ghost before = trace;
        proof {
            trace = trace.push(step);
        }
        match step {
            Ok(o) => {
                acc.record(&o);
                proof {
                    assert(observed(trace).drop_last() =~= observed(before));
                    assert(observed(trace).last() == o@);
                }
            },
            Err(e) => {
                proof {
                    assert(reads(*transform, chunk, trace));
                    assert(agrees(Err(e), chunk_result(trace)));
                }
                return Err(e);
            },
        }
        i += 1;
    }
    proof {
        assert(reads(*transform, chunk, trace));
        assert(agrees(Ok(acc), chunk_result(trace)));
    }
    Ok(acc)
}

/// Scans a whole chunk: `scan_range` over all of its records.
pub fn scan_chunk<R, F, G>(chunk: &[R], transform: &F, progress: &G) -> (r: Result<
    Stats,
    CodecError,
>) where F: Fn(&R) -> Step, G: Fn(u64)
    requires
        chunk.len() <= MAX_POSITIONS,
        forall|x: &R| call_requires(transform, (x,)),
        forall|n: u64| call_requires(progress, (n,)),
    ensures
        exists|trace: Seq<Step>|
            reads(*transform, chunk@, trace) && agrees(r, #[trigger] chunk_result(trace)),
{
    let r = scan_range(chunk, 0, chunk.len(), transform, progress);
    proof {
        assert(chunk@.subrange(0, chunk.len() as int) =~= chunk@);
    }
    r
}

/// The result of a scan, given the results of its chunks in the order of
/// the chunks: the error of the first chunk that failed, or the merge of all
/// the tallies.
pub open spec fn fold_results(results: Seq<Result<StatsView, CodecError>>) -> Result<
    StatsView,
    CodecError,
>
    decreases results.len(),
{
    if results.len() == 0 {
        Ok(StatsView::zero())
    } else {
        match fold_results(results.drop_last()) {
            Err(e) => Err(e),
            Ok(acc) => match results.last() {
                Err(e) => Err(e),
                Ok(s) => Ok(acc.merge(s)),
            },
        }
    }
}

/// The records that all the tallies among the results hold together.
pub open spec fn positions_sum(results: Seq<Result<StatsView, CodecError>>) -> nat
    decreases results.len(),
{
    if results.len() == 0 {
        0
    } else {
        positions_sum(results.drop_last()) + match results.last() {
            Ok(s) => s.positions,
            Err(_) => 0,
        }
    }
}

/// The results of the workers over the model.
pub open spec fn result_views(results: Seq<Result<Stats, CodecError>>) -> Seq<
    Result<StatsView, CodecError>,
> {
    Seq::new(
        results.len(),
        |i: int|
            match results[i] {
                Ok(s) => Ok::<StatsView, CodecError>(s@),
                Err(e) => Err::<StatsView, CodecError>(e),
            },
    )
}

/// The chunk results of the traces of a scan, chunk by chunk.
pub open spec fn chunk_results(traces: Seq<Seq<Step>>) -> Seq<Result<StatsView, CodecError>> {
    Seq::new(traces.len(), |c: int| chunk_result(traces[c]))
}

/// The records of chunk `index` of a dataset cut for `workers` workers.
pub open spec fn chunk_records<R>(records: Seq<R>, workers: nat, index: nat) -> Seq<R> {
    records.subrange(
        spec_chunk_start(records.len(), workers, index) as int,
        spec_chunk_end(records.len(), workers, index) as int,
    )
}

/// The result of a whole scan agrees with a result over the model; a scan
/// that ran was not refused.
pub open spec fn outcome_agrees(r: Result<Stats, ScanError>, m: Result<StatsView, CodecError>) -> bool {
    match r {
        Ok(s) => m == Ok::<StatsView, CodecError>(s@) && s.wf(),
        Err(ScanError::Codec(e)) => m == Err::<StatsView, CodecError>(e),
        Err(ScanError::Config(_)) => false,
    }
}

proof fn lemma_positions_sum_prefix(results: Seq<Result<StatsView, CodecError>>, n: int)
    requires
        0 <= n <= results.len(),
    ensures
        positions_sum(results.take(n)) <= positions_sum(results),
    decreases results.len(),
{
    if n == results.len() {
        assert(results.take(n) =~= results);
    } else {
        assert(results.drop_last().take(n) =~= results.take(n));
        lemma_positions_sum_prefix(results.drop_last(), n);
    }
}

/// Of several failing chunks the first decides: where chunk `c` failed and
/// no chunk before it did, the scan fails with the error of chunk `c`,
/// whatever the later chunks yield.
pub proof fn lemma_fold_first_error(results: Seq<Result<StatsView, CodecError>>, c: int)
    requires
        0 <= c < results.len(),
        results[c] is Err,
        forall|k: int| 0 <= k < c ==> (#[trigger] results[k]) is Ok,
    ensures
        fold_results(results) == Err::<StatsView, CodecError>(results[c]->Err_0),
{
    lemma_fold_prefix_ok(results.take(c));
    assert(results.take(c + 1).drop_last() =~= results.take(c));
    assert(results.take(c + 1).last() == results[c]);
    lemma_fold_error_sticks(results, c + 1);
}

/// A scan of which no chunk failed does not fail.
proof fn lemma_fold_prefix_ok(results: Seq<Result<StatsView, CodecError>>)
    requires
        forall|k: int| 0 <= k < results.len() ==> (#[trigger] results[k]) is Ok,
    ensures
        fold_results(results) is Ok,
    decreases results.len(),
{
    if results.len() > 0 {
        assert forall|k: int| 0 <= k < results.drop_last().len() implies (
        #[trigger] results.drop_last()[k]) is Ok by {
            assert(results.drop_last()[k] == results[k]);
        }
        lemma_fold_prefix_ok(results.drop_last());
    }
}

/// The tallies of the parts of a run of records, as the results of
/// workers that did not fail.
pub open spec fn part_results(parts: Seq<Seq<ObservationView>>) -> Seq<Result<StatsView, CodecError>> {
    Seq::new(parts.len(), |j: int| Ok::<StatsView, CodecError>(tally(parts[j])))
}

/// Folding the tallies of parts merges them, from the first to the last.
proof fn lemma_fold_parts(parts: Seq<Seq<ObservationView>>)
    ensures
        fold_results(part_results(parts)) == Ok::<StatsView, CodecError>(
            crate::stats::merge_parts(parts),
        ),
    decreases parts.len(),
{
    if parts.len() > 0 {
        lemma_fold_parts(parts.drop_last());
        assert(part_results(parts).drop_last() =~= part_results(parts.drop_last()));
        assert(part_results(parts).last() == Ok::<StatsView, CodecError>(tally(parts.last())));
    }
}

/// The fold of the workers' results does not depend on how the records
/// were cut nor on the order of the workers: however a run of records is
/// cut into parts, and in whatever order the tallies of the parts are
/// folded, the result is the tally of the whole run in a single pass.
/// `order` holds the parts in the order of the fold: the same parts, each
/// as often as among `parts`.
pub proof fn lemma_fold_any_order(
    parts: Seq<Seq<ObservationView>>,
    order: Seq<Seq<ObservationView>>,
)
    requires
        order.to_multiset() == parts.to_multiset(),
    ensures
        fold_results(part_results(order)) == Ok::<StatsView, CodecError>(tally(join(parts))),
{
    lemma_fold_parts(order);
    crate::stats::lemma_merge_any_order(parts, order);
}

/// Chunks without records, added at the end, leave the result of a scan as
/// it is.
pub proof fn lemma_fold_empty_chunks(results: Seq<Result<StatsView, CodecError>>, n: nat)
    requires
        fold_results(results) matches Ok(s) ==> s.shaped(),
    ensures
        fold_results(results + Seq::new(n, |i: int| Ok::<StatsView, CodecError>(StatsView::zero())))
            == fold_results(results),
    decreases n,
{
    let pad = Seq::new(n, |i: int| Ok::<StatsView, CodecError>(StatsView::zero()));
    if n == 0 {
        assert(results + pad =~= results);
    } else {
        let less = Seq::new((n - 1) as nat, |i: int| Ok::<StatsView, CodecError>(StatsView::zero()));
        lemma_fold_empty_chunks(results, (n - 1) as nat);
        assert((results + pad).drop_last() =~= results + less);
        assert((results + pad).last() == Ok::<StatsView, CodecError>(StatsView::zero()));
        if let Ok(s) = fold_results(results) {
            crate::stats::lemma_merge_zero(s);
        }
    }
}

/// Where no chunk failed, the result of a scan is the tally of all the
/// observations in the order of the records: the single pass over the
/// dataset.
pub proof fn lemma_fold_is_single_pass(traces: Seq<Seq<Step>>)
    requires
        forall|c: int| 0 <= c < traces.len() ==> chunk_result(#[trigger] traces[c]) is Ok,
    ensures
        fold_results(chunk_results(traces)) == Ok::<StatsView, CodecError>(
            tally(observed(join(traces))),
        ),
    decreases traces.len(),
{
    let parts = Seq::new(traces.len(), |c: int| observed(traces[c]));
    crate::stats::lemma_tally_partition(parts);
    lemma_fold_merges(traces);
    lemma_join_observed(traces);
}

/// The observations of joined traces are the joined observations of the
/// traces.
proof fn lemma_join_observed(traces: Seq<Seq<Step>>)
    ensures
        observed(join(traces)) == join(Seq::new(traces.len(), |c: int| observed(traces[c]))),
    decreases traces.len(),
{
    let parts = Seq::new(traces.len(), |c: int| observed(traces[c]));
    if traces.len() == 0 {
        assert(observed(join(traces)) =~= join(parts));
    } else {
        let head = traces.drop_last();
        lemma_join_observed(head);
        assert(parts.drop_last() =~= Seq::new(head.len(), |c: int| observed(head[c])));
        assert(observed(join(traces)) =~= observed(join(head)) + observed(traces.last()));
    }
}

/// Where every chunk of a partition was scanned to its end, the joined
/// traces hold one step per record of the dataset, the step of record `j`
/// of chunk `c` at the place of that record in the dataset.
pub proof fn lemma_join_chunks<T>(len: nat, workers: nat, traces: Seq<Seq<T>>, upto: nat)
    requires
        workers > 0,
        upto <= traces.len(),
        forall|c: int|
            0 <= c < upto ==> (#[trigger] traces[c]).len() == spec_chunk_end(len, workers, c as nat)
                - spec_chunk_start(len, workers, c as nat),
    ensures
        join(traces.take(upto as int)).len() == spec_chunk_start(len, workers, upto),
        forall|c: int, j: int|
            0 <= c < upto && 0 <= j < traces[c].len() ==> join(traces.take(upto as int))[spec_chunk_start(
                len,
                workers,
                c as nat,
            ) + j] == #[trigger] traces[c][j],
    decreases upto,
{
    let taken = traces.take(upto as int);
    if upto == 0 {
        lemma_chunks_contiguous(len, workers, 0);
    } else {
        let less = (upto - 1) as nat;
        lemma_join_chunks(len, workers, traces, less);
        lemma_chunks_contiguous(len, workers, less);
        assert(taken.drop_last() =~= traces.take(less as int));
        assert(taken.last() == traces[less as int]);
        assert forall|c: int, j: int| 0 <= c < upto && 0 <= j < traces[c].len() implies join(
            taken,
        )[spec_chunk_start(len, workers, c as nat) + j] == #[trigger] traces[c][j] by {
            if c < less {
                lemma_chunks_contiguous(len, workers, c as nat);
                lemma_start_grows(len, workers, (c + 1) as nat, less);
                assert(join(traces.take(less as int))[spec_chunk_start(len, workers, c as nat) + j]
                    == traces[c][j]);
            }
        }
    }
}

proof fn lemma_fold_merges(traces: Seq<Seq<Step>>)
    requires
        forall|c: int| 0 <= c < traces.len() ==> chunk_result(#[trigger] traces[c]) is Ok,
    ensures
        fold_results(chunk_results(traces)) == Ok::<StatsView, CodecError>(
            crate::stats::merge_parts(Seq::new(traces.len(), |c: int| observed(traces[c]))),
        ),
    decreases traces.len(),
{
    let parts = Seq::new(traces.len(), |c: int| observed(traces[c]));
    if traces.len() > 0 {
        let head = traces.drop_last();
        assert forall|c: int| 0 <= c < head.len() implies chunk_result(#[trigger] head[c]) is Ok by {
            assert(head[c] == traces[c]);
        }
        lemma_fold_merges(head);
        assert(chunk_results(traces).drop_last() =~= chunk_results(head));
        assert(parts.drop_last() =~= Seq::new(head.len(), |c: int| observed(head[c])));
        assert(chunk_result(traces[traces.len() - 1]) is Ok);
    }
}

/// Folds the results of the workers, given in the order of their chunks,
/// into the result of the scan: the error of the first worker that failed,
/// or the merge of all the tallies.
pub fn merge_results(results: &Vec<Result<Stats, CodecError>>) -> (r: Result<Stats, CodecError>)
    requires
        forall|i: int| 0 <= i < results.len() ==> ((#[trigger] results[i]) matches Ok(s) ==> s.wf()),
        positions_sum(result_views(results@)) <= MAX_POSITIONS,
    ensures
        agrees(r, fold_results(result_views(results@))),
{
    let mut acc = Stats::new();
    let ghost views = result_views(results@);
    let mut i: usize = 0;
    proof {
        assert(views.take(0) =~= Seq::empty());
    }
    while i < results.len()
        invariant
            0 <= i <= results.len(),
            views == result_views(results@),
            forall|k: int| 0 <= k < results.len() ==> ((#[trigger] results[k]) matches Ok(s) ==> s.wf()),
            positions_sum(views) <= MAX_POSITIONS,
            acc.wf(),
            fold_results(views.take(i as int)) == Ok::<StatsView, CodecError>(acc@),
            acc@.positions == positions_sum(views.take(i as int)),
        decreases results.len() - i,
    {
        proof {
            assert(views.take(i + 1).drop_last() =~= views.take(i as int));
            assert(views.take(i + 1).last() == views[i as int]);
            lemma_positions_sum_prefix(views, i + 1);
        }
        match &results[i] {
            Ok(s) => {
                acc.merge(s);
            },
            Err(e) => {
                proof {
                    lemma_fold_error_sticks(views, i + 1);
                }
                return Err(*e);
            },
        }
        i += 1;
    }
    proof {
        assert(views.take(i as int) =~= views);
    }
    Ok(acc)
}

proof fn lemma_fold_error_sticks(results: Seq<Result<StatsView, CodecError>>, n: int)
    requires
        0 <= n <= results.len(),
        fold_results(results.take(n)) is Err,
    ensures
        fold_results(results) == fold_results(results.take(n)),
    decreases results.len(),
{
    if n == results.len() {
        assert(results.take(n) =~= results);
    } else {
        assert(results.drop_last().take(n) =~= results.take(n));
        lemma_fold_error_sticks(results.drop_last(), n);
    }
}

/// Runs `transform` over a dataset cut into one chunk per worker and folds
/// the chunks' results. Every chunk is scanned, whether or not an earlier
/// one failed; the chunks are taken in ascending order, one after the other.
/// A scan on no worker is refused.
pub fn run<R, F, G>(dataset: &[R], workers: usize, transform: &F, progress: &G) -> (r: Result<
    Stats,
    ScanError,
>) where F: Fn(&R) -> Step, G: Fn(u64)
    requires
        dataset.len() <= MAX_POSITIONS,
        forall|x: &R| call_requires(transform, (x,)),
        forall|n: u64| call_requires(progress, (n,)),
    ensures
        workers == 0 <==> r == Err::<Stats, ScanError>(ScanError::Config(ConfigError::NoWorkers)),
        workers > 0 ==> exists|traces: Seq<Seq<Step>>|
            traces.len() == workers && (forall|c: int|
                0 <= c < workers ==> reads(
                    *transform,
                    chunk_records(dataset@, workers as nat, c as nat),
                    #[trigger] traces[c],
                )) && outcome_agrees(r, #[trigger] fold_results(chunk_results(traces))),
{
    if workers == 0 {
        return Err(ScanError::Config(ConfigError::NoWorkers));
    }
    let len = dataset.len();
    let mut acc = Stats::new();
    let mut failure: Option<CodecError> = None;
    let ghost mut traces: Seq<Seq<Step>> = Seq::empty();
    let mut c: usize = 0;
    let mut start: usize = 0;
    proof {
        lemma_chunks_contiguous(len as nat, workers as nat, 0);
        assert(chunk_results(traces) =~= Seq::empty());
    }
    while c < workers && start < len
        invariant
            0 <= c <= workers,
            len == dataset.len(),
            len <= MAX_POSITIONS,
            start <= len,
            start == spec_chunk_start(len as nat, workers as nat, c as nat),
            forall|x: &R| call_requires(transform, (x,)),
            forall|n: u64| call_requires(progress, (n,)),
            traces.len() == c,
            forall|k: int|
                0 <= k < c ==> reads(
                    *transform,
                    chunk_records(dataset@, workers as nat, k as nat),
                    #[trigger] traces[k],
                ),
            acc.wf(),
            failure is None ==> fold_results(chunk_results(traces)) == Ok::<StatsView, CodecError>(
                acc@,
            ) && acc@.positions == start,
            failure matches Some(e) ==> fold_results(chunk_results(traces)) == Err::<
                StatsView,
                CodecError,
            >(e),
        decreases workers - c,
    {
        let (from, end) = chunk_bounds(len, workers, c);
        proof {
            lemma_chunks_contiguous(len as nat, workers as nat, c as nat);
        }
        let result = scan_range(dataset, from, end, transform, progress);
        let ghost trace = choose|trace: Seq<Step>|
            reads(*transform, dataset@.subrange(from as int, end as int), trace) && agrees(
                result,
                #[trigger] chunk_result(trace),
            );
        let ghost before = traces;
        proof {
            traces = traces.push(trace);
            assert(chunk_results(traces).drop_last() =~= chunk_results(before));
            assert(chunk_results(traces).last() == chunk_result(trace));
            assert forall|k: int| 0 <= k < c + 1 implies reads(
                *transform,
                chunk_records(dataset@, workers as nat, k as nat),
                #[trigger] traces[k],
            ) by {
                if k < c {
                    assert(traces[k] == before[k]);
                }
            }
        }
        match result {
            Ok(s) => {
                proof {
                    lemma_tally_shaped(observed(trace));
                }
                if failure.is_none() {
                    acc.add_assign(s);
                }
            },
            Err(e) => {
                if failure.is_none() {
                    failure = Some(e);
                }
            },
        }
        start = end;
        c += 1;
    }
    proof {
        let rest = (workers - c) as nat;
        let idle = Seq::new(rest, |i: int| Seq::<Step>::empty());
        let all = traces + idle;
        let pad = Seq::new(rest, |i: int| Ok::<StatsView, CodecError>(StatsView::zero()));
        assert(observed(Seq::<Step>::empty()) =~= Seq::<ObservationView>::empty());
        assert(chunk_results(all) =~= chunk_results(traces) + pad);
        lemma_fold_empty_chunks(chunk_results(traces), rest);
        assert forall|k: int| 0 <= k < workers implies reads(
            *transform,
            chunk_records(dataset@, workers as nat, k as nat),
            #[trigger] all[k],
        ) by {
            if k >= c {
                lemma_chunks_contiguous(len as nat, workers as nat, k as nat);
                lemma_start_stays(len as nat, workers as nat, c as nat, k as nat);
                lemma_start_stays(len as nat, workers as nat, c as nat, (k + 1) as nat);
            } else {
                assert(all[k] == traces[k]);
            }
        }
        assert(all.len() == workers);
    }
    match failure {
        Some(e) => Err(ScanError::Codec(e)),
        None => Ok(acc),
    }
}

/// Once a chunk starts at the end of the dataset, every later chunk does.
proof fn lemma_start_stays(len: nat, workers: nat, c: nat, k: nat)
    requires
        workers > 0,
        c <= k,
        spec_chunk_start(len, workers, c) == len,
    ensures
        spec_chunk_start(len, workers, k) == len,
{
    let s = crate::partition::spec_chunk_size(len, workers) as int;
    assert(c * s <= k * s) by (nonlinear_arith)
        requires
            c <= k,
            s >= 0,
    ;
}

/// What a transform that may rewrite returned for one record: what the
/// record contributes, and the record's new value where it is to change.
pub type Rewrite<R> = Result<(Observation, Option<R>), CodecError>;

/// The steps of a trace of rewrites, without the new values.
pub open spec fn steps_of<R>(trace: Seq<Rewrite<R>>) -> Seq<Step> {
    Seq::new(
        trace.len(),
        |i: int|
            match trace[i] {
                Ok((o, _)) => Ok::<Observation, CodecError>(o),
                Err(e) => Err::<Observation, CodecError>(e),
            },
    )
}

/// The records of a chunk after the rewrites of a trace: record `i` holds
/// the new value that step `i` returned, if it returned one, and is as it
/// was otherwise.
pub open spec fn applied<R>(before: Seq<R>, trace: Seq<Rewrite<R>>) -> Seq<R> {
    Seq::new(
        before.len(),
        |i: int|
            if i < trace.len() {
                match trace[i] {
                    Ok((_, Some(new))) => new,
                    _ => before[i],
                }
            } else {
                before[i]
            },
    )
}

/// `trace` is a trace of `transform` over the records of a chunk that may
/// be rewritten: step `i` is a result of the transform on record `i` as it
/// was before the scan.
pub open spec fn rewrites<R, F: Fn(&R) -> Rewrite<R>>(
    transform: F,
    before: Seq<R>,
    trace: Seq<Rewrite<R>>,
) -> bool {
    &&& stops_at_first_failure(steps_of(trace), before.len())
    &&& forall|i: int|
        0 <= i < trace.len() ==> call_ensures(transform, (&before[i],), #[trigger] trace[i])
}

/// Scans the records `start..end` of a dataset in ascending order and
/// writes back each new value that `transform` returns. No record outside
/// the range changes, none past the first failing record, and none for
/// which the transform returned no new value. Tally, error and progress are
/// those of `scan_range`.
pub fn scan_range_mut<R, F, G>(
    records: &mut [R],
    start: usize,
    end: usize,
    transform: &F,
    progress: &G,
) -> (r: Result<Stats, CodecError>) where F: Fn(&R) -> Rewrite<R>, G: Fn(u64)
    requires
        start <= end <= old(records).len(),
        end - start <= MAX_POSITIONS,
        forall|x: &R| call_requires(transform, (x,)),
        forall|n: u64| call_requires(progress, (n,)),
    ensures
        final(records)@.len() == old(records)@.len(),
        forall|k: int|
            0 <= k < start || end <= k < old(records)@.len() ==> #[trigger] final(records)@[k]
                == old(records)@[k],
        exists|trace: Seq<Rewrite<R>>|
            rewrites(*transform, old(records)@.subrange(start as int, end as int), trace)
                && final(records)@.subrange(start as int, end as int) == applied(
                old(records)@.subrange(start as int, end as int),
                trace,
            ) && agrees(r, #[trigger] chunk_result(steps_of(trace))),
{
    let mut acc = Stats::new();
    let ghost chunk = records@.subrange(start as int, end as int);
    let ghost mut trace: Seq<Rewrite<R>> = Seq::empty();
    let mut i: usize = start;
    proof {
        assert(observed(steps_of(trace)) =~= Seq::<ObservationView>::empty());
    }
    while i < end
        invariant
            start <= i <= end <= records.len(),
            records@.len() == old(records)@.len(),
            chunk == old(records)@.subrange(start as int, end as int),
            end - start <= MAX_POSITIONS,
            forall|x: &R| call_requires(transform, (x,)),
            forall|n: u64| call_requires(progress, (n,)),
            trace.len() == i - start,
            forall|k: int| 0 <= k < trace.len() ==> (#[trigger] trace[k]) is Ok,
            forall|k: int|
                0 <= k < trace.len() ==> call_ensures(*transform, (&chunk[k],), #[trigger] trace[k]),
            forall|k: int|
                0 <= k < start || i <= k < records@.len() ==> #[trigger] records@[k] == old(
                    records,
                )@[k],
            forall|k: int| start <= k < i ==> #[trigger] records@[k] == applied(chunk, trace)[k - start],
            acc.wf(),
            acc@ == tally(observed(steps_of(trace))),
            acc@.positions == i - start,
        decreases end - i,
    {
        if publishes_progress(i - start) {
            progress(PROGRESS_BATCH);
        }
        let step = transform(&records[i]);
        let ghost before = trace;
        proof {
            assert(chunk[i - start] == records@[i as int]);
            trace = trace.push(step);
            assert forall|k: int| start <= k < i implies #[trigger] records@[k] == applied(
                chunk,
                trace,
            )[k - start] by {
                assert(trace[k - start] == before[k - start]);
                assert(records@[k] == applied(chunk, before)[k - start]);
            }
        }
        match step {
            Ok((o, new)) => {
                acc.record(&o);
                if let Some(value) = new {
                    records[i] = value;
                }
                proof {
                    assert(steps_of(trace).drop_last() =~= steps_of(before));
                    assert(observed(steps_of(trace)).drop_last() =~= observed(steps_of(before)));
                    assert(observed(steps_of(trace)).last() == o@);
                    assert(records@[i as int] == applied(chunk, trace)[i - start]);
                }
            },
            Err(e) => {
                proof {
                    assert(steps_of(trace).last() == Err::<Observation, CodecError>(e));
                    assert(rewrites(*transform, chunk, trace));
                    assert(records@.subrange(start as int, end as int) =~= applied(chunk, trace));
                    assert(agrees(Err(e), chunk_result(steps_of(trace))));
                }
                return Err(e);
            },
        }
        i += 1;
    }
    proof {
        assert(rewrites(*transform, chunk, trace));
        assert(records@.subrange(start as int, end as int) =~= applied(chunk, trace));
        assert(agrees(Ok(acc), chunk_result(steps_of(trace))));
    }
    Ok(acc)
}

/// Scans a whole chunk with rewriting: `scan_range_mut` over all of its
/// records.
pub fn scan_chunk_mut<R, F, G>(chunk: &mut [R], transform: &F, progress: &G) -> (r: Result<
    Stats,
    CodecError,
>) where F: Fn(&R) -> Rewrite<R>, G: Fn(u64)
    requires
        old(chunk).len() <= MAX_POSITIONS,
        forall|x: &R| call_requires(transform, (x,)),
        forall|n: u64| call_requires(progress, (n,)),
    ensures
        exists|trace: Seq<Rewrite<R>>|
            rewrites(*transform, old(chunk)@, trace) && final(chunk)@ == applied(
                old(chunk)@,
                trace,
            ) && agrees(r, #[trigger] chunk_result(steps_of(trace))),
{
    let n = chunk.len();
    let r = scan_range_mut(chunk, 0, n, transform, progress);
    proof {
        assert(old(chunk)@.subrange(0, n as int) =~= old(chunk)@);
        assert(chunk@.subrange(0, n as int) =~= chunk@);
    }
    r
}

/// The traces of a rewriting scan without the new values, chunk by chunk.
pub open spec fn step_traces<R>(traces: Seq<Seq<Rewrite<R>>>) -> Seq<Seq<Step>> {
    Seq::new(traces.len(), |c: int| steps_of(traces[c]))
}

/// Runs a rewriting `transform` over a dataset cut into one chunk per
/// worker, writes back the new values and folds the chunks' results. Every
/// chunk is scanned, whether or not an earlier one failed; within a chunk no
/// record past the first failing one is touched. A scan on no worker is
/// refused and leaves the dataset as it is.
pub fn run_mut<R, F, G>(dataset: &mut [R], workers: usize, transform: &F, progress: &G) -> (r:
    Result<Stats, ScanError>) where F: Fn(&R) -> Rewrite<R>, G: Fn(u64)
    requires
        old(dataset).len() <= MAX_POSITIONS,
        forall|x: &R| call_requires(transform, (x,)),
        forall|n: u64| call_requires(progress, (n,)),
    ensures
        final(dataset)@.len() == old(dataset)@.len(),
        workers == 0 <==> r == Err::<Stats, ScanError>(ScanError::Config(ConfigError::NoWorkers)),
        workers == 0 ==> final(dataset)@ == old(dataset)@,
        workers > 0 ==> exists|traces: Seq<Seq<Rewrite<R>>>|
            traces.len() == workers && (forall|c: int|
                0 <= c < workers ==> rewrites(
                    *transform,
                    chunk_records(old(dataset)@, workers as nat, c as nat),
                    #[trigger] traces[c],
                ) && chunk_records(final(dataset)@, workers as nat, c as nat) == applied(
                    chunk_records(old(dataset)@, workers as nat, c as nat),
                    traces[c],
                )) && outcome_agrees(r, #[trigger] fold_results(chunk_results(step_traces(traces)))),
{
    if workers == 0 {
        return Err(ScanError::Config(ConfigError::NoWorkers));
    }
    let len = dataset.len();
    let mut acc = Stats::new();
    let mut failure: Option<CodecError> = None;
    let ghost mut traces: Seq<Seq<Rewrite<R>>> = Seq::empty();
    let mut c: usize = 0;
    let mut start: usize = 0;
    proof {
        lemma_chunks_contiguous(len as nat, workers as nat, 0);
        assert(chunk_results(step_traces(traces)) =~= Seq::empty());
    }
    while c < workers && start < len
        invariant
            0 <= c <= workers,
            len == dataset.len(),
            len == old(dataset).len(),
            len <= MAX_POSITIONS,
            start <= len,
            start == spec_chunk_start(len as nat, workers as nat, c as nat),
            forall|x: &R| call_requires(transform, (x,)),
            forall|n: u64| call_requires(progress, (n,)),
            traces.len() == c,
            forall|k: int|
                0 <= k < c ==> rewrites(
                    *transform,
                    chunk_records(old(dataset)@, workers as nat, k as nat),
                    #[trigger] traces[k],
                ) && chunk_records(dataset@, workers as nat, k as nat) == applied(
                    chunk_records(old(dataset)@, workers as nat, k as nat),
                    traces[k],
                ),
            forall|k: int| start <= k < len ==> #[trigger] dataset@[k] == old(dataset)@[k],
            acc.wf(),
            failure is None ==> fold_results(chunk_results(step_traces(traces))) == Ok::<
                StatsView,
                CodecError,
            >(acc@) && acc@.positions == start,
            failure matches Some(e) ==> fold_results(chunk_results(step_traces(traces))) == Err::<
                StatsView,
                CodecError,
            >(e),
        decreases workers - c,
    {
        let (from, end) = chunk_bounds(len, workers, c);
        proof {
            lemma_chunks_contiguous(len as nat, workers as nat, c as nat);
        }
        let ghost prior = dataset@;
        let result = scan_range_mut(dataset, from, end, transform, progress);
        let ghost trace = choose|trace: Seq<Rewrite<R>>|
            rewrites(*transform, prior.subrange(from as int, end as int), trace)
                && dataset@.subrange(from as int, end as int) == applied(
                prior.subrange(from as int, end as int),
                trace,
            ) && agrees(result, #[trigger] chunk_result(steps_of(trace)));
        let ghost before = traces;
        proof {
            traces = traces.push(trace);
            assert(step_traces(traces).drop_last() =~= step_traces(before));
            assert(chunk_results(step_traces(traces)).drop_last() =~= chunk_results(
                step_traces(before),
            ));
            assert(chunk_results(step_traces(traces)).last() == chunk_result(steps_of(trace)));
            assert(prior.subrange(from as int, end as int) =~= old(dataset)@.subrange(
                from as int,
                end as int,
            ));
            assert forall|k: int| 0 <= k < c + 1 implies rewrites(
                *transform,
                chunk_records(old(dataset)@, workers as nat, k as nat),
                #[trigger] traces[k],
            ) && chunk_records(dataset@, workers as nat, k as nat) == applied(
                chunk_records(old(dataset)@, workers as nat, k as nat),
                traces[k],
            ) by {
                if k < c {
                    assert(traces[k] == before[k]);
                    lemma_chunks_contiguous(len as nat, workers as nat, k as nat);
                    lemma_start_grows(len as nat, workers as nat, (k + 1) as nat, c as nat);
                    assert(chunk_records(dataset@, workers as nat, k as nat) =~= chunk_records(
                        prior,
                        workers as nat,
                        k as nat,
                    ));
                }
            }
        }
        match result {
            Ok(s) => {
                proof {
                    lemma_tally_shaped(observed(steps_of(trace)));
                }
                if failure.is_none() {
                    acc.add_assign(s);
                }
            },
            Err(e) => {
                if failure.is_none() {
                    failure = Some(e);
                }
            },
        }
        start = end;
        c += 1;
    }
    proof {
        let rest = (workers - c) as nat;
        let idle = Seq::new(rest, |i: int| Seq::<Rewrite<R>>::empty());
        let all = traces + idle;
        let pad = Seq::new(rest, |i: int| Ok::<StatsView, CodecError>(StatsView::zero()));
        assert(steps_of(Seq::<Rewrite<R>>::empty()) =~= Seq::<Step>::empty());
        assert(observed(Seq::<Step>::empty()) =~= Seq::<ObservationView>::empty());
        assert(chunk_results(step_traces(all)) =~= chunk_results(step_traces(traces)) + pad);
        lemma_fold_empty_chunks(chunk_results(step_traces(traces)), rest);
        assert forall|k: int| 0 <= k < workers implies rewrites(
            *transform,
            chunk_records(old(dataset)@, workers as nat, k as nat),
            #[trigger] all[k],
        ) && chunk_records(dataset@, workers as nat, k as nat) == applied(
            chunk_records(old(dataset)@, workers as nat, k as nat),
            all[k],
        ) by {
            if k >= c {
                lemma_chunks_contiguous(len as nat, workers as nat, k as nat);
                lemma_start_stays(len as nat, workers as nat, c as nat, k as nat);
                lemma_start_stays(len as nat, workers as nat, c as nat, (k + 1) as nat);
                assert(chunk_records(dataset@, workers as nat, k as nat) =~= applied(
                    chunk_records(old(dataset)@, workers as nat, k as nat),
                    all[k],
                ));
            } else {
                assert(all[k] == traces[k]);
            }
        }
        assert(all.len() == workers);
    }
    match failure {
        Some(e) => Err(ScanError::Codec(e)),
        None => Ok(acc),
    }
}

/// A later chunk does not start before an earlier one.
proof fn lemma_start_grows(len: nat, workers: nat, c: nat, k: nat)
    requires
        workers > 0,
        c <= k,
    ensures
        spec_chunk_start(len, workers, c) <= spec_chunk_start(len, workers, k),
{
    let s = crate::partition::spec_chunk_size(len, workers) as int;
    assert(c * s <= k * s) by (nonlinear_arith)
        requires
            c <= k,
            s >= 0,
    ;
}

/// A scan in which no step failed is a single pass: the joined traces hold
/// one successful step per record, each a result of the transform on its
/// record, and the result of the scan is the tally of them all, whatever
/// the number of workers.
pub proof fn lemma_complete_scan<R, F: Fn(&R) -> Step>(
    transform: F,
    records: Seq<R>,
    workers: nat,
    traces: Seq<Seq<Step>>,
)
    requires
        workers > 0,
        traces.len() == workers,
        forall|c: int|
            0 <= c < workers ==> reads(
                transform,
                chunk_records(records, workers, c as nat),
                #[trigger] traces[c],
            ),
        forall|c: int, j: int|
            0 <= c < workers && 0 <= j < traces[c].len() ==> (#[trigger] traces[c][j]) is Ok,
    ensures
        join(traces).len() == records.len(),
        forall|i: int|
            0 <= i < records.len() ==> call_ensures(transform, (&records[i],), #[trigger] join(traces)[i])
                && join(traces)[i] is Ok,
        fold_results(chunk_results(traces)) == Ok::<StatsView, CodecError>(
            tally(observed(join(traces))),
        ),
{
    let len = records.len();
    assert forall|c: int| 0 <= c < workers implies (#[trigger] traces[c]).len() == spec_chunk_end(
        len,
        workers,
        c as nat,
    ) - spec_chunk_start(len, workers, c as nat) && chunk_result(traces[c]) is Ok by {
        lemma_chunks_contiguous(len, workers, c as nat);
        let t = traces[c];
        assert(reads(transform, chunk_records(records, workers, c as nat), t));
        if t.len() > 0 {
            assert(t[t.len() - 1] is Ok);
        }
    }
    lemma_join_chunks(len, workers, traces, workers);
    assert(traces.take(workers as int) =~= traces);
    lemma_chunks_contiguous(len, workers, workers);
    lemma_fold_is_single_pass(traces);
    assert forall|i: int| 0 <= i < records.len() implies call_ensures(
        transform,
        (&records[i],),
        #[trigger] join(traces)[i],
    ) && join(traces)[i] is Ok by {
        crate::partition::lemma_partition_covers(len, workers, i as nat);
        let c = crate::partition::spec_chunk_of(len, workers, i as nat) as int;
        lemma_chunks_contiguous(len, workers, c as nat);
        let j = i - spec_chunk_start(len, workers, c as nat);
        assert(reads(transform, chunk_records(records, workers, c as nat), traces[c]));
        assert(traces[c][j] is Ok);
        assert(chunk_records(records, workers, c as nat)[j] == records[i]);
        assert(join(traces)[spec_chunk_start(len, workers, c as nat) + j] == traces[c][j]);
    }
}

/// A rewriting scan in which no step failed is a single pass: the joined
/// traces hold one successful step per record, each a result of the
/// transform on the record as it was, every record holds what its step
/// wrote, and the result of the scan is the tally of all the steps,
/// whatever the number of workers.
pub proof fn lemma_complete_rewrite<R, F: Fn(&R) -> Rewrite<R>>(
    transform: F,
    before: Seq<R>,
    after: Seq<R>,
    workers: nat,
    traces: Seq<Seq<Rewrite<R>>>,
)
    requires
        workers > 0,
        traces.len() == workers,
        after.len() == before.len(),
        forall|c: int|
            0 <= c < workers ==> rewrites(
                transform,
                chunk_records(before, workers, c as nat),
                #[trigger] traces[c],
            ) && chunk_records(after, workers, c as nat) == applied(
                chunk_records(before, workers, c as nat),
                traces[c],
            ),
        forall|c: int, j: int|
            0 <= c < workers && 0 <= j < traces[c].len() ==> (#[trigger] traces[c][j]) is Ok,
    ensures
        join(traces).len() == before.len(),
        forall|i: int|
            0 <= i < before.len() ==> call_ensures(transform, (&before[i],), #[trigger] join(traces)[i])
                && join(traces)[i] is Ok,
        after == applied(before, join(traces)),
        fold_results(chunk_results(step_traces(traces))) == Ok::<StatsView, CodecError>(
            tally(observed(steps_of(join(traces)))),
        ),
{
    let len = before.len();
    let steps = step_traces(traces);
    assert forall|c: int| 0 <= c < workers implies (#[trigger] traces[c]).len() == spec_chunk_end(
        len,
        workers,
        c as nat,
    ) - spec_chunk_start(len, workers, c as nat) by {
        lemma_chunks_contiguous(len, workers, c as nat);
        let t = traces[c];
        assert(rewrites(transform, chunk_records(before, workers, c as nat), t));
        if t.len() > 0 {
            assert(t[t.len() - 1] is Ok);
            assert(steps_of(t)[t.len() - 1] is Ok);
        }
    }
    assert forall|c: int| 0 <= c < workers implies (#[trigger] steps[c]).len() == spec_chunk_end(
        len,
        workers,
        c as nat,
    ) - spec_chunk_start(len, workers, c as nat) && chunk_result(steps[c]) is Ok by {
        let t = traces[c];
        assert(steps[c] == steps_of(t));
        if t.len() > 0 {
            assert(t[t.len() - 1] is Ok);
            assert(steps_of(t)[t.len() - 1] is Ok);
        }
    }
    lemma_join_chunks(len, workers, traces, workers);
    lemma_join_chunks(len, workers, steps, workers);
    assert(traces.take(workers as int) =~= traces);
    assert(steps.take(workers as int) =~= steps);
    lemma_chunks_contiguous(len, workers, workers);
    lemma_fold_is_single_pass(steps);
    assert forall|i: int| 0 <= i < before.len() implies call_ensures(
        transform,
        (&before[i],),
        #[trigger] join(traces)[i],
    ) && join(traces)[i] is Ok && after[i] == applied(before, join(traces))[i] && join(steps)[i]
        == steps_of(join(traces))[i] by {
        crate::partition::lemma_partition_covers(len, workers, i as nat);
        let c = crate::partition::spec_chunk_of(len, workers, i as nat) as int;
        lemma_chunks_contiguous(len, workers, c as nat);
        let from = spec_chunk_start(len, workers, c as nat);
        let j = i - from;
        assert(rewrites(transform, chunk_records(before, workers, c as nat), traces[c]));
        assert(traces[c][j] is Ok);
        assert(chunk_records(before, workers, c as nat)[j] == before[i]);
        assert(chunk_records(after, workers, c as nat)[j] == after[i]);
        assert(join(traces)[from + j] == traces[c][j]);
        assert(steps[c][j] == steps_of(traces[c])[j]);
        assert(join(steps)[from + j] == steps[c][j]);
    }
    assert(after =~= applied(before, join(traces)));
    assert(join(steps) =~= steps_of(join(traces)));
}

} // verus!
