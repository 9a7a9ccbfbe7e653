//! Relabelling of records by an endgame oracle: where the oracle knows the
//! value of a record's position and the stored outcome differs, the outcome
//! is replaced; nothing else of the record changes.

use vstd::prelude::*;
use crate::partition::{resolve_threads, ConfigError};
use crate::record::Record;
use crate::scan::{lemma_complete_rewrite, Rewrite, ScanError};
use crate::stats::{join, observe, spec_observe, tally, ObservationView, Stats, MAX_POSITIONS};
use crate::tablebases::probe::{answers, get_wdl_white, RootQuery, WDL};

verus! {

/// What to rescore and how.
pub struct Options {
    /// Where the dataset lies.
    pub dataset: String,
    /// Where the tablebases lie.
    pub tb_path: String,
    /// The number of workers asked for; the machine's parallelism without.
    pub threads: Option<usize>,
}

/// The outcome to store in place of `stored`, if any: the oracle's answer
/// where it gave one that differs.
pub open spec fn spec_rescored_outcome(stored: WDL, oracle: Option<WDL>) -> Option<WDL> {
    match oracle {
        Some(w) => if w != stored {
            Some(w)
        } else {
            None
        },
        None => None,
    }
}

/// Decides whether a stored outcome is to be replaced, and by what.
pub fn rescored_outcome(stored: WDL, oracle: Option<WDL>) -> (r: Option<WDL>)
    ensures
        r == spec_rescored_outcome(stored, oracle),
{
    match oracle {
        Some(w) => if w.ordinal() != stored.ordinal() {
            Some(w)
        } else {
            None
        },
        None => None,
    }
}

/// The record to write in place of `record`, if any: the same record with
/// the oracle's answer for outcome, where the answer differs from the
/// stored outcome.
pub open spec fn spec_rewritten(record: Record, oracle: Option<WDL>) -> Option<Record> {
    match spec_rescored_outcome(record.outcome, oracle) {
        Some(w) => Some(Record { outcome: w, ..record }),
        None => None,
    }
}

/// The record as it stands after rescoring.
pub open spec fn spec_rescored(record: Record, oracle: Option<WDL>) -> Record {
    match spec_rewritten(record, oracle) {
        Some(new) => new,
        None => record,
    }
}

/// Rescoring changes nothing but the outcome, changes the outcome only to
/// the oracle's answer, and changes nothing where the oracle gave no answer
/// or agrees.
pub proof fn lemma_rescored(record: Record, oracle: Option<WDL>)
    ensures
        spec_rescored(record, oracle).position == record.position,
        spec_rescored(record, oracle).eval == record.eval,
        spec_rescored(record, oracle).extra == record.extra,
        oracle matches Some(w) ==> spec_rescored(record, oracle).outcome == w,
        oracle is None ==> spec_rescored(record, oracle) == record,
        oracle == Some(record.outcome) ==> spec_rescored(record, oracle) == record,
        spec_rewritten(record, oracle) is Some <==> spec_rescored(record, oracle) != record,
{
}

/// Rescores one record, given what the oracle answered for its position:
/// what the record contributes to the tally, as it was stored, and the
/// record to write in its place, if it changes.
pub fn rescore(record: &Record, oracle: Option<WDL>) -> (out: (crate::stats::Observation, Option<Record>))
    ensures
        out.0@ == spec_observe(record.position@, record.eval, record.outcome, oracle),
        out.1 == spec_rewritten(*record, oracle),
{
    let o = observe(&record.position, record.eval, record.outcome, oracle);
    let new = match rescored_outcome(record.outcome, oracle) {
        Some(w) => Some(
            Record { position: record.position, eval: record.eval, outcome: w, extra: record.extra },
        ),
        None => None,
    };
    (o, new)
}

/// `out` is a result of rescoring `record`: observation and new value for
/// an answer of the oracle on the record's position.
pub open spec fn rescores<P: Fn(&RootQuery) -> u32>(
    probe: P,
    max_pieces: u8,
    record: Record,
    out: (crate::stats::Observation, Option<Record>),
) -> bool {
    exists|answer: Option<WDL>| #[trigger]
        answers(probe, max_pieces, record.position@, answer) && out.0@ == spec_observe(
            record.position@,
            record.eval,
            record.outcome,
            answer,
        ) && out.1 == spec_rewritten(record, answer)
}

/// The rescoring transform: asks the oracle about the record's position,
/// through `probe` and only where the position has no more than
/// `max_pieces` pieces, and rescores the record with the answer.
pub fn rescore_record<P: Fn(&RootQuery) -> u32>(record: &Record, max_pieces: u8, probe: &P) -> (out:
    (crate::stats::Observation, Option<Record>))
    requires
        forall|q: &RootQuery| call_requires(probe, (q,)),
    ensures
        rescores(*probe, max_pieces, *record, out),
{
    let answer = get_wdl_white(&record.position, max_pieces, probe);
    rescore(record, answer)
}

/// Rescores a dataset of decoded records in place. The records are cut
/// into one chunk per worker; every record ends as `spec_rescored` of what
/// it was, for an answer of the oracle on its position, and the tally is
/// that of all the records as they were stored, with the oracle's hits and
/// disagreements. A request for no worker is refused and changes nothing.
pub fn run<P, G>(
    options: &Options,
    records: &mut [Record],
    max_pieces: u8,
    probe: &P,
    progress: &G,
) -> (r: Result<Stats, ScanError>) where P: Fn(&RootQuery) -> u32, G: Fn(u64)
    requires
        old(records).len() <= MAX_POSITIONS,
        forall|q: &RootQuery| call_requires(probe, (q,)),
        forall|n: u64| call_requires(progress, (n,)),
    ensures
        final(records)@.len() == old(records)@.len(),
        r is Err <==> options.threads == Some(0usize),
        r matches Err(e) ==> e == ScanError::Config(ConfigError::NoWorkers) && final(records)@ == old(
            records,
        )@,
        r matches Ok(s) ==> s.wf() && exists|oracle: Seq<Option<WDL>>|
            oracle.len() == old(records)@.len() && (forall|i: int|
                0 <= i < oracle.len() ==> answers(
                    *probe,
                    max_pieces,
                    old(records)@[i].position@,
                    #[trigger] oracle[i],
                ) && final(records)@[i] == spec_rescored(old(records)@[i], oracle[i])) && s@
                == #[trigger] tally(observations(old(records)@, oracle)),
{
    let workers = match resolve_threads(options.threads) {
        Ok(n) => n,
        Err(e) => {
            return Err(ScanError::Config(e));
        },
    };
    let transform = |record: &Record| -> (step: Rewrite<Record>)
        requires
            forall|q: &RootQuery| call_requires(probe, (q,)),
        ensures
            step matches Ok(out) && rescores(*probe, max_pieces, *record, out),
        { Ok(rescore_record(record, max_pieces, probe)) };
    let r = crate::scan::run_mut(records, workers, &transform, progress);
    proof {
        let before = old(records)@;
        let traces = choose|traces: Seq<Seq<Rewrite<Record>>>|
            traces.len() == workers && (forall|c: int|
                0 <= c < workers ==> crate::scan::rewrites(
                    transform,
                    crate::scan::chunk_records(before, workers as nat, c as nat),
                    #[trigger] traces[c],
                ) && crate::scan::chunk_records(records@, workers as nat, c as nat)
                    == crate::scan::applied(
                    crate::scan::chunk_records(before, workers as nat, c as nat),
                    traces[c],
                )) && crate::scan::outcome_agrees(
                r,
                #[trigger] crate::scan::fold_results(
                    crate::scan::chunk_results(crate::scan::step_traces(traces)),
                ),
            );
        assert forall|c: int, j: int| 0 <= c < workers && 0 <= j < traces[c].len() implies (
        #[trigger] traces[c][j]) is Ok by {
            assert(crate::scan::rewrites(
                transform,
                crate::scan::chunk_records(before, workers as nat, c as nat),
                traces[c],
            ));
        }
        lemma_complete_rewrite(transform, before, records@, workers as nat, traces);
        let all = join(traces);
        let oracle = Seq::new(
            before.len(),
            |i: int|
                choose|answer: Option<WDL>| #[trigger]
                    answers(*probe, max_pieces, before[i].position@, answer) && all[i]->Ok_0.0@
                        == spec_observe(
                        before[i].position@,
                        before[i].eval,
                        before[i].outcome,
                        answer,
                    ) && all[i]->Ok_0.1 == spec_rewritten(before[i], answer),
        );
        assert forall|i: int| 0 <= i < oracle.len() implies answers(
            *probe,
            max_pieces,
            before[i].position@,
            #[trigger] oracle[i],
        ) && records@[i] == spec_rescored(before[i], oracle[i]) && crate::scan::observed(
            crate::scan::steps_of(all),
        )[i] == observations(before, oracle)[i] by {
            assert(call_ensures(transform, (&before[i],), all[i]));
            assert(all[i] is Ok);
            assert(records@[i] == crate::scan::applied(before, all)[i]);
        }
        assert(crate::scan::observed(crate::scan::steps_of(all)) =~= observations(before, oracle));
    }
    r
}

/// What the records of a dataset contribute to a tally, given the oracle's
/// answer for each.
pub open spec fn observations(records: Seq<Record>, oracle: Seq<Option<WDL>>) -> Seq<ObservationView> {
    Seq::new(
        records.len(),
        |i: int| spec_observe(records[i].position@, records[i].eval, records[i].outcome, oracle[i]),
    )
}

} // verus!
