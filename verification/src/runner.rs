//! Running adapters against a workload: warm-up, measured trials, and the
//! folding of trial outcomes into one summary per adapter.

use vstd::prelude::*;
use vstd::utf8::encode_utf8;
use crate::render::{digest, digest_of, AdapterError, RenderAdapter, Rendering};
use crate::stats::{
    covers_95,
    least,
    least_of,
    lemma_constant_samples,
    lemma_statistics_within,
    lemma_total_bound,
    mean,
    mean_of,
    percentile_95,
    percentile_95_of,
    total,
};
use crate::workload::{ConfigError, Workload, WorkloadParams};

verus! {

/// Nanoseconds in a millisecond.
pub const NANOS_PER_MILLI: u64 = 1_000_000;

/// How a run is to be carried out.
#[derive(Clone, Copy, Debug, PartialEq, Eq, Structural)]
pub struct RunConfig {
    /// Calls made before measuring, whose results are thrown away.
    pub warmup_trials: i64,
    /// Calls that are measured.
    pub measured_trials: i64,
    /// A trial that takes longer than this has failed.
    pub per_trial_timeout_millis: i64,
}

impl RunConfig {
    /// The first reason, if any, for which this configuration is refused.
    pub open spec fn config_error(self) -> Option<ConfigError> {
        if self.warmup_trials < 0 || self.measured_trials < 0 {
            Some(ConfigError::NegativeCount)
        } else if self.per_trial_timeout_millis < 0 {
            Some(ConfigError::NegativeTimeout)
        } else {
            None
        }
    }

    /// The longest time, in nanoseconds, that a trial may take.
    pub open spec fn timeout_nanos(self) -> int {
        self.per_trial_timeout_millis * NANOS_PER_MILLI
    }

    /// Accepts the configuration, or names the first fault in it.
    pub fn validate(&self) -> (result: Result<(), ConfigError>)
        ensures
            result == match self.config_error() {
                Some(e) => Err::<(), ConfigError>(e),
                None => Ok(()),
            },
    {
        if self.warmup_trials < 0 || self.measured_trials < 0 {
            Err(ConfigError::NegativeCount)
        } else if self.per_trial_timeout_millis < 0 {
            Err(ConfigError::NegativeTimeout)
        } else {
            Ok(())
        }
    }
}

/// The record of one trial that completed in time.
#[derive(Debug)]
pub struct RenderResult {
    pub adapter_name: String,
    pub elapsed_nanos: u64,
    pub output_byte_length: usize,
    pub output_digest: u64,
}

/// How one trial ended.
#[derive(Debug)]
pub enum TrialOutcome {
    Completed(RenderResult),
    /// The adapter returned, but later than the timeout allows.
    TimedOut { elapsed_nanos: u64 },
    /// The backend failed.
    Failed(AdapterError),
}

/// What the statistics read of a trial.
#[derive(Clone, Copy, Debug, PartialEq, Eq, Structural)]
pub enum Trial {
    Completed { elapsed_nanos: u64, output_byte_length: usize },
    Failed,
}

impl View for TrialOutcome {
    type V = Trial;

    open spec fn view(&self) -> Trial {
        match self {
            TrialOutcome::Completed(r) => Trial::Completed {
                elapsed_nanos: r.elapsed_nanos,
                output_byte_length: r.output_byte_length,
            },
            TrialOutcome::TimedOut { .. } => Trial::Failed,
            TrialOutcome::Failed(_) => Trial::Failed,
        }
    }
}

/// The statistics of one adapter over its measured trials.
#[derive(Clone, Copy, Debug, PartialEq, Eq, Structural)]
pub struct Summary {
    /// Trials that completed in time. The statistics are over these.
    pub trial_count: usize,
    /// Trials that failed or timed out.
    pub failure_count: usize,
    pub min: u64,
    pub mean: u64,
    pub p95: u64,
    /// Output size of the first completed trial.
    pub output_byte_length: usize,
    /// Whether some completed trial had an output of another size.
    pub inconsistent: bool,
}

/// The summary of one adapter, under its name.
#[derive(Debug)]
pub struct AggregateStat {
    pub adapter_name: String,
    pub summary: Summary,
}

/// The result of a run: one entry per adapter, in the order in which the
/// adapters were supplied, and the parameters of the workload.
#[derive(Debug)]
pub struct ComparisonReport {
    pub params: WorkloadParams,
    pub stats: Vec<AggregateStat>,
}

/// The times of the completed trials, in order.
pub open spec fn elapsed_of(trials: Seq<Trial>) -> Seq<u64>
    decreases trials.len(),
{
    if trials.len() == 0 {
        Seq::empty()
    } else {
        match trials.last() {
            Trial::Completed { elapsed_nanos, .. } => elapsed_of(trials.drop_last()).push(
                elapsed_nanos,
            ),
            Trial::Failed => elapsed_of(trials.drop_last()),
        }
    }
}

/// The output sizes of the completed trials, in order.
pub open spec fn sizes_of(trials: Seq<Trial>) -> Seq<usize>
    decreases trials.len(),
{
    if trials.len() == 0 {
        Seq::empty()
    } else {
        match trials.last() {
            Trial::Completed { output_byte_length, .. } => sizes_of(trials.drop_last()).push(
                output_byte_length,
            ),
            Trial::Failed => sizes_of(trials.drop_last()),
        }
    }
}

/// Whether the sizes are not all the same.
pub open spec fn sizes_differ(sizes: Seq<usize>) -> bool {
    exists|i: int| 0 <= i < sizes.len() && #[trigger] sizes[i] != sizes[0]
}

/// The summary of a sequence of trials.
pub open spec fn summarize(trials: Seq<Trial>) -> Summary {
    let elapsed = elapsed_of(trials);
    let sizes = sizes_of(trials);
    Summary {
        trial_count: elapsed.len() as usize,
        failure_count: (trials.len() - elapsed.len()) as usize,
        min: least(elapsed),
        mean: mean(elapsed) as u64,
        p95: percentile_95(elapsed),
        output_byte_length: if sizes.len() == 0 {
            0
        } else {
            sizes[0]
        },
        inconsistent: sizes_differ(sizes),
    }
}

/// Whether a trial, if it completed, did so within the timeout.
pub open spec fn in_time(trial: Trial, config: RunConfig) -> bool {
    trial matches Trial::Completed { elapsed_nanos, .. } ==> elapsed_nanos
        <= config.timeout_nanos()
}

/// Whether `trials` can be the measured trials of one adapter: there are
/// as many as the configuration asks for, and none completed late.
pub open spec fn is_measurement(trials: Seq<Trial>, config: RunConfig) -> bool {
    &&& trials.len() == (if config.measured_trials > 0 {
        config.measured_trials as int
    } else {
        0
    })
    &&& forall|i: int| 0 <= i < trials.len() ==> in_time(#[trigger] trials[i], config)
}

/// Whether `summary` is the summary of the measured trials of some
/// adapter.
pub open spec fn summarizes_measurement(summary: Summary, config: RunConfig) -> bool {
    exists|trials: Seq<Trial>| #[trigger]
        is_measurement(trials, config) && summary == summarize(trials)
}

/// As many times as sizes, and no more than trials.
pub proof fn lemma_completed_count(trials: Seq<Trial>)
    ensures
        elapsed_of(trials).len() == sizes_of(trials).len(),
        elapsed_of(trials).len() <= trials.len(),
    decreases trials.len(),
{
    if trials.len() > 0 {
        lemma_completed_count(trials.drop_last());
    }
}

/// Every trial is counted once, as completed or as failed: where none
/// failed, the completed trials are all the trials.
pub proof fn lemma_counts_add_up(trials: Seq<Trial>)
    requires
        trials.len() <= usize::MAX,
    ensures
        summarize(trials).trial_count + summarize(trials).failure_count == trials.len(),
{
    lemma_completed_count(trials);
}

/// The times of trials that completed in time do not exceed the timeout.
proof fn lemma_elapsed_in_time(trials: Seq<Trial>, config: RunConfig)
    requires
        forall|i: int| 0 <= i < trials.len() ==> in_time(#[trigger] trials[i], config),
    ensures
        forall|i: int|
            0 <= i < elapsed_of(trials).len() ==> (#[trigger] elapsed_of(trials)[i])
                <= config.timeout_nanos(),
    decreases trials.len(),
{
    if trials.len() > 0 {
        let front = trials.drop_last();
        assert forall|i: int| 0 <= i < front.len() implies in_time(
            #[trigger] front[i],
            config,
        ) by {
            assert(front[i] == trials[i]);
        }
        lemma_elapsed_in_time(front, config);
        assert(in_time(trials[trials.len() - 1], config));
        assert(trials.last() == trials[trials.len() - 1]);
        assert forall|i: int| 0 <= i < elapsed_of(trials).len() implies (#[trigger] elapsed_of(
            trials,
        )[i]) <= config.timeout_nanos() by {
            if i < elapsed_of(front).len() {
                assert(elapsed_of(trials)[i] == elapsed_of(front)[i]);
            }
        }
    }
}

/// Whatever the adapter returned, no statistic of its measured trials
/// exceeds the timeout.
pub proof fn lemma_measured_within_timeout(trials: Seq<Trial>, config: RunConfig)
    requires
        config.config_error() is None,
        is_measurement(trials, config),
    ensures
        summarize(trials).min <= config.timeout_nanos(),
        summarize(trials).mean <= config.timeout_nanos(),
        summarize(trials).p95 <= config.timeout_nanos(),
{
    lemma_elapsed_in_time(trials, config);
    assert(config.timeout_nanos() >= 0) by (nonlinear_arith)
        requires
            config.timeout_nanos() == config.per_trial_timeout_millis * NANOS_PER_MILLI,
            config.per_trial_timeout_millis >= 0,
    ;
    lemma_statistics_within(elapsed_of(trials), config.timeout_nanos() as nat);
    lemma_mean_fits(elapsed_of(trials));
}

/// The mean of 64-bit samples is a 64-bit value.
proof fn lemma_mean_fits(s: Seq<u64>)
    ensures
        mean(s) <= u64::MAX,
{
    if s.len() > 0 {
        lemma_total_bound(s);
        let n = s.len() as int;
        let t = total(s) as int;
        assert(t / n <= u64::MAX) by (nonlinear_arith)
            requires
                0 <= t <= n * u64::MAX,
                n > 0,
        ;
    }
}

/// Trials that all completed after `latency` with outputs of one size
/// have `latency` as minimum, mean and 95th percentile, count no failure,
/// and are consistent.
pub proof fn lemma_constant_latency(trials: Seq<Trial>, latency: u64, size: usize)
    requires
        0 < trials.len() <= usize::MAX,
        forall|i: int|
            0 <= i < trials.len() ==> trials[i] == (Trial::Completed {
                elapsed_nanos: latency,
                output_byte_length: size,
            }),
    ensures
        summarize(trials) == (Summary {
            trial_count: trials.len() as usize,
            failure_count: 0,
            min: latency,
            mean: latency,
            p95: latency,
            output_byte_length: size,
            inconsistent: false,
        }),
{
    lemma_all_completed(trials, latency, size);
    let elapsed = elapsed_of(trials);
    let sizes = sizes_of(trials);
    lemma_constant_samples(elapsed, latency);
    assert(!sizes_differ(sizes));
}

/// Trials that all completed alike give as many times and sizes as there
/// are trials, all alike.
proof fn lemma_all_completed(trials: Seq<Trial>, latency: u64, size: usize)
    requires
        forall|i: int|
            0 <= i < trials.len() ==> trials[i] == (Trial::Completed {
                elapsed_nanos: latency,
                output_byte_length: size,
            }),
    ensures
        elapsed_of(trials).len() == trials.len(),
        sizes_of(trials).len() == trials.len(),
        forall|i: int| 0 <= i < trials.len() ==> elapsed_of(trials)[i] == latency,
        forall|i: int| 0 <= i < trials.len() ==> sizes_of(trials)[i] == size,
    decreases trials.len(),
{
    if trials.len() > 0 {
        let front = trials.drop_last();
        assert forall|i: int| 0 <= i < front.len() implies front[i] == (Trial::Completed {
            elapsed_nanos: latency,
            output_byte_length: size,
        }) by {
            assert(front[i] == trials[i]);
        }
        lemma_all_completed(front, latency, size);
        assert(trials.last() == trials[trials.len() - 1]);
    }
}

/// Trials that all failed count as failures only: no trial completed, and
/// there is nothing to measure.
pub proof fn lemma_all_failed(trials: Seq<Trial>)
    requires
        trials.len() <= usize::MAX,
        forall|i: int| 0 <= i < trials.len() ==> trials[i] == Trial::Failed,
    ensures
        summarize(trials) == (Summary {
            trial_count: 0,
            failure_count: trials.len() as usize,
            min: 0,
            mean: 0,
            p95: 0,
            output_byte_length: 0,
            inconsistent: false,
        }),
{
    lemma_none_completed(trials);
    let elapsed = elapsed_of(trials);
    assert(elapsed =~= Seq::<u64>::empty());
    assert(elapsed.filter(|v: u64| covers_95(elapsed, v)) =~= Seq::<u64>::empty())
        by {
        reveal(Seq::filter);
    }
}

/// Trials that all failed give no time and no size.
proof fn lemma_none_completed(trials: Seq<Trial>)
    requires
        forall|i: int| 0 <= i < trials.len() ==> trials[i] == Trial::Failed,
    ensures
        elapsed_of(trials).len() == 0,
        sizes_of(trials).len() == 0,
    decreases trials.len(),
{
    if trials.len() > 0 {
        let front = trials.drop_last();
        assert forall|i: int| 0 <= i < front.len() implies front[i] == Trial::Failed by {
            assert(front[i] == trials[i]);
        }
        lemma_none_completed(front);
        assert(trials.last() == trials[trials.len() - 1]);
    }
}

/// What a trial is recorded as, given what the adapter returned.
pub open spec fn judged(rendered: Result<Rendering, AdapterError>, config: RunConfig) -> Trial {
    match rendered {
        Ok(rendering) => if rendering.elapsed_nanos > config.timeout_nanos() {
            Trial::Failed
        } else {
            Trial::Completed {
                elapsed_nanos: rendering.elapsed_nanos,
                output_byte_length: encode_utf8(rendering.markup@).len() as usize,
            }
        },
        Err(_) => Trial::Failed,
    }
}

/// Records one trial: a failure of the backend stays a failure, an
/// output that came later than the timeout allows is a timeout, and any
/// other output is measured.
pub fn judge(adapter_name: String, rendered: Result<Rendering, AdapterError>, config: &RunConfig)
    -> (outcome: TrialOutcome)
    ensures
        outcome@ == judged(rendered, *config),
        match rendered {
            Err(error) => outcome == TrialOutcome::Failed(error),
            Ok(rendering) => if rendering.elapsed_nanos > config.timeout_nanos() {
                outcome == (TrialOutcome::TimedOut { elapsed_nanos: rendering.elapsed_nanos })
            } else {
                outcome == TrialOutcome::Completed(
                    RenderResult {
                        adapter_name,
                        elapsed_nanos: rendering.elapsed_nanos,
                        output_byte_length: encode_utf8(rendering.markup@).len() as usize,
                        output_digest: digest(encode_utf8(rendering.markup@)),
                    },
                )
            },
        },
{
    match rendered {
        Err(e) => TrialOutcome::Failed(e),
        Ok(rendering) => {
            let limit: i128 = (config.per_trial_timeout_millis as i128) * (NANOS_PER_MILLI as i128);
            if rendering.elapsed_nanos as i128 > limit {
                TrialOutcome::TimedOut { elapsed_nanos: rendering.elapsed_nanos }
            } else {
                let bytes = rendering.markup.as_str().as_bytes();
                TrialOutcome::Completed(
                    RenderResult {
                        adapter_name,
                        elapsed_nanos: rendering.elapsed_nanos,
                        output_byte_length: bytes.len(),
                        output_digest: digest_of(bytes),
                    },
                )
            }
        },
    }
}

/// The views of outcomes, in order.
pub open spec fn trials_of(outcomes: Seq<TrialOutcome>) -> Seq<Trial> {
    outcomes.map_values(|o: TrialOutcome| o@)
}

/// Folds the outcomes of one adapter into its summary.
pub fn aggregate(adapter_name: String, outcomes: &Vec<TrialOutcome>) -> (stat: AggregateStat)
    ensures
        stat.adapter_name == adapter_name,
        stat.summary == summarize(trials_of(outcomes@)),
{
    let ghost trials = trials_of(outcomes@);
    let mut elapsed: Vec<u64> = Vec::new();
    let mut first_size: usize = 0;
    let mut inconsistent: bool = false;
    let ghost mut witness: int = 0;
    let mut i: usize = 0;
    while i < outcomes.len()
        invariant
            i <= outcomes@.len(),
            trials == trials_of(outcomes@),
            elapsed@ == elapsed_of(trials.subrange(0, i as int)),
            elapsed@.len() == sizes_of(trials.subrange(0, i as int)).len(),
            elapsed@.len() <= i,
            elapsed@.len() > 0 ==> first_size == sizes_of(trials.subrange(0, i as int))[0],
            elapsed@.len() == 0 ==> first_size == 0,
            inconsistent ==> 0 <= witness < elapsed@.len() && sizes_of(
                trials.subrange(0, i as int),
            )[witness] != first_size,
            !inconsistent ==> forall|j: int|
                0 <= j < elapsed@.len() ==> sizes_of(trials.subrange(0, i as int))[j]
                    == first_size,
        decreases outcomes@.len() - i,
    {
        proof {
            let next = trials.subrange(0, i + 1);
            assert(next.drop_last() =~= trials.subrange(0, i as int));
            assert(next.last() == outcomes@[i as int]@);
        }
        match &outcomes[i] {
            TrialOutcome::Completed(r) => {
                if elapsed.len() == 0 {
                    first_size = r.output_byte_length;
                } else if r.output_byte_length != first_size {
                    proof {
                        if !inconsistent {
                            witness = elapsed@.len() as int;
                        }
                    }
                    inconsistent = true;
                }
                elapsed.push(r.elapsed_nanos);
            },
            TrialOutcome::TimedOut { .. } => {},
            TrialOutcome::Failed(_) => {},
        }
        i = i + 1;
    }
    proof {
        assert(trials.subrange(0, outcomes@.len() as int) =~= trials);
        let sizes = sizes_of(trials);
        if inconsistent {
            assert(sizes[witness] != sizes[0]);
        }
    }
    let summary = Summary {
        trial_count: elapsed.len(),
        failure_count: outcomes.len() - elapsed.len(),
        min: least_of(&elapsed),
        mean: mean_of(&elapsed),
        p95: percentile_95_of(&elapsed),
        output_byte_length: first_size,
        inconsistent,
    };
    AggregateStat { adapter_name, summary }
}

/// Puts one adapter through its warm-up and its measured trials.
///
/// Every call gets the same workload. What the warm-up calls return is
/// dropped; each measured call is recorded by [`judge`], and the records
/// are folded by [`aggregate`]. The adapter decides what each call
/// returns, so the summary is that of `measured_trials` trials, whichever
/// they were. A count that is not positive asks for no call.
pub fn measure<A: RenderAdapter>(adapter: &mut A, workload: &Workload, config: &RunConfig) -> (stat:
    AggregateStat)
    ensures
        summarizes_measurement(stat.summary, *config),
{
    let mut w: i64 = 0;
    while w < config.warmup_trials
        invariant
            0 <= w,
        decreases config.warmup_trials - w,
    {
        let _ = adapter.render(workload);
        w = w + 1;
    }
    let name = adapter.name();
    let mut outcomes: Vec<TrialOutcome> = Vec::new();
    let mut t: i64 = 0;
    while t < config.measured_trials
        invariant
            0 <= t,
            t <= config.measured_trials || t == 0,
            outcomes@.len() == t,
            forall|j: int| 0 <= j < outcomes@.len() ==> in_time((#[trigger] outcomes@[j])@, *config),
        decreases config.measured_trials - t,
    {
        let rendered = adapter.render(workload);
        let outcome = judge(name.clone(), rendered, config);
        outcomes.push(outcome);
        t = t + 1;
    }
    let stat = aggregate(name, &outcomes);
    assert(is_measurement(trials_of(outcomes@), *config));
    stat
}

/// The summaries of several adapters, each over its own trials.
pub open spec fn summaries(runs: Seq<Seq<Trial>>) -> Seq<Summary> {
    Seq::new(runs.len(), |i: int| summarize(runs[i]))
}

/// The summaries that a report holds, in order.
pub open spec fn report_summaries(report: ComparisonReport) -> Seq<Summary> {
    Seq::new(report.stats@.len(), |i: int| report.stats@[i].summary)
}

/// Whether `report` is what a run over `adapters` adapters can return
/// for `params` and `config`: every adapter went through its measured
/// trials, and the report holds the summaries of those.
pub open spec fn is_run_report(
    report: ComparisonReport,
    params: WorkloadParams,
    adapters: nat,
    config: RunConfig,
) -> bool {
    &&& report.params == params
    &&& report.stats@.len() == adapters
    &&& exists|runs: Seq<Seq<Trial>>|
        {
            &&& #[trigger] runs.len() == adapters
            &&& forall|i: int| 0 <= i < runs.len() ==> is_measurement(#[trigger] runs[i], config)
            &&& report_summaries(report) == summaries(runs)
        }
}

/// An adapter that fails every trial has no completed trial and a
/// failure for each trial, and the summary of any other adapter of the
/// same run is that of its own trials alone.
pub proof fn lemma_failures_stay_apart(runs: Seq<Seq<Trial>>, failing: int, other: int)
    requires
        0 <= failing < runs.len(),
        0 <= other < runs.len(),
        0 < runs[failing].len() <= usize::MAX,
        forall|i: int| 0 <= i < runs[failing].len() ==> runs[failing][i] == Trial::Failed,
    ensures
        summaries(runs)[failing].trial_count == 0,
        summaries(runs)[failing].failure_count == runs[failing].len(),
        summaries(runs)[failing].failure_count > 0,
        summaries(runs)[other] == summarize(runs[other]),
{
    lemma_all_failed(runs[failing]);
}

/// Runs every adapter against the workload, one after the other and in
/// the order given, and reports one summary per adapter in that order.
///
/// A configuration with a negative count or timeout is refused before
/// any adapter is called. No failure of an adapter ends the run: it is
/// counted in that adapter's summary.
pub fn run<A: RenderAdapter>(
    params: WorkloadParams,
    workload: &Workload,
    adapters: &mut Vec<A>,
    config: &RunConfig,
) -> (result: Result<ComparisonReport, ConfigError>)
    ensures
        final(adapters)@.len() == old(adapters)@.len(),
        match result {
            Ok(report) => config.config_error() is None && is_run_report(
                report,
                params,
                old(adapters)@.len(),
                *config,
            ),
            Err(e) => config.config_error() == Some(e) && final(adapters)@ == old(adapters)@,
        },
{
    match config.validate() {
        Err(e) => {
            return Err(e);
        },
        Ok(()) => {},
    }
    let mut stats: Vec<AggregateStat> = Vec::new();
    let ghost mut runs: Seq<Seq<Trial>> = Seq::empty();
    let mut i: usize = 0;
    while i < adapters.len()
        invariant
            i <= adapters@.len(),
            adapters@.len() == old(adapters)@.len(),
            config.config_error() is None,
            stats@.len() == i,
            runs.len() == i,
            forall|j: int| 0 <= j < runs.len() ==> is_measurement(#[trigger] runs[j], *config),
            forall|j: int| 0 <= j < stats@.len() ==> (#[trigger] stats@[j]).summary == summarize(
                runs[j],
            ),
        decreases adapters@.len() - i,
    {
        let stat = measure(&mut adapters[i], workload, config);
        proof {
            let trials = choose|trials: Seq<Trial>| #[trigger]
                is_measurement(trials, *config) && stat.summary == summarize(trials);
            runs = runs.push(trials);
        }
        stats.push(stat);
        i = i + 1;
    }
    let report = ComparisonReport { params, stats };
    assert(report_summaries(report) =~= summaries(runs));
    Ok(report)
}

/// Whether an adapter failed every trial or gave outputs of differing
/// sizes.
pub open spec fn needs_attention(summary: Summary) -> bool {
    summary.inconsistent || (summary.trial_count == 0 && summary.failure_count > 0)
}

/// Exit code of a run that was refused for its configuration.
pub const EXIT_INVALID_CONFIG: u8 = 2;

/// The exit code for the outcome of a run: 0 where every adapter was
/// consistent and completed a trial, 1 where some adapter failed every
/// trial or was inconsistent, 2 where the configuration was refused.
pub open spec fn exit_code_of(outcome: Result<ComparisonReport, ConfigError>) -> u8 {
    match outcome {
        Err(_) => EXIT_INVALID_CONFIG,
        Ok(report) => if exists|i: int|
            0 <= i < report.stats@.len() && needs_attention(
                (#[trigger] report.stats@[i]).summary,
            ) {
            1
        } else {
            0
        },
    }
}

/// Computes [`exit_code_of`].
pub fn exit_code(outcome: &Result<ComparisonReport, ConfigError>) -> (code: u8)
    ensures
        code == exit_code_of(*outcome),
{
    match outcome {
        Err(_) => EXIT_INVALID_CONFIG,
        Ok(report) => {
            let mut i: usize = 0;
            while i < report.stats.len()
                invariant
                    i <= report.stats@.len(),
                    *outcome == Ok::<ComparisonReport, ConfigError>(*report),
                    forall|j: int|
                        0 <= j < i ==> !needs_attention((#[trigger] report.stats@[j]).summary),
                decreases report.stats@.len() - i,
            {
                let s = &report.stats[i].summary;
                if s.inconsistent || (s.trial_count == 0 && s.failure_count > 0) {
                    assert(needs_attention(report.stats@[i as int].summary));
                    return 1;
                }
                i = i + 1;
            }
            0
        },
    }
}

} // verus!
