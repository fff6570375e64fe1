//! Which run sizes a sweep visits, and the record that each run leaves.

use vstd::prelude::*;

verus! {

/// Samples that the hardware takes in one batch. A run is a whole number
/// of batches.
pub const BATCH_SIZE: usize = 32;

/// Largest run of a benchmark sweep, in samples.
pub const MAX_SAMPLES_BENCHMARK: usize = 4 * 1024 * 1024;

/// Clock that is assumed for a streaming run, in hertz.
pub const ASSUMED_STREAM_CLOCK_HZ: u64 = 250000000;

/// Bit pattern of the double-precision value -1, which stands for a
/// duration that was not measured.
pub const NOT_MEASURED: u64 = 0xBFF0000000000000;

/// What the user asked for.
#[derive(Clone, Copy, Debug, PartialEq, Eq, Structural)]
pub struct ProgramOptions {
    /// Samples of the one run, when no sweep is asked for.
    pub num_samples: usize,
    /// Whether sample data goes through mapped device memory rather than
    /// through streaming channels.
    pub mm: bool,
    /// Whether the network is split over two devices.
    pub split: bool,
    /// Whether a sweep over run sizes is asked for.
    pub benchmark: bool,
    /// Runs per run size.
    pub iterations: usize,
}

/// The record of one run, or the average over the runs of one size.
///
/// Durations are in seconds, held as the bit pattern of a double-precision
/// value.
#[derive(Clone, Copy, Debug, PartialEq, Eq, Structural)]
pub struct TimeResult {
    /// Samples of the run.
    pub num_samples: usize,
    /// Wall-clock duration measured on the host.
    pub runtime_host: u64,
    /// Duration counted by the device; `NOT_MEASURED` for a run on two
    /// devices, which has no such counter.
    pub runtime_device: u64,
    /// Whether the run was mapped.
    pub mm: bool,
    /// Whether the run was split over two devices.
    pub split: bool,
}

/// The clock by which the cycle count of a run is turned into a duration.
#[derive(Clone, Copy, Debug, PartialEq, Eq, Structural)]
pub enum ClockSource {
    /// The design frequency that the device reports.
    DesignFrequency,
    /// A fixed frequency, in hertz.
    Fixed { hertz: u64 },
}

/// Size of run `k` of a sweep: 32 samples, doubled `k` times.
pub open spec fn sweep_size(k: nat) -> nat
    decreases k,
{
    if k == 0 {
        32
    } else {
        2 * sweep_size((k - 1) as nat)
    }
}

/// Whether `sizes` is the sweep up to `ceiling`: all the sizes 32, 64, 128
/// and so on that do not exceed `ceiling`, in ascending order.
pub open spec fn is_sweep(sizes: Seq<usize>, ceiling: int) -> bool {
    &&& forall|k: int| 0 <= k < sizes.len() ==> #[trigger] sizes[k] == sweep_size(k as nat)
    &&& forall|k: int| 0 <= k < sizes.len() ==> #[trigger] sizes[k] <= ceiling
    &&& sweep_size(sizes.len()) > ceiling
}

/// The run sizes that `options` asks for: the benchmark sweep, or the one
/// size that the user named.
pub open spec fn is_size_list(sizes: Seq<usize>, options: ProgramOptions) -> bool {
    if options.benchmark {
        is_sweep(sizes, MAX_SAMPLES_BENCHMARK as int)
    } else {
        sizes == seq![options.num_samples]
    }
}

/// The records of the runs over `size` samples, in the order of the runs.
pub open spec fn runs_of(records: Seq<TimeResult>, size: usize) -> Seq<TimeResult>
    decreases records.len(),
{
    if records.len() == 0 {
        Seq::empty()
    } else {
        let earlier = runs_of(records.drop_last(), size);
        if records.last().num_samples == size {
            earlier.push(records.last())
        } else {
            earlier
        }
    }
}

/// Sweep sizes grow.
pub proof fn lemma_sweep_grows(j: nat, k: nat)
    requires
        j < k,
    ensures
        32 <= sweep_size(j) < sweep_size(k),
    decreases k,
{
    if j + 1 < k {
        lemma_sweep_grows(j, (k - 1) as nat);
    } else if j > 0 {
        lemma_sweep_grows((j - 1) as nat, j);
    }
}

/// There is one sweep up to a ceiling, and no size occurs twice in it.
pub proof fn lemma_sweep_is_unique(first: Seq<usize>, second: Seq<usize>, ceiling: int)
    requires
        is_sweep(first, ceiling),
        is_sweep(second, ceiling),
    ensures
        first == second,
        forall|j: int, k: int| 0 <= j < k < first.len() ==> first[j] < first[k],
{
    if first.len() < second.len() {
        assert(second[first.len() as int] <= ceiling);
    } else if second.len() < first.len() {
        assert(first[second.len() as int] <= ceiling);
    }
    assert(first =~= second);
    assert forall|j: int, k: int| 0 <= j < k < first.len() implies first[j] < first[k] by {
        lemma_sweep_grows(j as nat, k as nat);
    }
}

/// Every record belongs to the runs of exactly its own size: the runs of a
/// size are records of that size, in their order, and as many as there are.
pub proof fn lemma_runs_of(records: Seq<TimeResult>, size: usize)
    ensures
        runs_of(records, size).len() <= records.len(),
        forall|i: int|
            0 <= i < runs_of(records, size).len() ==> (#[trigger] runs_of(
                records,
                size,
            )[i]).num_samples == size,
        (forall|i: int| 0 <= i < records.len() ==> (#[trigger] records[i]).num_samples == size)
            ==> runs_of(records, size) == records,
        (forall|i: int| 0 <= i < records.len() ==> (#[trigger] records[i]).num_samples != size)
            ==> runs_of(records, size).len() == 0,
    decreases records.len(),
{
    if records.len() > 0 {
        let earlier = records.drop_last();
        lemma_runs_of(earlier, size);
        if forall|i: int| 0 <= i < records.len() ==> (#[trigger] records[i]).num_samples == size {
            assert forall|i: int| 0 <= i < earlier.len() implies (#[trigger] earlier[i]).num_samples
                == size by {
                assert(earlier[i] == records[i]);
            }
            assert(records.last() == records[records.len() - 1]);
            assert(runs_of(records, size) =~= records);
        }
        if forall|i: int| 0 <= i < records.len() ==> (#[trigger] records[i]).num_samples != size {
            assert forall|i: int| 0 <= i < earlier.len() implies (#[trigger] earlier[i]).num_samples
                != size by {
                assert(earlier[i] == records[i]);
            }
            assert(records.last() == records[records.len() - 1]);
        }
    }
}

/// Whether a run over `num_samples` samples is a whole number of batches.
pub fn accepts_sample_count(num_samples: usize) -> (accepted: bool)
    ensures
        accepted == (num_samples % BATCH_SIZE == 0),
{
    num_samples % BATCH_SIZE == 0
}

/// The sweep up to `ceiling`: 32, 64, 128 and so on, as long as the size
/// does not exceed `ceiling`.
pub fn sweep_sizes(ceiling: usize) -> (sizes: Vec<usize>)
    ensures
        is_sweep(sizes@, ceiling as int),
{
    let mut sizes: Vec<usize> = Vec::new();
    let mut size: usize = 32;
    loop
        invariant_except_break
            size == sweep_size(sizes@.len()),
        invariant
            size >= 32,
            forall|k: int| 0 <= k < sizes@.len() ==> #[trigger] sizes@[k] == sweep_size(k as nat),
            forall|k: int| 0 <= k < sizes@.len() ==> #[trigger] sizes@[k] <= ceiling,
        ensures
            sweep_size(sizes@.len()) > ceiling,
        decreases usize::MAX - size,
    {
        if size > ceiling {
            break;
        }
        sizes.push(size);
        if size > usize::MAX / 2 {
            break;
        }
        size = size * 2;
    }
    sizes
}

impl ProgramOptions {
    /// Whether the options can be carried out: the sample count has to be
    /// a whole number of batches.
    pub fn is_valid(&self) -> (valid: bool)
        ensures
            valid == (self.num_samples % BATCH_SIZE == 0),
    {
        accepts_sample_count(self.num_samples)
    }

    /// The largest run that the options lead to, in samples.
    pub fn max_samples(&self) -> (samples: usize)
        ensures
            samples == (if self.benchmark {
                MAX_SAMPLES_BENCHMARK
            } else {
                self.num_samples
            }),
    {
        if self.benchmark {
            MAX_SAMPLES_BENCHMARK
        } else {
            self.num_samples
        }
    }

    /// The run sizes, in the order in which they are run.
    pub fn sample_sizes(&self) -> (sizes: Vec<usize>)
        ensures
            is_size_list(sizes@, *self),
    {
        if self.benchmark {
            sweep_sizes(MAX_SAMPLES_BENCHMARK)
        } else {
            let mut sizes: Vec<usize> = Vec::new();
            sizes.push(self.num_samples);
            assert(sizes@ =~= seq![self.num_samples]);
            sizes
        }
    }

    /// Whether run `iteration` (counted from 0) is the last of its size, the
    /// one whose results are kept.
    pub fn keeps_results(&self, iteration: usize) -> (kept: bool)
        ensures
            kept == (iteration + 1 == self.iterations),
    {
        self.iterations > 0 && iteration == self.iterations - 1
    }

    /// The clock by which the cycle count of a run is turned into a
    /// duration: the design frequency for a mapped run, a fixed 250 MHz
    /// for a streaming run.
    pub fn clock_source(&self) -> (clock: ClockSource)
        ensures
            clock == (if self.mm {
                ClockSource::DesignFrequency
            } else {
                ClockSource::Fixed { hertz: ASSUMED_STREAM_CLOCK_HZ }
            }),
    {
        if self.mm {
            ClockSource::DesignFrequency
        } else {
            ClockSource::Fixed { hertz: ASSUMED_STREAM_CLOCK_HZ }
        }
    }

    /// The record of a run over `num_samples` samples. The duration that
    /// the device counted is kept for a run on one device and replaced by
    /// `NOT_MEASURED` for a run on two.
    pub fn record(&self, num_samples: usize, runtime_host: u64, runtime_device: u64) -> (result:
        TimeResult)
        ensures
            result == (TimeResult {
                num_samples,
                runtime_host,
                runtime_device: if self.split {
                    NOT_MEASURED
                } else {
                    runtime_device
                },
                mm: self.mm,
                split: self.split,
            }),
    {
        TimeResult {
            num_samples,
            runtime_host,
            runtime_device: if self.split {
                NOT_MEASURED
            } else {
                runtime_device
            },
            mm: self.mm,
            split: self.split,
        }
    }

    /// The averaged record of the runs over `num_samples` samples.
    pub fn average(&self, num_samples: usize, mean_host: u64, mean_device: u64) -> (result:
        TimeResult)
        ensures
            result == (TimeResult {
                num_samples,
                runtime_host: mean_host,
                runtime_device: mean_device,
                mm: self.mm,
                split: self.split,
            }),
    {
        TimeResult {
            num_samples,
            runtime_host: mean_host,
            runtime_device: mean_device,
            mm: self.mm,
            split: self.split,
        }
    }
}

/// The records of the runs over `size` samples, in the order of the runs.
pub fn records_of(records: &[TimeResult], size: usize) -> (runs: Vec<TimeResult>)
    ensures
        runs@ == runs_of(records@, size),
{
    let mut runs: Vec<TimeResult> = Vec::new();
    let mut i: usize = 0;
    assert(records@.take(0) =~= Seq::<TimeResult>::empty());
    while i < records.len()
        invariant
            i <= records@.len(),
            runs@ == runs_of(records@.take(i as int), size),
        decreases records@.len() - i,
    {
        assert(records@.take(i + 1).drop_last() =~= records@.take(i as int));
        if records[i].num_samples == size {
            runs.push(records[i]);
        }
        i += 1;
    }
    assert(records@.take(i as int) =~= records@);
    runs
}

/// For each run size, the records over which its average is taken: one
/// group per size, in the order of the sizes.
pub fn mean_groups(sizes: &[usize], records: &[TimeResult]) -> (groups: Vec<Vec<TimeResult>>)
    ensures
        groups@.len() == sizes@.len(),
        forall|k: int|
            0 <= k < sizes@.len() ==> (#[trigger] groups@[k])@ == runs_of(records@, sizes@[k]),
{
    let mut groups: Vec<Vec<TimeResult>> = Vec::new();
    let mut k: usize = 0;
    while k < sizes.len()
        invariant
            k <= sizes@.len(),
            groups@.len() == k,
            forall|j: int| 0 <= j < k ==> (#[trigger] groups@[j])@ == runs_of(records@, sizes@[j]),
        decreases sizes@.len() - k,
    {
        groups.push(records_of(records, sizes[k]));
        k += 1;
    }
    groups
}

} // verus!
