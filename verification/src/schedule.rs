//! In which order the contenders run, and what is reported of them.

use crate::stats::{is_median, lemma_middle_of_permutation, lemma_middle_rank, median, middle};
use crate::workload::Load;
use vstd::prelude::*;

verus! {

/// Times that everything is run unmeasured at first.
pub const WARM_UPS: usize = 5;

/// Times that a contender is measured in a row.
pub const SAMPLES: usize = 10;

/// Reports on each load.
pub const REPORTS: usize = 3;

/// Runs in one unmeasured pass over all contenders and loads.
pub const PASS_STEPS: usize = 8;

/// Runs before the first measurement.
pub const WARM_STEPS: usize = 40;

/// Measurements that go into one report.
pub const REPORT_STEPS: usize = 40;

/// Measurements of one load.
pub const LOAD_STEPS: usize = 120;

/// Runs in all.
pub const ALL_STEPS: usize = 280;

/// What is being compared.
#[derive(Clone, Copy, Debug, PartialEq, Eq, Structural)]
pub enum Contender {
    /// Ordinary heap values.
    Mimalloc,
    /// A bump arena for each thread.
    ScopedBump,
    /// One bump arena that the threads take turns with.
    SharedBump,
    /// One buffer that is shared out among the threads.
    Arena,
}

/// The chunk sizes that were found by profiling.
#[derive(Clone, Copy, Debug)]
pub struct ChunkSizes {
    pub full_bump: usize,
    pub light_bump: usize,
    pub full_arena: usize,
    pub light_arena: usize,
}

/// One run: who, with which load, and with what chunk size if any.
#[derive(Clone, Copy, Debug, PartialEq, Eq, Structural)]
pub struct Job {
    pub contender: Contender,
    pub load: Load,
    pub chunk_size: Option<usize>,
}

/// The medians of one round of measurements.
#[derive(Clone, Copy, Debug, PartialEq, Eq, Structural)]
pub struct RoundReport {
    pub load: Load,
    pub round: usize,
    pub mimalloc: u128,
    pub scoped_bump: u128,
    pub shared_bump: u128,
    pub arena: u128,
}

/// The contenders, in the order in which they run.
pub open spec fn contender_at(index: int) -> Contender {
    if index == 0 {
        Contender::Mimalloc
    } else if index == 1 {
        Contender::ScopedBump
    } else if index == 2 {
        Contender::SharedBump
    } else {
        Contender::Arena
    }
}

/// The run of a contender with a load.
pub open spec fn job_of(contender: Contender, load: Load, sizes: ChunkSizes) -> Job {
    let chunk_size = match contender {
        Contender::Mimalloc => None,
        Contender::ScopedBump | Contender::SharedBump => Some(
            match load {
                Load::Full => sizes.full_bump,
                Load::Light => sizes.light_bump,
            },
        ),
        Contender::Arena => Some(
            match load {
                Load::Full => sizes.full_arena,
                Load::Light => sizes.light_arena,
            },
        ),
    };
    Job { contender, load, chunk_size }
}

/// Run number `step`. While warming up, each contender runs with both loads in turn; after
/// that it runs all measurements of a report in a row, first with the full load only and
/// then with the light one.
pub open spec fn job_at(step: int, sizes: ChunkSizes) -> Job {
    if step < WARM_STEPS {
        let load = if step % 2 == 0 {
            Load::Full
        } else {
            Load::Light
        };
        job_of(contender_at(step % PASS_STEPS as int / 2), load, sizes)
    } else {
        job_of(
            contender_at((step - WARM_STEPS) % REPORT_STEPS as int / SAMPLES as int),
            load_at(step),
            sizes,
        )
    }
}

/// The load that is measured at `step`.
pub open spec fn load_at(step: int) -> Load {
    if step < WARM_STEPS + LOAD_STEPS {
        Load::Full
    } else {
        Load::Light
    }
}

/// The number of the report that the measurement at `step` goes into, counted from one.
pub open spec fn round_at(step: int) -> int {
    (step - WARM_STEPS) % LOAD_STEPS as int / REPORT_STEPS as int + 1
}

/// The median of the measurements of contender number `index`.
pub open spec fn contender_median(times: Seq<u128>, index: int) -> u128 {
    middle(times.subrange(index * SAMPLES, (index + 1) * SAMPLES))
}

/// The report on the measurements that end at `step`.
pub open spec fn report_at(step: int, times: Seq<u128>) -> RoundReport {
    RoundReport {
        load: load_at(step),
        round: round_at(step) as usize,
        mimalloc: contender_median(times, 0),
        scoped_bump: contender_median(times, 1),
        shared_bump: contender_median(times, 2),
        arena: contender_median(times, 3),
    }
}

/// Which chunk size goes with a contender and a load: none with the heap, that of the bump
/// with either bump contender, and that of the arena with the arena.
pub open spec fn chunk_belongs(job: Job, sizes: ChunkSizes) -> bool {
    &&& job.contender is Mimalloc ==> job.chunk_size is None
    &&& (job.contender is ScopedBump || job.contender is SharedBump) && job.load is Full
        ==> job.chunk_size == Some(sizes.full_bump)
    &&& (job.contender is ScopedBump || job.contender is SharedBump) && job.load is Light
        ==> job.chunk_size == Some(sizes.light_bump)
    &&& job.contender is Arena && job.load is Full ==> job.chunk_size == Some(sizes.full_arena)
    &&& job.contender is Arena && job.load is Light ==> job.chunk_size == Some(sizes.light_arena)
}

/// Whatever was found by profiling, each run has just the size that was found for its
/// contender and its load, and a run on the heap has none.
pub proof fn lemma_runs_have_their_own_size(
    step: int,
    full_bump: usize,
    light_bump: usize,
    full_arena: usize,
    light_arena: usize,
)
    requires
        0 <= step < 280,
    ensures
        ({
            let job = job_at(
                step,
                ChunkSizes { full_bump, light_bump, full_arena, light_arena },
            );
            match (job.contender, job.load) {
                (Contender::Mimalloc, _) => job.chunk_size is None,
                (Contender::Arena, Load::Full) => job.chunk_size == Some(full_arena),
                (Contender::Arena, Load::Light) => job.chunk_size == Some(light_arena),
                (_, Load::Full) => job.chunk_size == Some(full_bump),
                (_, Load::Light) => job.chunk_size == Some(light_bump),
            }
        }),
{
}

/// Who runs when, and with which load: five passes in which every contender runs with the
/// full and then with the light load, then each contender ten times in a row, three times
/// over, first with the full load and then with the light one.
pub proof fn lemma_runs_in_order(step: int, sizes: ChunkSizes)
    requires
        0 <= step < 280,
    ensures
        ({
            let job = job_at(step, sizes);
            let turn = if step < 40 {
                step / 2 % 4
            } else {
                step / 10 % 4
            };
            &&& turn == 0 ==> job.contender is Mimalloc
            &&& turn == 1 ==> job.contender is ScopedBump
            &&& turn == 2 ==> job.contender is SharedBump
            &&& turn == 3 ==> job.contender is Arena
            &&& job.load is Full <==> if step < 40 {
                step % 2 == 0
            } else {
                step < 160
            }
        }),
{
}

/// How many runs there are of each kind.
pub proof fn lemma_counts_of_runs()
    ensures
        WARM_UPS == 5,
        SAMPLES == 10,
        REPORTS == 3,
        PASS_STEPS == 4 * 2,
        WARM_STEPS == 5 * 8,
        REPORT_STEPS == 4 * 10,
        LOAD_STEPS == 3 * 40,
        ALL_STEPS == 40 + 2 * 120,
{
}

/// Each time in a report is the median of the ten measurements of that contender, which
/// were taken one after the other.
pub proof fn lemma_report_holds_medians(step: int, times: Seq<u128>)
    requires
        times.len() == 40,
    ensures
        is_median(report_at(step, times).mimalloc, times.subrange(0, 10)),
        is_median(report_at(step, times).scoped_bump, times.subrange(10, 20)),
        is_median(report_at(step, times).shared_bump, times.subrange(20, 30)),
        is_median(report_at(step, times).arena, times.subrange(30, 40)),
{
    lemma_middle_rank(times.subrange(0, 10));
    lemma_middle_rank(times.subrange(10, 20));
    lemma_middle_rank(times.subrange(20, 30));
    lemma_middle_rank(times.subrange(30, 40));
}

/// In which order the ten measurements of a contender were taken makes no difference to a
/// report.
pub proof fn lemma_report_ignores_order(step: int, one: Seq<u128>, two: Seq<u128>)
    requires
        one.len() == 40,
        two.len() == 40,
        one.subrange(0, 10).to_multiset() == two.subrange(0, 10).to_multiset(),
        one.subrange(10, 20).to_multiset() == two.subrange(10, 20).to_multiset(),
        one.subrange(20, 30).to_multiset() == two.subrange(20, 30).to_multiset(),
        one.subrange(30, 40).to_multiset() == two.subrange(30, 40).to_multiset(),
    ensures
        report_at(step, one) == report_at(step, two),
{
    lemma_middle_of_permutation(one.subrange(0, 10), two.subrange(0, 10));
    lemma_middle_of_permutation(one.subrange(10, 20), two.subrange(10, 20));
    lemma_middle_of_permutation(one.subrange(20, 30), two.subrange(20, 30));
    lemma_middle_of_permutation(one.subrange(30, 40), two.subrange(30, 40));
}

/// Each load has reports one to three, the full one first, whatever was measured.
pub proof fn lemma_reports_are_numbered(light: bool, report: int, times: Seq<u128>)
    requires
        1 <= report <= 3,
    ensures
        ({
            let end = 40 * report + 39 + if light {
                120int
            } else {
                0
            };
            &&& report_at(end, times).round == report
            &&& report_at(end, times).load is Light <==> light
        }),
{
}

/// Each pass of the warm-up runs every contender with the full and then the light load.
pub proof fn lemma_warm_up_order(pass: int, index: int, light: bool, sizes: ChunkSizes)
    requires
        0 <= pass < WARM_UPS,
        0 <= index < 4,
    ensures
        ({
            let load = if light {
                Load::Light
            } else {
                Load::Full
            };
            let step = pass * PASS_STEPS + 2 * index + if light {
                1int
            } else {
                0
            };
            step < WARM_STEPS && job_at(step, sizes) == job_of(contender_at(index), load, sizes)
        }),
{
}

/// Each report is made from the same number of measurements of every contender, taken in
/// a row, all with the load that is reported on.
pub proof fn lemma_measured_order(light: bool, round: int, index: int, sample: int, sizes: ChunkSizes)
    requires
        0 <= round < REPORTS,
        0 <= index < 4,
        0 <= sample < SAMPLES,
    ensures
        ({
            let load = if light {
                Load::Light
            } else {
                Load::Full
            };
            let section = if light {
                LOAD_STEPS as int
            } else {
                0
            };
            let step = WARM_STEPS + section + round * REPORT_STEPS + index * SAMPLES + sample;
            &&& WARM_STEPS <= step < ALL_STEPS
            &&& job_at(step, sizes) == job_of(contender_at(index), load, sizes)
            &&& load_at(step) == load
            &&& round_at(step) == round + 1
        }),
{
}

/// The measurements since the last report, of all the times that were taken so far.
pub open spec fn since_report(history: Seq<u128>) -> Seq<u128> {
    let count = history.len() as int;
    if count < WARM_STEPS {
        Seq::empty()
    } else {
        history.skip(count - (count - WARM_STEPS) % REPORT_STEPS as int)
    }
}

/// Taking in one time after the other keeps the measurements since the last report, and
/// each report is made from the latest of all times.
pub proof fn lemma_report_covers_latest(history: Seq<u128>, elapsed: u128)
    ensures
        since_report(Seq::<u128>::empty()) == Seq::<u128>::empty(),
        history.len() < WARM_STEPS ==> since_report(history.push(elapsed)) == Seq::<u128>::empty(),
        history.len() >= WARM_STEPS && since_report(history).len() + 1 < REPORT_STEPS
            ==> since_report(history.push(elapsed)) == since_report(history).push(elapsed),
        history.len() >= WARM_STEPS && since_report(history).len() + 1 == REPORT_STEPS ==> {
            &&& since_report(history.push(elapsed)) == Seq::<u128>::empty()
            &&& since_report(history).push(elapsed) == history.push(elapsed).skip(
                history.len() + 1 - REPORT_STEPS,
            )
        },
{
    let longer = history.push(elapsed);
    let pending = since_report(history);
    if history.len() >= WARM_STEPS {
        if pending.len() + 1 < REPORT_STEPS {
            assert(since_report(longer) =~= pending.push(elapsed));
        } else {
            assert(since_report(longer) =~= Seq::<u128>::empty());
            assert(pending.push(elapsed) =~= longer.skip(history.len() + 1 - REPORT_STEPS));
        }
    } else {
        assert(since_report(longer) =~= Seq::<u128>::empty());
    }
}

/// How far a benchmark has come.
pub struct BenchRun {
    sizes: ChunkSizes,
    step: usize,
    times: Vec<u128>,
}

impl BenchRun {
    /// The chunk sizes to run with.
    pub closed spec fn sizes(self) -> ChunkSizes {
        self.sizes
    }

    /// How many runs are done.
    pub closed spec fn step(self) -> usize {
        self.step
    }

    /// The measurements that the next report will be made from, as far as they are taken.
    pub closed spec fn times(self) -> Seq<u128> {
        self.times@
    }

    /// The measurements at hand are those since the last report.
    pub open spec fn wf(self) -> bool {
        &&& self.step() <= ALL_STEPS
        &&& self.times().len() == if self.step() < WARM_STEPS {
            0
        } else {
            (self.step() - WARM_STEPS) % REPORT_STEPS as int
        }
    }

    /// A benchmark that has not begun.
    pub fn new(sizes: ChunkSizes) -> (run: BenchRun)
        ensures
            run.wf(),
            run.sizes() == sizes,
            run.step() == 0,
            run.times() == Seq::<u128>::empty(),
    {
        BenchRun { sizes, step: 0, times: Vec::new() }
    }

    /// The load whose measurements begin with the next run, if they do.
    pub fn heading(&self) -> (load: Option<Load>)
        requires
            self.wf(),
        ensures
            load == if self.step() == WARM_STEPS {
                Some(Load::Full)
            } else if self.step() == WARM_STEPS + LOAD_STEPS {
                Some(Load::Light)
            } else {
                None
            },
            load matches Some(Load::Full) <==> self.step() == 40,
            load matches Some(Load::Light) <==> self.step() == 160,
    {
        if self.step == WARM_STEPS {
            Some(Load::Full)
        } else if self.step == WARM_STEPS + LOAD_STEPS {
            Some(Load::Light)
        } else {
            None
        }
    }

    /// The next run, if any is left.
    pub fn next_job(&self) -> (job: Option<Job>)
        requires
            self.wf(),
        ensures
            job == if self.step() < ALL_STEPS {
                Some(job_at(self.step() as int, self.sizes()))
            } else {
                None
            },
            job is Some <==> self.step() < 280,
            job matches Some(run) ==> chunk_belongs(run, self.sizes()),
    {
        if self.step >= ALL_STEPS {
            return None;
        }
        let load: Load = if self.step < WARM_STEPS {
            if self.step % 2 == 0 {
                Load::Full
            } else {
                Load::Light
            }
        } else if self.step < WARM_STEPS + LOAD_STEPS {
            Load::Full
        } else {
            Load::Light
        };
        let index: usize = if self.step < WARM_STEPS {
            self.step % PASS_STEPS / 2
        } else {
            (self.step - WARM_STEPS) % REPORT_STEPS / SAMPLES
        };
        let contender: Contender = if index == 0 {
            Contender::Mimalloc
        } else if index == 1 {
            Contender::ScopedBump
        } else if index == 2 {
            Contender::SharedBump
        } else {
            Contender::Arena
        };
        let chunk_size: Option<usize> = match (contender, load) {
            (Contender::Mimalloc, _) => None,
            (Contender::Arena, Load::Full) => Some(self.sizes.full_arena),
            (Contender::Arena, Load::Light) => Some(self.sizes.light_arena),
            (_, Load::Full) => Some(self.sizes.full_bump),
            (_, Load::Light) => Some(self.sizes.light_bump),
        };
        Some(Job { contender, load, chunk_size })
    }

    /// Takes in how long the run took. The last measurement of a round gives the report.
    pub fn record(&mut self, elapsed: u128) -> (report: Option<RoundReport>)
        requires
            old(self).wf(),
            old(self).step() < ALL_STEPS,
        ensures
            final(self).wf(),
            final(self).sizes() == old(self).sizes(),
            final(self).step() == old(self).step() + 1,
            old(self).step() < WARM_STEPS ==> {
                &&& report is None
                &&& final(self).times() == Seq::<u128>::empty()
            },
            old(self).step() >= WARM_STEPS && old(self).times().len() + 1 < REPORT_STEPS ==> {
                &&& report is None
                &&& final(self).times() == old(self).times().push(elapsed)
            },
            old(self).step() >= WARM_STEPS && old(self).times().len() + 1 == REPORT_STEPS ==> {
                &&& report == Some(
                    report_at(old(self).step() as int, old(self).times().push(elapsed)),
                )
                &&& final(self).times() == Seq::<u128>::empty()
            },
            report matches Some(made) ==> {
                let measured = old(self).times().push(elapsed);
                &&& measured.len() == 40
                &&& is_median(made.mimalloc, measured.subrange(0, 10))
                &&& is_median(made.scoped_bump, measured.subrange(10, 20))
                &&& is_median(made.shared_bump, measured.subrange(20, 30))
                &&& is_median(made.arena, measured.subrange(30, 40))
            },
    {
        let step: usize = self.step;
        self.step = step + 1;
        if step < WARM_STEPS {
            assert(self.times@ =~= Seq::<u128>::empty());
            return None;
        }
        self.times.push(elapsed);
        if self.times.len() < REPORT_STEPS {
            return None;
        }
        let report = RoundReport {
            load: if step < WARM_STEPS + LOAD_STEPS {
                Load::Full
            } else {
                Load::Light
            },
            round: (step - WARM_STEPS) % LOAD_STEPS / REPORT_STEPS + 1,
            mimalloc: self.median_of(0),
            scoped_bump: self.median_of(1),
            shared_bump: self.median_of(2),
            arena: self.median_of(3),
        };
        proof {
            lemma_report_holds_medians(step as int, self.times@);
        }
        self.times = Vec::new();
        Some(report)
    }

    fn median_of(&self, index: usize) -> (time: u128)
        requires
            index < 4,
            self.times().len() == REPORT_STEPS,
        ensures
            time == contender_median(self.times(), index as int),
            is_median(time, self.times().subrange(10 * index, 10 * index + 10)),
    {
        median(
            vstd::slice::slice_subrange(
                self.times.as_slice(),
                index * SAMPLES,
                (index + 1) * SAMPLES,
            ),
        )
    }
}

/// The mode of a benchmark in words.
pub fn mode_name(smt: bool) -> (name: &'static str)
    ensures
        name@ == if smt {
            "SMT (all logical cores)"@
        } else {
            "NO SMT (physical cores only)"@
        },
{
    if smt {
        "SMT (all logical cores)"
    } else {
        "NO SMT (physical cores only)"
    }
}

} // verus!
