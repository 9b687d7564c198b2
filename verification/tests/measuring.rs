use arena_bench::cores::{cores_from_answer, get_cores, select_cores};
use arena_bench::platform::{
    after_huge, alloc_normal, lock_memory, try_alloc_huge, AllocStep, LockAnswer, RawAllocation,
};
use arena_bench::schedule::{mode_name, BenchRun, ChunkSizes, Contender, Job, RoundReport};
use arena_bench::sizing::{recommended_chunk_size, total_capacity, whole_mebibytes};
use arena_bench::stats::median;
use arena_bench::workload::Load;

const MIB: usize = 1024 * 1024;

#[test]
fn median_takes_the_upper_middle() {
    assert_eq!(median(&[7]), 7);
    assert_eq!(median(&[9, 1]), 9);
    assert_eq!(median(&[5, 3, 8]), 5);
    assert_eq!(median(&[10, 1, 9, 2, 8, 3, 7, 4, 6, 5]), 6);
    assert_eq!(median(&[4, 4, 4, 1]), 4);
    assert_eq!(median(&[u128::MAX, 0, u128::MAX]), u128::MAX);
}

#[test]
fn median_does_not_depend_on_the_order() {
    let times = [12u128, 5, 40, 7, 7, 3];
    let mut turned = times;
    turned.reverse();
    assert_eq!(median(&times), median(&turned));
    assert_eq!(times[0], 12);
}

#[test]
fn median_splits_the_measurements() {
    let times = [3u128, 1, 4, 1, 5, 9, 2, 6];
    let mark = median(&times);
    assert!(times.contains(&mark));
    assert!(times.iter().filter(|time| **time < mark).count() <= times.len() / 2);
    assert!(times.iter().filter(|time| **time <= mark).count() > times.len() / 2);
}

#[test]
fn chunk_sizes_are_rounded_up_to_mebibytes() {
    assert_eq!(recommended_chunk_size(0, 120), Some(0));
    assert_eq!(recommended_chunk_size(1, 120), Some(MIB));
    assert_eq!(recommended_chunk_size(MIB, 100), Some(MIB));
    assert_eq!(recommended_chunk_size(MIB + 1, 100), Some(2 * MIB));
    assert_eq!(recommended_chunk_size(100 * MIB, 120), Some(120 * MIB));
    assert_eq!(recommended_chunk_size(281_280_000, 105), Some(282 * MIB));
    assert_eq!(recommended_chunk_size(70_320_000, 105), Some(71 * MIB));
}

#[test]
fn chunk_sizes_beyond_a_word_are_refused() {
    assert_eq!(recommended_chunk_size(usize::MAX / 120, 120), Some((usize::MAX / 100 + MIB - 1) / MIB * MIB));
    assert_eq!(recommended_chunk_size(usize::MAX / 120 + 1, 120), None);
    assert_eq!(recommended_chunk_size(usize::MAX, 1), Some((usize::MAX / 100 + MIB - 1) / MIB * MIB));
    assert_eq!(recommended_chunk_size(usize::MAX, 0), Some(0));
}

#[test]
fn total_capacity_multiplies() {
    assert_eq!(total_capacity(MIB, 8), Some(8 * MIB));
    assert_eq!(total_capacity(5, 0), Some(0));
    assert_eq!(total_capacity(usize::MAX, 1), Some(usize::MAX));
    assert_eq!(total_capacity(usize::MAX, 2), None);
}

#[test]
fn whole_mebibytes_rounds_down() {
    assert_eq!(whole_mebibytes(MIB - 1), 0);
    assert_eq!(whole_mebibytes(282 * MIB + 5), 282);
}

#[test]
fn cores_without_multithreading_are_the_first_physical_ones() {
    let all = vec![0, 1, 4, 5];
    assert_eq!(select_cores(all.clone(), 2, true), vec![0, 1, 4, 5]);
    assert_eq!(select_cores(all.clone(), 2, false), vec![0, 1]);
    assert_eq!(select_cores(all.clone(), 4, false), all);
    assert_eq!(select_cores(all.clone(), 9, false), all);
    assert_eq!(select_cores(Vec::new(), 1, false), Vec::new());
}

#[test]
fn cores_follow_the_answer_of_the_system() {
    assert_eq!(cores_from_answer(None, 4, true), None);
    assert_eq!(cores_from_answer(None, 4, false), None);
    assert_eq!(cores_from_answer(Some(Vec::new()), 4, true), Some(Vec::new()));
    assert_eq!(cores_from_answer(Some(vec![2, 3, 6]), 1, true), Some(vec![2, 3, 6]));
    assert_eq!(cores_from_answer(Some(vec![2, 3, 6]), 2, false), Some(vec![2, 3]));
}

#[test]
fn cores_are_those_of_the_system() {
    let expected: Option<Vec<usize>> =
        core_affinity::get_core_ids().map(|ids| ids.iter().map(|core| core.id).collect());
    assert_eq!(get_cores(true), expected);
    if let Some(all) = expected {
        let physical = num_cpus::get_physical();
        assert!(physical >= 1);
        assert_eq!(get_cores(false), Some(select_cores(all, physical, false)));
    }
}

#[test]
fn cores_come_in_ascending_order() {
    for smt in [true, false] {
        if let Some(cores) = get_cores(smt) {
            assert!(cores.windows(2).all(|pair| pair[0] < pair[1]));
        }
    }
}

#[test]
fn huge_pages_may_be_refused() {
    assert_eq!(try_alloc_huge(usize::MAX, usize::MAX, 4096), None);
    assert!(
        try_alloc_huge(0x1000, usize::MAX, 4096)
            == Some(RawAllocation { addr: 0x1000, size: 4096, is_huge: true })
    );
    assert!(try_alloc_huge(0, 0, 4096).is_none());
}

#[test]
fn ordinary_pages_are_not_huge() {
    let alloc = alloc_normal(0x2000, usize::MAX, 8192);
    assert!(alloc == RawAllocation { addr: 0x2000, size: 8192, is_huge: false });
}

#[test]
fn ordinary_pages_are_asked_for_only_without_huge_ones() {
    let huge = RawAllocation { addr: 0x1000, size: 4096, is_huge: true };
    assert!(after_huge(Some(huge)) == AllocStep::Use(huge));
    assert!(after_huge(None) == AllocStep::AskOrdinary);
    assert!(after_huge(try_alloc_huge(7, 7, 4096)) == AllocStep::AskOrdinary);
    assert!(after_huge(try_alloc_huge(0x1000, 7, 4096)) == AllocStep::Use(huge));
}

#[test]
fn systems_say_differently_that_memory_is_locked() {
    assert!(lock_memory(0, LockAnswer::Zero));
    assert!(!lock_memory(-1, LockAnswer::Zero));
    assert!(lock_memory(1, LockAnswer::NonZero));
    assert!(!lock_memory(0, LockAnswer::NonZero));
}

fn sizes() -> ChunkSizes {
    ChunkSizes { full_bump: 1, light_bump: 2, full_arena: 3, light_arena: 4 }
}

fn job(contender: Contender, load: Load) -> Job {
    let chunk_size = match (contender, load) {
        (Contender::Mimalloc, _) => None,
        (Contender::Arena, Load::Full) => Some(3),
        (Contender::Arena, Load::Light) => Some(4),
        (_, Load::Full) => Some(1),
        (_, Load::Light) => Some(2),
    };
    Job { contender, load, chunk_size }
}

const CONTENDERS: [Contender; 4] =
    [Contender::Mimalloc, Contender::ScopedBump, Contender::SharedBump, Contender::Arena];

#[test]
fn benchmark_runs_in_the_announced_order() {
    let mut expected = Vec::new();
    for _ in 0..5 {
        for contender in CONTENDERS {
            expected.push(job(contender, Load::Full));
            expected.push(job(contender, Load::Light));
        }
    }
    for load in [Load::Full, Load::Light] {
        for _ in 0..3 {
            for contender in CONTENDERS {
                for _ in 0..10 {
                    expected.push(job(contender, load));
                }
            }
        }
    }
    let mut run = BenchRun::new(sizes());
    let mut headings = Vec::new();
    let mut done = 0;
    while let Some(next) = run.next_job() {
        if let Some(load) = run.heading() {
            headings.push((done, load == Load::Full));
        }
        assert!(next == expected[done]);
        run.record(0);
        done += 1;
    }
    assert_eq!(done, expected.len());
    assert_eq!(done, 280);
    assert_eq!(headings, vec![(40, true), (160, false)]);
}

#[test]
fn reports_hold_the_medians_of_their_round() {
    let mut run = BenchRun::new(sizes());
    let mut reports: Vec<RoundReport> = Vec::new();
    let mut step: u128 = 0;
    while run.next_job().is_some() {
        if let Some(report) = run.record(step) {
            assert_eq!((step - 40) % 40, 39);
            reports.push(report);
        }
        step += 1;
    }
    assert_eq!(reports.len(), 6);
    for (index, report) in reports.iter().enumerate() {
        let first = 40 + 40 * index as u128;
        let load = if index < 3 { Load::Full } else { Load::Light };
        assert!(
            *report
                == RoundReport {
                    load,
                    round: index % 3 + 1,
                    mimalloc: first + 5,
                    scoped_bump: first + 15,
                    shared_bump: first + 25,
                    arena: first + 35,
                }
        );
    }
}

#[test]
fn warm_up_times_are_not_reported() {
    let mut run = BenchRun::new(sizes());
    for _ in 0..40 {
        assert!(run.record(1_000_000).is_none());
    }
    for _ in 0..39 {
        assert!(run.record(1).is_none());
    }
    let report = run.record(1).unwrap();
    assert_eq!(report.mimalloc, 1);
    assert_eq!(report.arena, 1);
}

#[test]
fn modes_have_names() {
    assert_eq!(mode_name(true), "SMT (all logical cores)");
    assert_eq!(mode_name(false), "NO SMT (physical cores only)");
}
