use spliter::{ParSpliter, ParallelSpliterator, Spliterator, Step};


/// Every number of the complete binary tree rooted at 1, down to 2^15.
struct AllNumbers {
    stack: Vec<u32>,
}

impl AllNumbers {
    fn new() -> Self {
        Self { stack: vec![1] }
    }
}

impl Iterator for AllNumbers {
    type Item = u32;

    fn next(&mut self) -> Option<Self::Item> {
        if let Some(n) = self.stack.pop() {
            if n < 1 << 15 {
                self.stack.push(2 * n);
                self.stack.push(2 * n + 1);
            }
            Some(n)
        } else {
            None
        }
    }
}

impl Spliterator for AllNumbers {
    fn split(&mut self) -> Option<Self> {
        let len = self.stack.len();
        if len >= 2 {
            let split = self.stack.split_off(len / 2);
            Some(Self { stack: split })
        } else {
            None
        }
    }
}

fn collect(piece: ParSpliter<AllNumbers>, workers: usize, steal: bool) -> Vec<u32> {
    let mut out = Vec::new();
    piece.run_inline(false, workers, steal, &mut out);
    out
}

fn sorted(mut v: Vec<u32>) -> Vec<u32> {
    v.sort_unstable();
    v
}

#[test]
fn test_par_split() {
    assert_eq!(AllNumbers::new().count(), (1 << 16) - 1);
    assert_eq!(AllNumbers::new().par_split().collect_par(false).len(), (1 << 16) - 1);
}

#[test]
fn count_matches_sequential_for_each_worker_count() {
    for workers in [1usize, 2, 4, 8] {
        let out = collect(ParSpliter::with_workers(AllNumbers::new(), workers), workers, false);
        assert_eq!(out.len(), (1 << 16) - 1);
        let out = collect(ParSpliter::with_workers(AllNumbers::new(), workers), workers, true);
        assert_eq!(out.len(), (1 << 16) - 1);
    }
}

#[test]
fn run_appends_after_what_is_there() {
    let mut out = vec![7, 7];
    ParSpliter::with_workers(AllNumbers { stack: vec![1 << 14] }, 2).run_inline(true, 2, true, &mut out);
    assert_eq!(sorted(out), vec![7, 7, 1 << 14, 1 << 15, (1 << 15) + 1]);
    let mut out = Vec::new();
    ParSpliter::with_workers(AllNumbers { stack: vec![] }, 2).run_inline(false, 2, false, &mut out);
    assert!(out.is_empty());
}

#[test]
fn parallel_collect_matches_sequential_for_each_pool_size() {
    let expected: Vec<u32> = sorted(AllNumbers::new().collect());
    for threads in [1usize, 2, 4, 8] {
        let pool = rayon::ThreadPoolBuilder::new().num_threads(threads).build().unwrap();
        let out = pool.install(|| AllNumbers::new().par_split().collect_par(false));
        assert_eq!(out.len(), (1 << 16) - 1);
        assert_eq!(sorted(out), expected);
    }
}

#[test]
fn parallel_collect_of_a_stolen_piece() {
    let mut p = ParSpliter::with_workers(AllNumbers::new(), 0);
    assert!(p.split().is_none());
    let out = p.collect_par(true);
    assert_eq!(out.len(), (1 << 16) - 1);
    let out = ParSpliter::with_workers(AllNumbers { stack: vec![] }, 4).collect_par(false);
    assert!(out.is_empty());
}

#[test]
fn count_with_no_budget_is_sequential() {
    let out = collect(ParSpliter::with_workers(AllNumbers::new(), 0), 0, true);
    assert_eq!(out, AllNumbers::new().collect::<Vec<u32>>());
}

#[test]
fn items_match_sequential_as_multiset() {
    let expected: Vec<u32> = (1..(1u32 << 16)).collect();
    for workers in [1usize, 3, 8, 64] {
        for steal in [false, true] {
            let out = collect(ParSpliter::with_workers(AllNumbers::new(), workers), workers, steal);
            assert_eq!(sorted(out), expected);
        }
    }
}

#[test]
fn one_split_conserves_items() {
    let mut a = AllNumbers::new();
    for _ in 0..10 {
        a.next();
    }
    let mut rest = AllNumbers::new();
    for _ in 0..10 {
        rest.next();
    }
    let b = a.split().expect("a stack of several items splits");
    assert!(!a.stack.is_empty() && !b.stack.is_empty());
    let mut halves: Vec<u32> = a.collect();
    halves.extend(b);
    assert_eq!(sorted(halves), sorted(rest.collect()));
}

#[test]
fn sum_is_the_same_for_any_split_points() {
    let expected: u64 = AllNumbers::new().map(u64::from).sum();
    assert_eq!(expected, 65535 * 65536 / 2);
    for workers in [1usize, 2, 5, 16] {
        for steal in [false, true] {
            let out = collect(ParSpliter::with_workers(AllNumbers::new(), workers), workers, steal);
            assert_eq!(out.iter().copied().map(u64::from).sum::<u64>(), expected);
        }
    }
}

#[test]
fn early_exit_matches_sequential_search() {
    for target in [1u32, 12345, 65535, 70000] {
        let sequential = AllNumbers::new().any(|n| n == target);
        for workers in [1usize, 4, 8] {
            for steal in [false, true] {
                let piece = ParSpliter::with_workers(AllNumbers::new(), workers);
                let found = piece.any_inline(false, workers, steal, &|n: &u32| *n == target);
                assert_eq!(found, sequential);
            }
        }
    }
    assert!(AllNumbers::new().any(|n| n == 12345));
    assert!(!AllNumbers::new().any(|n| n == 70000));
}

#[test]
fn early_exit_stops_pulling() {
    let calls = std::cell::Cell::new(0u32);
    let piece = ParSpliter::with_workers(AllNumbers::new(), 1);
    let found = piece.any_inline(false, 1, false, &|n: &u32| {
        calls.set(calls.get() + 1);
        *n == 1
    });
    assert!(found);
    assert_eq!(calls.get(), 1);
}

#[test]
fn early_exit_on_empty_sequence_is_false() {
    let piece = ParSpliter::with_workers(AllNumbers { stack: vec![] }, 4);
    assert!(!piece.any_inline(false, 4, true, &|_: &u32| true));
}

#[test]
fn growing_work_after_a_split_is_still_counted() {
    let mut p = ParSpliter::with_workers(AllNumbers::new(), 8);
    // One item pending: no split, the root is pulled and pushes two more.
    match p.step(false) {
        Step::Item(n) => assert_eq!(n, 1),
        _ => panic!("a single pending item is pulled, not split"),
    }
    assert_eq!(p.iter.stack, vec![2, 3]);
    let other = match p.step(false) {
        Step::Fork(other) => other,
        _ => panic!("two pending items with budget left are split"),
    };
    assert_eq!(p.splits, 4);
    assert_eq!(other.splits, 4);
    assert_eq!(p.iter.stack, vec![2]);
    assert_eq!(other.iter.stack, vec![3]);
    let left = collect(p, 8, false);
    let right = collect(other, 8, false);
    assert_eq!(left.len() + right.len(), (1 << 16) - 2);
}

#[test]
fn split_needs_budget() {
    let mut p = ParSpliter::with_workers(AllNumbers { stack: vec![1, 2, 3, 4] }, 0);
    assert!(p.split().is_none());
    assert_eq!(p.splits, 0);
    assert_eq!(p.iter.stack, vec![1, 2, 3, 4]);
}

#[test]
fn split_halves_budget_of_both_pieces() {
    let mut p = ParSpliter::with_workers(AllNumbers { stack: vec![1, 2, 3, 4] }, 5);
    let q = p.split().expect("budget and work are there");
    assert_eq!(p.splits, 2);
    assert_eq!(q.splits, 2);
    assert_eq!(p.iter.stack, vec![1, 2]);
    assert_eq!(q.iter.stack, vec![3, 4]);
    let mut p = ParSpliter::with_workers(AllNumbers { stack: vec![1, 2] }, 1);
    let q = p.split().expect("budget and work are there");
    assert_eq!((p.splits, q.splits), (0, 0));
}

#[test]
fn refused_split_keeps_budget() {
    let mut p = ParSpliter::with_workers(AllNumbers { stack: vec![7] }, 6);
    assert!(p.split().is_none());
    assert_eq!(p.splits, 6);
    assert_eq!(p.iter.stack, vec![7]);
}

#[test]
fn full_accumulator_stops_before_any_work() {
    let mut p = ParSpliter::with_workers(AllNumbers { stack: vec![1, 2, 3] }, 4);
    assert!(matches!(p.step(true), Step::Stop));
    assert_eq!(p.splits, 4);
    assert_eq!(p.iter.stack, vec![1, 2, 3]);
}

#[test]
fn step_pulls_when_budget_is_spent() {
    let mut p = ParSpliter::with_workers(AllNumbers { stack: vec![1 << 15, 5] }, 0);
    assert!(matches!(p.step(false), Step::Item(5)));
    assert_eq!(p.iter.stack, vec![1 << 15, 10, 11]);
    assert!(matches!(p.step(false), Step::Item(11)));
    let mut q = ParSpliter::with_workers(AllNumbers { stack: vec![] }, 3);
    assert!(matches!(q.step(false), Step::Stop));
    assert_eq!(q.splits, 3);
}

#[test]
fn restart_resets_budget_only_when_stolen() {
    let mut p = ParSpliter::with_workers(AllNumbers::new(), 1);
    p.restart(false, 16);
    assert_eq!(p.splits, 1);
    p.restart(true, 16);
    assert_eq!(p.splits, 16);
    p.resume(false);
    assert_eq!(p.splits, 16);
    p.resume(true);
    assert_eq!(p.splits, rayon::current_num_threads());
}

#[test]
fn stolen_piece_with_spent_budget_splits_again() {
    let mut p = ParSpliter::with_workers(AllNumbers { stack: vec![1, 2, 3, 4] }, 0);
    assert!(p.split().is_none());
    p.resume(true);
    assert!(p.splits >= 1);
    let q = p.split().expect("a fresh budget allows a split");
    assert_eq!(p.iter.stack.len() + q.iter.stack.len(), 4);
}

#[test]
fn new_takes_pool_size_as_budget() {
    let p = AllNumbers::new().par_split();
    assert_eq!(p.splits, rayon::current_num_threads());
    assert!(p.splits >= 1);
    assert_eq!(p.iter.stack, vec![1]);
}
