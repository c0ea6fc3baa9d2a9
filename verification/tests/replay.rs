use shared_iter::ReadOutcome;
use shared_iter::Replay;

fn drain_n<T: Copy>(shared: &mut Replay<T>, id: usize, n: usize) -> Vec<T> {
    let mut out = Vec::new();
    for _ in 0..n {
        match shared.next(id) {
            ReadOutcome::Value(v) => out.push(v),
            _ => break,
        }
    }
    out
}

#[test]
fn test_iter() {
    let (mut shared, root) = Replay::new((1..20).collect::<Vec<u64>>());
    let clone_id = shared.clone_cursor();
    assert_eq!(
        drain_n(&mut shared, root, 10),
        drain_n(&mut shared, clone_id, 10)
    );
}

#[test]
fn root_and_clone_each_take_ten() {
    let (mut shared, root) = Replay::new((1..20).collect::<Vec<u64>>());
    let clone_id = shared.clone_cursor();
    let expect: Vec<u64> = (1..=10).collect();
    assert_eq!(drain_n(&mut shared, root, 10), expect);
    assert_eq!(drain_n(&mut shared, clone_id, 10), expect);
}

#[test]
fn drained_source_stays_ended() {
    let (mut shared, root) = Replay::new(vec!['a', 'b', 'c']);
    assert_eq!(drain_n(&mut shared, root, 5), vec!['a', 'b', 'c']);
    for _ in 0..3 {
        assert!(matches!(shared.next(root), ReadOutcome::EndOfSequence));
    }
}

#[test]
fn released_clone_does_not_block_drain() {
    let (mut shared, root) = Replay::new((1..=5).collect::<Vec<u64>>());
    let clone_id = shared.clone_cursor();
    shared.release(clone_id);
    let expect: Vec<u64> = (1..=5).collect();
    assert_eq!(drain_n(&mut shared, root, 10), expect);
    assert!(matches!(shared.next(root), ReadOutcome::EndOfSequence));
}

#[test]
fn release_midway_keeps_other_reads() {
    let (mut shared, root) = Replay::new((1..=8).collect::<Vec<u64>>());
    let clone_id = shared.clone_cursor();
    assert_eq!(drain_n(&mut shared, root, 3), vec![1, 2, 3]);
    assert_eq!(drain_n(&mut shared, clone_id, 1), vec![1]);
    shared.release(clone_id);
    assert_eq!(drain_n(&mut shared, root, 10), vec![4, 5, 6, 7, 8]);
}

#[test]
fn late_clone_reads_stale() {
    let (mut shared, root) = Replay::new((1..=4).collect::<Vec<u64>>());
    assert_eq!(drain_n(&mut shared, root, 2), vec![1, 2]);
    let clone_id = shared.clone_cursor();
    assert!(matches!(shared.next(clone_id), ReadOutcome::StaleRead));
    assert_eq!(drain_n(&mut shared, root, 2), vec![3, 4]);
}

#[test]
fn lockstep_retains_at_most_window() {
    let (mut shared, root) = Replay::new((0..100).collect::<Vec<u64>>());
    let clone_id = shared.clone_cursor();
    for i in 0..100u64 {
        match shared.next(root) {
            ReadOutcome::Value(v) => assert_eq!(v, i),
            _ => panic!("root expected a value"),
        }
        assert!(shared.retained_count() <= 1);
        match shared.next(clone_id) {
            ReadOutcome::Value(v) => assert_eq!(v, i),
            _ => panic!("clone expected a value"),
        }
        assert_eq!(shared.retained_count(), 0);
    }
}

#[test]
fn cursor_lifecycle_bookkeeping() {
    let (mut shared, root) = Replay::new(vec![1u64, 2, 3]);
    assert_eq!(shared.live_count(), 1);
    assert!(shared.is_live(root));
    let clone_id = shared.clone_cursor();
    assert_eq!(shared.live_count(), 2);
    assert_eq!(shared.position(clone_id), 0);
    assert_eq!(drain_n(&mut shared, root, 2), vec![1, 2]);
    assert_eq!(shared.position(root), 2);
    assert_eq!(shared.position(clone_id), 0);
    shared.release(clone_id);
    assert_eq!(shared.live_count(), 1);
    assert!(!shared.is_live(clone_id));
}

#[test]
fn empty_source_is_end_at_once() {
    let (mut shared, root) = Replay::new(Vec::<u64>::new());
    assert!(matches!(shared.next(root), ReadOutcome::EndOfSequence));
    assert!(matches!(shared.next(root), ReadOutcome::EndOfSequence));
}
