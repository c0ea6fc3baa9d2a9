use shared_iter::ReadOutcome;
use shared_iter::SharedCore;

#[test]
fn six_cursors_counter_all_equal() {
    // Six cursors over an unbounded counting source, read round robin: each
    // takes ten values and all see 1..=10, while the source is pulled only
    // ten times in all.
    let (mut core, root) = SharedCore::new();
    let mut ids = vec![root];
    for _ in 0..5 {
        ids.push(core.clone_cursor());
    }
    let mut next_val: u64 = 1;
    let mut pulls: usize = 0;
    let mut results: Vec<Vec<u64>> = vec![Vec::new(); 6];
    for _round in 0..10 {
        for (i, &id) in ids.iter().enumerate() {
            match core.try_read(id) {
                ReadOutcome::Value(v) => results[i].push(v),
                ReadOutcome::NeedPull => {
                    let got = core.deliver(id, Some(next_val));
                    next_val += 1;
                    pulls += 1;
                    results[i].push(got.unwrap());
                }
                _ => panic!("unexpected outcome"),
            }
        }
    }
    let expect: Vec<u64> = (1..=10).collect();
    for r in &results {
        assert_eq!(r, &expect);
    }
    assert_eq!(pulls, 10);
}

#[test]
fn end_of_sequence_is_permanent() {
    let (mut core, root) = SharedCore::new();
    match core.try_read(root) {
        ReadOutcome::NeedPull => {
            assert_eq!(core.deliver(root, Some(5u64)), Some(5));
        }
        _ => panic!("fresh core must ask for a pull"),
    }
    match core.try_read(root) {
        ReadOutcome::NeedPull => {
            assert_eq!(core.deliver(root, None), None);
        }
        _ => panic!("core must ask for the second pull"),
    }
    for _ in 0..3 {
        assert!(matches!(core.try_read(root), ReadOutcome::EndOfSequence));
    }
    assert!(core.is_finished());
    assert_eq!(core.produced_count(), 1);
}

#[test]
fn sole_cursor_retains_nothing() {
    // With a single cursor every delivered value is consumed at once, so the
    // ledger stays empty however long the sequence runs.
    let (mut core, root) = SharedCore::new();
    for i in 0..50u64 {
        match core.try_read(root) {
            ReadOutcome::NeedPull => {
                assert_eq!(core.deliver(root, Some(i)), Some(i));
            }
            _ => panic!("sole cursor must always pull"),
        }
        assert_eq!(core.retained_count(), 0);
        assert_eq!(core.position(root), (i + 1) as usize);
    }
    assert_eq!(core.produced_count(), 50);
}
