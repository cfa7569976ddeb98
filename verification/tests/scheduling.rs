use rpytest::scheduler::TestScheduler;

#[test]
fn test_schedule_ordering() {
    let scheduler = TestScheduler::new();
    let node_ids = vec!["test_a".to_string(), "test_b".to_string(), "test_c".to_string()];

    // Without history, should maintain order
    let result = scheduler.schedule(&node_ids, false, &[]);
    assert_eq!(result, node_ids);
}

#[test]
fn test_failed_first_priority() {
    let scheduler = TestScheduler::new();
    let node_ids = vec!["test_a".to_string(), "test_b".to_string(), "test_c".to_string()];
    let recent_failures = vec!["test_b".to_string()];

    let result = scheduler.schedule(&node_ids, true, &recent_failures);
    // test_b should be first
    assert_eq!(result[0], "test_b");
}

#[test]
fn test_duration_update() {
    let mut scheduler = TestScheduler::new();
    scheduler.update_duration("test_a", 100);
    scheduler.update_duration("test_a", 200);

    let duration = scheduler.get_estimated_duration("test_a");
    // Should be around 175 (weighted average favoring recent)
    assert!(duration >= 150 && duration <= 200);
}

#[test]
fn test_split_balanced_empty() {
    let scheduler = TestScheduler::new();
    let result = scheduler.split_balanced(&[], 4);
    assert_eq!(result.len(), 1);
    assert!(result[0].is_empty());
}

#[test]
fn test_split_balanced_single_worker() {
    let scheduler = TestScheduler::new();
    let node_ids = vec!["a".to_string(), "b".to_string(), "c".to_string()];
    let result = scheduler.split_balanced(&node_ids, 1);
    assert_eq!(result.len(), 1);
    assert_eq!(result[0].len(), 3);
}

#[test]
fn test_split_balanced_even_distribution() {
    let mut scheduler = TestScheduler::new();
    // Create tests with known durations
    scheduler.update_duration("slow", 1000);
    scheduler.update_duration("medium1", 500);
    scheduler.update_duration("medium2", 500);
    scheduler.update_duration("fast1", 100);
    scheduler.update_duration("fast2", 100);

    let node_ids = vec![
        "slow".to_string(),
        "medium1".to_string(),
        "medium2".to_string(),
        "fast1".to_string(),
        "fast2".to_string(),
    ];

    let batches = scheduler.split_balanced(&node_ids, 2);
    assert_eq!(batches.len(), 2);

    // Calculate total duration per batch
    let batch1_duration: u64 =
        batches[0].iter().map(|id| scheduler.get_estimated_duration(id)).sum();
    let batch2_duration: u64 =
        batches[1].iter().map(|id| scheduler.get_estimated_duration(id)).sum();

    // Batches should be reasonably balanced (within 50% of each other)
    let max_dur = batch1_duration.max(batch2_duration);
    let min_dur = batch1_duration.min(batch2_duration);
    assert!(
        max_dur <= min_dur * 2,
        "Batches not balanced: {} vs {}",
        batch1_duration,
        batch2_duration
    );
}

#[test]
fn estimate_of_two_durations_weights_the_recent_one() {
    let mut scheduler = TestScheduler::new();
    scheduler.update_duration("t", 100);
    scheduler.update_duration("t", 200);
    // (100 + 2 * 200) / 3
    assert_eq!(scheduler.get_estimated_duration("t"), 166);
    assert_eq!(scheduler.get_estimated_duration("unknown"), 1000);
    for d in 0..12u64 {
        scheduler.update_duration("u", d);
    }
    assert_eq!(scheduler.get_history("u").unwrap().len(), 10);
    assert_eq!(scheduler.tracked_count(), 2);
    scheduler.clear_history();
    assert_eq!(scheduler.tracked_count(), 0);
}

#[test]
fn tracked_count_grows_only_for_new_tests() {
    let mut scheduler = TestScheduler::new();
    scheduler.update_duration("t1", 100);
    assert_eq!(scheduler.tracked_count(), 1);
    scheduler.update_duration("t1", 200);
    assert_eq!(scheduler.tracked_count(), 1);
    scheduler.update_duration("t2", 50);
    assert_eq!(scheduler.tracked_count(), 2);
    assert_eq!(scheduler.get_history("t1").unwrap(), &vec![100, 200]);
}
