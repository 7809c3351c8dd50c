use riffle::writes::WriteQueue;

#[test]
fn a_later_update_of_a_path_replaces_the_waiting_write() {
    let mut queue: WriteQueue<&str> = WriteQueue::new();
    queue.set("/d/a.ARW".to_string(), "first", 100);
    queue.set("/d/b.ARW".to_string(), "other", 50);
    queue.set("/d/a.ARW".to_string(), "second", 300);
    assert_eq!(queue.next_wait(0), Some(50));
    let due = queue.take_due(Some(100));
    let paths: Vec<&str> = due.iter().map(|w| w.path.as_str()).collect();
    assert_eq!(paths, ["/d/b.ARW"]);
    assert_eq!(queue.next_wait(100), Some(200));
    let rest = queue.take_due(None);
    assert_eq!(rest.len(), 1);
    assert_eq!((rest[0].item, rest[0].deadline, rest[0].attempts), ("second", 300, 0));
    assert!(queue.is_empty());
    assert_eq!(queue.next_wait(0), None);
}

#[test]
fn a_failed_write_is_retried_later_until_its_retries_run_out() {
    let mut queue: WriteQueue<u8> = WriteQueue::new();
    assert_eq!(queue.retry("/d/a.ARW".to_string(), 1, 1, 1000, false), Some(1));
    assert_eq!(queue.next_wait(1000), Some(1000));
    let due = queue.take_due(Some(2000));
    assert_eq!((due[0].attempts, due[0].deadline), (1, 2000));
    assert_eq!(queue.retry("/d/a.ARW".to_string(), 1, 2, 2000, false), Some(2));
    assert_eq!(queue.next_wait(2000), Some(2000));
    queue.take_due(None);
    assert_eq!(queue.retry("/d/a.ARW".to_string(), 1, 1, 0, true), None);
    assert_eq!(queue.retry("/d/a.ARW".to_string(), 1, 100, 0, false), None);
    assert!(queue.is_empty());
}
