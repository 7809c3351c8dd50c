use riffle::sequence::{failure, preview_of, Outcome, SequenceState};

#[test]
fn a_second_run_is_refused_until_the_first_one_ends() {
    let mut state: SequenceState<&str> = SequenceState::new();
    let first = state.begin(|_| "first").unwrap();
    let refused = state.begin(|_| unreachable!());
    assert_eq!(refused, Err("a sequence run is already in progress".to_string()));
    state.finish(first);
    let second = state.begin(|_| "second");
    assert_eq!(second, Ok(first + 1));
}

#[test]
fn finishing_another_run_keeps_the_one_in_progress() {
    let mut state: SequenceState<&str> = SequenceState::new();
    let id = state.begin(|_| "task").unwrap();
    state.finish(id + 1);
    assert_eq!(state.running(id), Some(&"task"));
    assert_eq!(state.running(id + 1), None);
    state.finish(id);
    assert_eq!(state.running(id), None);
}

#[test]
fn a_preview_keeps_the_placed_files_in_order_and_lists_the_failures() {
    let results: Vec<(String, Outcome)> = vec![
        (
            "/e/DSC00001.jpg".to_string(),
            Ok(("2024:01:02 03:04:58".to_string(), "2024:01:02 03:04:58".to_string(), false)),
        ),
        ("/e/broken.jpg".to_string(), Err("not a jpeg".to_string())),
        (
            "/e/L1000001.jpg".to_string(),
            Ok(("2024:01:02 03:04:58".to_string(), "2024:01:02 03:04:59".to_string(), true)),
        ),
    ];
    let preview = preview_of("/export-sequenced".to_string(), false, &results);
    assert_eq!(preview.output_dir, "/export-sequenced");
    assert!(!preview.output_exists);
    let rows: Vec<(&str, &str, &str, bool)> = preview
        .rows
        .iter()
        .map(|r| (r.path.as_str(), r.old.as_str(), r.new.as_str(), r.changed))
        .collect();
    assert_eq!(
        rows,
        [
            ("/e/DSC00001.jpg", "2024:01:02 03:04:58", "2024:01:02 03:04:58", false),
            ("/e/L1000001.jpg", "2024:01:02 03:04:58", "2024:01:02 03:04:59", true),
        ]
    );
    assert_eq!(preview.failed, vec![failure("/e/broken.jpg", "not a jpeg")]);
}

#[test]
fn the_stored_task_is_the_one_spawned_for_the_new_id() {
    let mut state: SequenceState<u64> = SequenceState::new();
    let id = state.begin(|id| id * 10).unwrap();
    assert_eq!(state.running(id), Some(&(id * 10)));
}
