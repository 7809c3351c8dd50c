use riffle::index::{
    evict_stops, face_catch_code, face_catch_from_code, face_catch_name, files_to_extract, flag_code,
    flag_from_code, flag_name, parse_flag, sidecar_action, stale_rows, Batcher, EvictPolicy,
    FaceCatch, FileStat, Flag, RatingRow, SidecarAction, MAX_AGE_SECS, MAX_BYTES,
};
use riffle::index::{migration_plan, Migration, SCHEMA_VERSION};
use riffle::index::{
    oversize_message, sidecar_problem, sidecar_too_large, writable_rows, MAX_SIDECAR_BYTES,
};

#[test]
fn a_flag_round_trips_through_its_code_and_its_name() {
    for flag in [Flag::Unflagged, Flag::Pick, Flag::Reject] {
        assert_eq!(flag_from_code(flag_code(flag)), flag);
        assert_eq!(parse_flag(flag_name(flag)), Ok(flag));
    }
    assert_eq!(flag_name(Flag::Unflagged), "none");
    assert_eq!(flag_code(Flag::Reject), 2);
    assert_eq!(flag_from_code(7), Flag::Unflagged);
    assert_eq!(parse_flag("maybe"), Err("unknown flag \"maybe\"".to_string()));
}

#[test]
fn the_face_catch_state_round_trips_as_a_code() {
    for state in [FaceCatch::Caught, FaceCatch::Missed, FaceCatch::Unknown] {
        assert_eq!(face_catch_from_code(face_catch_code(state)), state);
    }
    assert_eq!(face_catch_name(FaceCatch::Caught), "caught");
    assert_eq!(face_catch_name(FaceCatch::Missed), "missed");
    assert_eq!(face_catch_name(FaceCatch::Unknown), "unknown");
    assert_eq!(face_catch_code(FaceCatch::Unknown), 0);
    assert_eq!(face_catch_from_code(-1), FaceCatch::Unknown);
}

fn row(size: Option<i64>, mtime_ns: Option<i64>, dirty: bool) -> Option<RatingRow> {
    Some(RatingRow { size, mtime_ns, dirty })
}

#[test]
fn a_changed_sidecar_is_parsed_and_a_deleted_one_clears_a_clean_row() {
    assert_eq!(sidecar_action(None, Some((10, 20))), SidecarAction::Parse { dirty: false });
    assert_eq!(sidecar_action(row(Some(10), Some(20), true), Some((10, 20))), SidecarAction::Keep);
    assert_eq!(
        sidecar_action(row(Some(10), Some(20), true), Some((10, 21))),
        SidecarAction::Parse { dirty: true }
    );
    assert_eq!(sidecar_action(row(Some(10), Some(20), false), None), SidecarAction::Clear);
    assert_eq!(sidecar_action(row(Some(10), Some(20), true), None), SidecarAction::Keep);
    assert_eq!(sidecar_action(row(None, None, false), None), SidecarAction::Keep);
    assert_eq!(sidecar_action(None, None), SidecarAction::Keep);
}

#[test]
fn eviction_stops_at_a_fresh_folder_that_fits() {
    let policy = EvictPolicy::standard();
    assert_eq!(policy, EvictPolicy { max_age_secs: MAX_AGE_SECS, max_bytes: MAX_BYTES });
    let now = 100 * MAX_AGE_SECS;
    assert!(evict_stops(now, now, policy, 0));
    assert!(!evict_stops(now - MAX_AGE_SECS - 1, now, policy, 0));
    assert!(!evict_stops(now, now, policy, MAX_BYTES + 1));
}

fn stat(path: &str, size: i64, mtime_ns: i64) -> FileStat {
    FileStat { path: path.to_string(), size, mtime_ns }
}

#[test]
fn a_changed_mtime_invalidates_the_row() {
    let known = vec![
        ("/d/a.ARW".to_string(), 1, 10, 4),
        ("/d/b.ARW".to_string(), 1, 10, 4),
        ("/d/gone.ARW".to_string(), 1, 10, 4),
        ("/d/old.ARW".to_string(), 1, 10, 3),
    ];
    let listed = vec![
        stat("/d/a.ARW", 1, 10),
        stat("/d/b.ARW", 1, 11),
        stat("/d/old.ARW", 1, 10),
        stat("/d/new.ARW", 2, 5),
    ];
    assert_eq!(
        stale_rows(&known, &listed, 4),
        vec!["/d/b.ARW".to_string(), "/d/gone.ARW".to_string(), "/d/old.ARW".to_string()]
    );
    let todo: Vec<String> =
        files_to_extract(&known, &listed, 4).into_iter().map(|f| f.path).collect();
    assert_eq!(
        todo,
        vec!["/d/b.ARW".to_string(), "/d/old.ARW".to_string(), "/d/new.ARW".to_string()]
    );
}

#[test]
fn results_are_written_in_batches_of_ten() {
    let mut batcher = Batcher::new();
    for i in 0..9 {
        assert!(batcher.push(i).is_empty());
    }
    assert_eq!(batcher.push(9), (0..10).collect::<Vec<_>>());
    assert!(batcher.push(10).is_empty());
    assert_eq!(batcher.take(), vec![10]);
    assert!(batcher.take().is_empty());
}

#[test]
fn a_sidecar_over_four_mib_is_too_large_to_read() {
    assert_eq!(MAX_SIDECAR_BYTES, 4 * 1024 * 1024);
    assert!(!sidecar_too_large(MAX_SIDECAR_BYTES));
    assert!(sidecar_too_large(MAX_SIDECAR_BYTES + 1));
    assert!(!sidecar_too_large(30_000));
    assert_eq!(oversize_message(), "larger than 4 MiB, not read");
}

#[test]
fn a_sidecar_problem_is_named_by_the_sidecar_file() {
    assert_eq!(
        sidecar_problem("/photos/a.ARW.dop", "larger than 4 MiB, not read"),
        "a.ARW.dop: larger than 4 MiB, not read"
    );
    assert_eq!(sidecar_problem("a.xmp", "bad XML"), "a.xmp: bad XML");
}

#[test]
fn the_rows_of_too_large_sidecars_are_kept_from_the_writer() {
    let rows = vec![
        ("/d/a.ARW".to_string(), 1),
        ("/d/b.ARW".to_string(), 2),
        ("/d/c.ARW".to_string(), 3),
    ];
    let kept = writable_rows(rows, &vec!["/d/b.ARW".to_string()]);
    assert_eq!(kept, vec![("/d/a.ARW".to_string(), 1), ("/d/c.ARW".to_string(), 3)]);
    let none: Vec<(String, i32)> = writable_rows(Vec::new(), &vec!["/d/b.ARW".to_string()]);
    assert!(none.is_empty());
}

#[test]
fn a_new_or_current_database_only_gets_the_tables_it_lacks() {
    let none = Migration {
        drop_files: false,
        backfill_folders: false,
        add_pick: false,
        add_label: false,
        add_label_known: false,
        move_flags: false,
        add_extractor: false,
        add_frame: false,
        add_face_catch: false,
    };
    assert_eq!(migration_plan(0), Ok(none));
    let current = migration_plan(SCHEMA_VERSION).unwrap();
    assert!(!current.drop_files && !current.move_flags && !current.add_face_catch);
}

#[test]
fn an_old_database_is_migrated_by_its_version() {
    let v2 = migration_plan(2).unwrap();
    assert!(v2.drop_files && v2.add_pick && v2.add_label && v2.add_label_known && v2.move_flags);
    assert!(!v2.add_extractor && !v2.backfill_folders);
    let v7 = migration_plan(7).unwrap();
    assert!(v7.drop_files && v7.backfill_folders && !v7.add_label);
    let v10 = migration_plan(10).unwrap();
    assert!(!v10.drop_files && v10.move_flags && v10.add_extractor && v10.add_frame);
    let v13 = migration_plan(13).unwrap();
    assert!(!v13.add_frame && v13.add_face_catch && !v13.move_flags);
}

#[test]
fn an_unknown_schema_version_is_refused() {
    assert_eq!(migration_plan(1), Err("unsupported index schema version 1".to_string()));
    assert_eq!(migration_plan(15), Err("unsupported index schema version 15".to_string()));
    assert_eq!(migration_plan(-3), Err("unsupported index schema version -3".to_string()));
}
