use riffle::trash::{check_trashable, run, trash_verdict, Group, TrashRun};

/// A mover that refuses any path whose file name contains `fail`, and
/// records what it moved.
fn mover(moved: &std::cell::RefCell<Vec<String>>) -> impl Fn(&str) -> Result<(), String> + '_ {
    move |path: &str| {
        let name = path.rsplit('/').next().unwrap();
        if name.contains("fail") {
            return Err("refused".to_string());
        }
        moved.borrow_mut().push(path.to_string());
        Ok(())
    }
}

fn group(raw: &str, sidecars: &[&str]) -> Group {
    Group { raw: raw.to_string(), sidecars: sidecars.iter().map(|s| s.to_string()).collect() }
}

#[test]
fn a_failing_raw_keeps_its_sidecars_and_is_reported() {
    let moved = std::cell::RefCell::new(Vec::new());
    let groups = vec![group("/d/fail.ARW", &["/d/fail.xmp"]), group("/d/ok.ARW", &["/d/ok.xmp"])];
    let summary = run(groups, mover(&moved));
    assert_eq!(summary.trashed, 1);
    assert_eq!(summary.failed.len(), 1);
    assert_eq!(summary.failed[0].path, "/d/fail.ARW");
    assert_eq!(summary.failed[0].message, "refused");
    assert_eq!(*moved.borrow(), vec!["/d/ok.ARW".to_string(), "/d/ok.xmp".to_string()]);
}

#[test]
fn a_failing_sidecar_is_reported_after_its_raw_went() {
    let moved = std::cell::RefCell::new(Vec::new());
    let groups = vec![group("/d/d.ARW", &["/d/fail.xmp", "/d/d.ARW.dop"])];
    let summary = run(groups, mover(&moved));
    assert_eq!(summary.trashed, 1);
    assert_eq!(summary.failed.len(), 1);
    assert_eq!(summary.failed[0].path, "/d/fail.xmp");
    assert_eq!(*moved.borrow(), vec!["/d/d.ARW".to_string(), "/d/d.ARW.dop".to_string()]);
}

#[test]
fn nothing_to_move_trashes_nothing() {
    let moved = std::cell::RefCell::new(Vec::new());
    let summary = run(Vec::new(), mover(&moved));
    assert_eq!(summary.trashed, 0);
    assert!(summary.failed.is_empty());
}

#[test]
fn a_path_outside_the_folder_or_not_a_raw_is_refused() {
    let dir = "/tmp/riffle-trash-refuse";
    let outside = "/tmp/b.ARW";
    assert!(check_trashable(dir, outside).is_err());
    assert!(check_trashable(dir, "/tmp/riffle-trash-refuse/c.jpg").is_err());
}

#[test]
fn only_a_raw_directly_inside_the_folder_may_be_trashed() {
    let dir = "/photos/day";
    assert_eq!(check_trashable(dir, "/photos/day/a.ARW"), Ok(()));
    assert_eq!(check_trashable(dir, "/photos/day/b.dng"), Ok(()));
    assert_eq!(
        check_trashable(dir, "/photos/day/c.jpg"),
        Err("not a RAW file: /photos/day/c.jpg".to_string())
    );
    assert_eq!(
        check_trashable(dir, "/photos/day/sub/d.ARW"),
        Err("not in the open folder: /photos/day/sub/d.ARW".to_string())
    );
    assert_eq!(
        check_trashable(dir, "/photos/e.ARW"),
        Err("not in the open folder: /photos/e.ARW".to_string())
    );
    assert_eq!(check_trashable("/", "/f.ARW"), Ok(()));
    assert_eq!(check_trashable("/", "/"), Err("not a RAW file: /".to_string()));
}

#[test]
fn a_run_moves_each_raw_before_its_sidecars_and_skips_those_of_a_refused_raw() {
    let groups = vec![
        group("/d/a.ARW", &["/d/a.xmp", "/d/a.ARW.dop"]),
        group("/d/b.ARW", &["/d/b.xmp"]),
        group("/d/c.ARW", &[]),
    ];
    let mut run = TrashRun::new(groups);
    let mut asked = Vec::new();
    while let Some(path) = run.next() {
        let answer = if path == "/d/b.ARW" || path == "/d/a.xmp" {
            Err(format!("cannot move {path}"))
        } else {
            Ok(())
        };
        asked.push(path);
        run.answer(answer);
    }
    assert_eq!(asked, ["/d/a.ARW", "/d/a.xmp", "/d/a.ARW.dop", "/d/b.ARW", "/d/c.ARW"]);
    let summary = run.finish();
    assert_eq!(summary.trashed, 2);
    let failed: Vec<&str> = summary.failed.iter().map(|f| f.path.as_str()).collect();
    assert_eq!(failed, ["/d/a.xmp", "/d/b.ARW"]);
    assert_eq!(summary.failed[1].message, "cannot move /d/b.ARW");
}

#[test]
fn the_verdict_reads_the_name_and_folder_the_platform_gave() {
    let dir = "C:\\day";
    let path = "C:\\day\\a.ARW";
    assert_eq!(trash_verdict(dir, path, Some("a.ARW"), Some(dir)), Ok(()));
    assert_eq!(
        trash_verdict(dir, "C:\\day\\a.jpg", Some("a.jpg"), Some(dir)),
        Err("not a RAW file: C:\\day\\a.jpg".to_string())
    );
    assert_eq!(
        trash_verdict(dir, path, Some("a.ARW"), Some("C:\\other")),
        Err(format!("not in the open folder: {path}"))
    );
    assert_eq!(trash_verdict("/d", "/d/IMG:1.dng", Some("IMG:1.dng"), Some("/d")), Ok(()));
    assert_eq!(
        trash_verdict("/d", "/d/..", None, Some("/")),
        Err("not a RAW file: /d/..".to_string())
    );
}
