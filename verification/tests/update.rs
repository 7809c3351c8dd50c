use riffle::update::{installed_text, Begin, Dialog, DialogKind, UpdateRun};

#[test]
fn the_installed_text_names_the_version() {
    assert_eq!(
        installed_text("1.2.3"),
        "Riffle 1.2.3 was installed and will be used the next time Riffle launches."
    );
}

#[test]
fn a_second_check_is_refused_while_one_runs() {
    let mut run = UpdateRun::new();
    assert_eq!(run.begin(true), Begin::Check);
    assert_eq!(
        run.begin(true),
        Begin::Done(Some(Dialog {
            text: "An update check is already running.".to_string(),
            kind: DialogKind::Info,
        }))
    );
    assert_eq!(run.begin(false), Begin::Done(None));
    assert_eq!(
        run.finish(Ok(None), true),
        Some(Dialog { text: "Riffle is up to date.".to_string(), kind: DialogKind::Info })
    );
    assert_eq!(run.begin(false), Begin::Check);
}

#[test]
fn an_installed_version_is_reported_and_not_checked_again() {
    let mut run = UpdateRun::new();
    assert_eq!(run.begin(false), Begin::Check);
    assert_eq!(run.finish(Ok(Some("2.0.0".to_string())), false), None);
    assert_eq!(
        run.begin(true),
        Begin::Done(Some(Dialog { text: installed_text("2.0.0"), kind: DialogKind::Info }))
    );
}

#[test]
fn a_failed_update_is_an_error_dialog() {
    let mut run = UpdateRun::new();
    assert_eq!(run.begin(true), Begin::Check);
    assert_eq!(
        run.finish(Err("offline".to_string()), true),
        Some(Dialog { text: "Update failed: offline".to_string(), kind: DialogKind::Error })
    );
    assert_eq!(run.begin(true), Begin::Check);
}
