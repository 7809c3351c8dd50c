use riffle::watch::{triggers, triggers_on_names};

fn paths(names: &[&str]) -> Vec<String> {
    names.iter().map(|n| format!("/photos/{n}")).collect()
}

#[test]
fn sidecar_and_temp_paths_do_not_trigger() {
    assert!(!triggers(&paths(&["a.xmp"])));
    assert!(!triggers(&paths(&["A.XMP"])));
    assert!(!triggers(&paths(&["a.arw.dop"])));
    assert!(!triggers(&paths(&["A.ARW.dop"])));
    assert!(!triggers(&paths(&["a.xmp.riffle-tmp"])));
    assert!(!triggers(&paths(&["a.xmp", "b.arw.dop"])));
}

#[test]
fn raw_paths_and_empty_events_trigger() {
    assert!(triggers(&paths(&["a.arw"])));
    assert!(triggers(&paths(&["a.dng"])));
    assert!(triggers(&paths(&["a.xmp", "b.arw"])));
    assert!(triggers(&[]));
}

#[test]
fn a_path_without_a_file_name_triggers() {
    assert!(triggers(&["/".to_string()]));
    assert!(triggers(&["/photos/..".to_string()]));
}

#[test]
fn the_decision_is_made_on_whatever_names_the_platform_gives() {
    let names = |v: &[Option<&str>]| -> Vec<Option<String>> {
        v.iter().map(|n| n.map(String::from)).collect()
    };
    assert!(triggers_on_names(&names(&[])));
    assert!(!triggers_on_names(&names(&[Some("a.xmp"), Some("A.ARW.DOP")])));
    assert!(triggers_on_names(&names(&[Some("a.xmp"), Some("a.ARW")])));
    assert!(triggers_on_names(&names(&[None])));
    assert!(triggers_on_names(&names(&[Some("IMG:1.ARW")])));
    assert!(!triggers_on_names(&names(&[Some("IMG:1.XMP")])));
}
