use riffle::sidecar::{
    name_extension,
    is_raw_file, newest, raw_name, retry_delay, to_ascii_lower, SidecarFormat, RETRY_BASE,
    RETRY_LIMIT, TEMP_SUFFIX,
};

#[test]
fn the_retry_delay_grows_and_stops_at_the_limit() {
    let delays: Vec<_> = (1..=RETRY_LIMIT).map(|n| retry_delay(n).unwrap()).collect();
    assert_eq!(delays[0], RETRY_BASE);
    assert!(delays.windows(2).all(|w| w[1] > w[0]));
    assert_eq!(retry_delay(RETRY_LIMIT + 1), None);
}

#[test]
fn the_retry_delays_double_from_one_second() {
    assert_eq!(retry_delay(0), None);
    assert_eq!(retry_delay(1), Some(1));
    assert_eq!(retry_delay(2), Some(2));
    assert_eq!(retry_delay(3), Some(4));
    assert_eq!(retry_delay(4), Some(8));
    assert_eq!(retry_delay(5), Some(16));
    assert_eq!(retry_delay(u32::MAX), None);
}

#[test]
fn the_newest_sidecar_wins_and_a_tie_goes_to_the_first_listed() {
    assert_eq!(newest(vec![("xmp", 1), ("dop", 2)]), Some("dop"));
    assert_eq!(newest(vec![("xmp", 2), ("dop", 1)]), Some("xmp"));
    assert_eq!(newest(vec![("xmp", 2), ("dop", 2)]), Some("xmp"));
    assert_eq!(newest(vec![("dop", 2)]), Some("dop"));
    assert_eq!(newest::<&str>(vec![]), None);
}

#[test]
fn newest_picks_the_first_of_several_equal_latest() {
    assert_eq!(newest(vec![("a", 5), ("b", 9), ("c", 9), ("d", -1)]), Some("b"));
    assert_eq!(newest(vec![("a", i64::MIN), ("b", i64::MIN)]), Some("a"));
}

#[test]
fn the_format_setting_defaults_to_xmp_and_matches_names_case_insensitively() {
    assert_eq!(SidecarFormat::from_setting(None), SidecarFormat::Xmp);
    assert_eq!(SidecarFormat::from_setting(Some("tiff")), SidecarFormat::Xmp);
    assert_eq!(SidecarFormat::from_setting(Some("dop")), SidecarFormat::Dop);
    assert!(SidecarFormat::Xmp.matches("A.XMP"));
    assert!(!SidecarFormat::Xmp.matches("a.ARW.dop"));
    assert!(SidecarFormat::Dop.matches("A.ARW.DOP"));
    assert!(SidecarFormat::Dop.matches("L1000001.DNG.dop"));
    assert!(!SidecarFormat::Dop.matches("a.jpg.dop"));
    assert_eq!(
        SidecarFormat::from_setting(Some(SidecarFormat::Dop.setting())),
        SidecarFormat::Dop
    );
    assert_eq!(
        SidecarFormat::from_setting(Some(SidecarFormat::Xmp.setting())),
        SidecarFormat::Xmp
    );
    assert!(!SidecarFormat::Dop.matches("a.dop"));
    assert!(!SidecarFormat::Dop.matches("a.xmp"));
    assert_eq!(SidecarFormat::from_setting(Some("both")), SidecarFormat::Both);
    assert_eq!(SidecarFormat::Both.setting(), "both");
    assert_eq!(
        SidecarFormat::from_setting(Some(SidecarFormat::Both.setting())),
        SidecarFormat::Both
    );
    assert!(SidecarFormat::Both.matches("A.XMP"));
    assert!(SidecarFormat::Both.matches("a.ARW.dop"));
    assert!(!SidecarFormat::Both.matches("a.jpg.dop"));
}

#[test]
fn each_format_names_its_kinds_xmp_first() {
    assert_eq!(SidecarFormat::Xmp.kinds(), vec![SidecarFormat::Xmp]);
    assert_eq!(SidecarFormat::Dop.kinds(), vec![SidecarFormat::Dop]);
    assert_eq!(SidecarFormat::Both.kinds(), vec![SidecarFormat::Xmp, SidecarFormat::Dop]);
    assert_eq!(SidecarFormat::default(), SidecarFormat::Xmp);
    assert_eq!(SidecarFormat::Xmp.setting(), "xmp");
    assert_eq!(SidecarFormat::Dop.setting(), "dop");
}

#[test]
fn a_hidden_file_has_no_extension_and_is_no_sidecar() {
    assert!(!SidecarFormat::Xmp.matches(".xmp"));
    assert!(SidecarFormat::Xmp.matches("..xmp"));
    assert!(!SidecarFormat::Dop.matches(".arw.dop"));
    assert!(!SidecarFormat::Xmp.matches("xmp"));
}

#[test]
fn raw_files_are_arw_and_dng_in_any_case() {
    assert!(is_raw_file("a.ARW"));
    assert!(is_raw_file("b.arw"));
    assert!(is_raw_file("c.DnG"));
    assert!(!is_raw_file("d.jpg"));
    assert!(!is_raw_file("e.arw.dop"));
    assert!(!is_raw_file(".arw"));
    assert!(!is_raw_file("arw"));
}

#[test]
fn the_raw_name_is_the_file_name() {
    assert_eq!(raw_name("/photos/DSC00001.ARW"), "DSC00001.ARW");
    assert_eq!(raw_name("a.ARW"), "a.ARW");
    assert_eq!(raw_name(""), "");
}

#[test]
fn ascii_lower_casing_leaves_other_chars_alone() {
    assert_eq!(to_ascii_lower("A.ARW.Dop"), "a.arw.dop");
    assert_eq!(to_ascii_lower("Ä1Z"), "Ä1z");
    assert_eq!(TEMP_SUFFIX, ".riffle-tmp");
}

#[test]
fn any_entry_name_is_read_as_one_file_name_in_any_case() {
    assert!(SidecarFormat::Dop.matches("A.ARW.DOP"));
    assert!(SidecarFormat::Xmp.matches("IMG:1.XMP"));
    assert!(SidecarFormat::Xmp.matches("img:1.xmp"));
    assert!(SidecarFormat::Dop.matches("IMG\\2.arw.dop"));
    assert!(!SidecarFormat::Dop.matches("a.jpg.dop"));
    assert!(!SidecarFormat::Dop.matches("a.dop"));
    assert!(!SidecarFormat::Xmp.matches(".xmp"));
    assert!(is_raw_file("IMG:1.ARW"));
    assert!(!is_raw_file(".arw"));
}

#[test]
fn an_extension_follows_the_last_dot_of_a_file_name() {
    assert_eq!(name_extension("a.b.ARW").as_deref(), Some("ARW"));
    assert_eq!(name_extension("a."), Some(String::new()));
    assert_eq!(name_extension(".hidden"), None);
    assert_eq!(name_extension("plain"), None);
    assert_eq!(name_extension(".."), None);
    assert_eq!(name_extension(""), None);
}
