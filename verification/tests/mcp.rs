use riffle::mcp::{image_data, judgment, long_edge, outside, target, JudgmentArgs, McpState, PickFlag, MCP_PORT};

fn args(
    paths: Option<Vec<&str>>,
    rating: Option<u8>,
    flag: Option<PickFlag>,
    label: Option<Option<&str>>,
) -> JudgmentArgs {
    JudgmentArgs {
        paths: paths.map(|p| p.into_iter().map(String::from).collect()),
        rating,
        flag,
        label: label.map(|l| l.map(String::from)),
    }
}

#[test]
fn long_edge_defaults_and_clamps() {
    assert_eq!(long_edge(None), 1024);
    assert_eq!(long_edge(Some(800)), 800);
    assert_eq!(long_edge(Some(10)), 256);
    assert_eq!(long_edge(Some(5000)), 1616);
}

#[test]
fn judgment_forwards_only_the_given_fields() {
    let r = judgment(args(None, Some(3), None, None)).unwrap();
    assert_eq!((r.paths, r.rating, r.flag, r.label), (None, Some(3), None, None));
    let r = judgment(args(Some(vec!["/d/a"]), None, Some(PickFlag::Reject), Some(None))).unwrap();
    assert_eq!(
        (r.paths, r.rating, r.flag, r.label),
        (Some(vec!["/d/a".to_string()]), None, Some(PickFlag::Reject), Some(None))
    );
    let r = judgment(args(None, Some(0), None, Some(Some("Purple")))).unwrap();
    assert_eq!(
        (r.paths, r.rating, r.flag, r.label),
        (None, Some(0), None, Some(Some("Purple".to_string())))
    );
}

#[test]
fn judgment_refuses_what_the_keys_cannot_set() {
    assert_eq!(
        judgment(args(None, Some(6), None, None)).unwrap_err(),
        "rating must be an integer from 0 to 5".to_string()
    );
    assert_eq!(
        judgment(args(None, None, None, Some(Some("Teal")))).unwrap_err(),
        "label must be one of Red, Orange, Yellow, Green, Blue, Pink, Purple, or null".to_string()
    );
    assert_eq!(
        judgment(args(Some(vec!["/d/a"]), None, None, None)).unwrap_err(),
        "set at least one of rating, flag, label".to_string()
    );
}

#[test]
fn a_too_high_rating_is_refused_before_a_bad_label() {
    assert_eq!(
        judgment(args(None, Some(9), None, Some(Some("Teal")))).unwrap_err(),
        "rating must be an integer from 0 to 5".to_string()
    );
    assert!(judgment(args(None, None, Some(PickFlag::Unflagged), None)).is_ok());
}

#[test]
fn resolve_needs_an_open_folder() {
    assert_eq!(
        target(None, None, Some("/a.ARW".to_string())),
        Err("no folder is open in Riffle".to_string())
    );
}

#[test]
fn resolve_defaults_to_the_current_photo() {
    assert_eq!(
        target(Some("/d".to_string()), Some("/d/a.ARW".to_string()), None),
        Ok(("/d".to_string(), "/d/a.ARW".to_string()))
    );
    assert_eq!(
        target(Some("/d".to_string()), None, None),
        Err("no photo is shown in Riffle".to_string())
    );
    assert_eq!(
        target(Some("/d".to_string()), Some("/d/a.ARW".to_string()), Some("/d/b.ARW".to_string())),
        Ok(("/d".to_string(), "/d/b.ARW".to_string()))
    );
}

#[test]
fn a_path_outside_the_folder_is_named_in_the_message() {
    assert_eq!(outside("/e/a.ARW", "/d"), "/e/a.ARW is not in the open folder /d");
}

#[test]
fn the_state_reports_the_running_port_or_the_fixed_one() {
    assert_eq!(
        McpState::of(true, Some(5000), None),
        McpState { enabled: true, port: 5000, error: None }
    );
    assert_eq!(
        McpState::of(false, None, Some("busy".to_string())),
        McpState { enabled: false, port: MCP_PORT, error: Some("busy".to_string()) }
    );
}

#[test]
fn a_preview_image_is_sent_as_standard_base64() {
    assert_eq!(image_data(b""), "");
    assert_eq!(image_data(b"M"), "TQ==");
    assert_eq!(image_data(b"Ma"), "TWE=");
    assert_eq!(image_data(b"Man"), "TWFu");
    assert_eq!(image_data(&[0xff, 0xd8, 0xff]), "/9j/");
}
