use riffle::accel::accelerator;
use riffle::keymap::{forbidden, Binding, Keymap, StoredKeys, StoredShortcuts};

/// A stored `shortcuts` object whose values are lists of strings.
fn stored(entries: &[(&str, &[&str])]) -> StoredShortcuts {
    StoredShortcuts::Object(
        entries
            .iter()
            .map(|(action, keys)| {
                (
                    action.to_string(),
                    StoredKeys::List(keys.iter().map(|k| Some(k.to_string())).collect()),
                )
            })
            .collect(),
    )
}

fn keys_of(keymap: &Keymap, action: &str) -> Vec<String> {
    keymap
        .bindings()
        .into_iter()
        .find(|b| b.action == action)
        .unwrap()
        .keys
}

/// The overrides as a map, sorted by action, the way the stored object
/// compares.
fn overrides_of(keymap: &Keymap) -> Vec<(String, Vec<String>)> {
    let mut v: Vec<(String, Vec<String>)> = keymap
        .overrides()
        .into_iter()
        .map(|b: Binding| (b.action, b.keys))
        .collect();
    v.sort();
    v
}

fn map_of(entries: &[(&str, &[&str])]) -> Vec<(String, Vec<String>)> {
    let mut v: Vec<(String, Vec<String>)> = entries
        .iter()
        .map(|(a, keys)| (a.to_string(), keys.iter().map(|k| k.to_string()).collect()))
        .collect();
    v.sort();
    v
}

/// The stored object `overrides` produces, to load again.
fn stored_from(keymap: &Keymap) -> StoredShortcuts {
    StoredShortcuts::Object(
        keymap
            .overrides()
            .into_iter()
            .map(|b| (b.action, StoredKeys::List(b.keys.into_iter().map(Some).collect())))
            .collect(),
    )
}

const PLATFORMS: [bool; 2] = [true, false];

fn open_default(macos: bool) -> &'static str {
    if macos {
        "meta+o"
    } else {
        "ctrl+o"
    }
}

fn undo_default(macos: bool) -> &'static str {
    if macos {
        "meta+z"
    } else {
        "ctrl+z"
    }
}

fn redo_default(macos: bool) -> &'static str {
    if macos {
        "shift+meta+z"
    } else {
        "ctrl+shift+z"
    }
}

#[test]
fn no_overrides_equals_the_defaults() {
    for macos in PLATFORMS {
        assert_eq!(Keymap::from_overrides(None, macos), Keymap::defaults(macos));
        assert_eq!(
            Keymap::from_overrides(Some(&stored(&[])), macos),
            Keymap::defaults(macos)
        );
    }
}

#[test]
fn a_valid_override_replaces_only_that_action() {
    for macos in PLATFORMS {
        let keymap = Keymap::from_overrides(Some(&stored(&[("reject", &["r"])])), macos);
        assert_eq!(keys_of(&keymap, "reject"), vec!["r"]);
        let expected: Vec<Binding> = Keymap::defaults(macos)
            .bindings()
            .into_iter()
            .map(|b| {
                if b.action == "reject" {
                    Binding { action: b.action, keys: vec!["r".to_string()] }
                } else {
                    b
                }
            })
            .collect();
        assert_eq!(keymap.bindings(), expected);
    }
}

#[test]
fn the_extend_actions_can_be_rebound() {
    let keymap = Keymap::from_overrides(
        Some(&stored(&[("extendPrevious", &["shift+k"]), ("extendNext", &["shift+j"])])),
        true,
    );
    assert_eq!(keys_of(&keymap, "extendPrevious"), vec!["shift+k"]);
    assert_eq!(keys_of(&keymap, "extendNext"), vec!["shift+j"]);
    assert_eq!(
        overrides_of(&keymap),
        map_of(&[("extendPrevious", &["shift+k"]), ("extendNext", &["shift+j"])])
    );
}

#[test]
fn invalid_shapes_keep_the_defaults() {
    for macos in PLATFORMS {
        let values = vec![
            StoredShortcuts::Other,
            stored(&[("nope", &["r"])]),
            StoredShortcuts::Object(vec![("reject".to_string(), StoredKeys::Other)]),
            stored(&[("reject", &[])]),
            stored(&[("reject", &[""])]),
            StoredShortcuts::Object(vec![(
                "reject".to_string(),
                StoredKeys::List(vec![Some("r".to_string()), None]),
            )]),
        ];
        for value in values {
            assert_eq!(Keymap::from_overrides(Some(&value), macos), Keymap::defaults(macos));
        }
    }
}

#[test]
fn an_unknown_action_does_not_block_the_others() {
    let keymap =
        Keymap::from_overrides(Some(&stored(&[("nope", &["q"]), ("reject", &["r"])])), false);
    assert_eq!(keys_of(&keymap, "reject"), vec!["r"]);
}

#[test]
fn p_on_another_action_is_skipped_while_pick_holds_it() {
    let keymap = Keymap::from_overrides(Some(&stored(&[("reject", &["p"])])), true);
    assert_eq!(keys_of(&keymap, "reject"), vec!["x"]);
    assert_eq!(overrides_of(&keymap), map_of(&[("reject", &["p"])]));
}

#[test]
fn a_pick_override_applies_and_releases_p() {
    let keymap = Keymap::from_overrides(Some(&stored(&[("pick", &["q"])])), true);
    assert_eq!(keys_of(&keymap, "pick"), vec!["q"]);
    let keymap =
        Keymap::from_overrides(Some(&stored(&[("pick", &["q"]), ("reject", &["p"])])), true);
    assert_eq!(keys_of(&keymap, "pick"), vec!["q"]);
    assert_eq!(keys_of(&keymap, "reject"), vec!["p"]);
}

#[test]
fn a_collision_with_another_default_is_skipped() {
    let keymap = Keymap::from_overrides(Some(&stored(&[("reject", &["arrowdown"])])), true);
    assert_eq!(keymap.bindings(), Keymap::defaults(true).bindings());
}

#[test]
fn colliding_overrides_keep_the_first_in_action_order() {
    let keymap =
        Keymap::from_overrides(Some(&stored(&[("clear", &["r"]), ("reject", &["r"])])), true);
    assert_eq!(keys_of(&keymap, "reject"), vec!["r"]);
    assert_eq!(keys_of(&keymap, "clear"), vec!["0"]);
}

#[test]
fn the_defaults_bind_no_key_twice() {
    for macos in PLATFORMS {
        let mut keys: Vec<String> = Keymap::defaults(macos)
            .bindings()
            .into_iter()
            .flat_map(|b| b.keys)
            .collect();
        let total = keys.len();
        keys.sort();
        keys.dedup();
        assert_eq!(keys.len(), total);
    }
}

#[test]
fn the_defaults_are_the_full_table() {
    for macos in PLATFORMS {
        let bindings: Vec<(String, Vec<String>)> = Keymap::defaults(macos)
            .bindings()
            .into_iter()
            .map(|b| (b.action, b.keys))
            .collect();
        let photolab = if macos { "shift+meta+o" } else { "ctrl+shift+o" };
        let expected: Vec<(String, Vec<String>)> = [
            ("previous", "arrowup"),
            ("next", "arrowdown"),
            ("burstPrevious", "arrowleft"),
            ("burstNext", "arrowright"),
            ("burstFramePrevious", "alt+arrowup"),
            ("burstFrameNext", "alt+arrowdown"),
            ("extendPrevious", "shift+arrowup"),
            ("extendNext", "shift+arrowdown"),
            ("open", open_default(macos)),
            ("photolab", photolab),
            ("undo", undo_default(macos)),
            ("redo", redo_default(macos)),
            ("focus", "f"),
            ("zoom", "z"),
            ("grayscale", "g"),
            ("compare", "v"),
            ("rate1", "1"),
            ("rate2", "2"),
            ("rate3", "3"),
            ("rate4", "4"),
            ("rate5", "5"),
            ("reject", "x"),
            ("rejectRest", "shift+x"),
            ("pick", "p"),
            ("unflag", "u"),
            ("clear", "0"),
            ("red", "ctrl+alt+1"),
            ("orange", "ctrl+alt+2"),
            ("yellow", "ctrl+alt+3"),
            ("green", "ctrl+alt+4"),
            ("blue", "ctrl+alt+5"),
            ("pink", "ctrl+alt+6"),
            ("purple", "ctrl+alt+7"),
            ("clearlabel", "ctrl+alt+0"),
            ("clearall", "c"),
        ]
        .into_iter()
        .map(|(action, key)| (action.to_string(), vec![key.to_string()]))
        .collect();
        assert_eq!(bindings, expected);
    }
}

#[test]
fn the_menu_defaults_follow_the_platform() {
    let keymap = Keymap::defaults(true);
    assert_eq!(keys_of(&keymap, "open"), vec!["meta+o"]);
    assert_eq!(keys_of(&keymap, "photolab"), vec!["shift+meta+o"]);
    assert_eq!(keys_of(&keymap, "undo"), vec!["meta+z"]);
    assert_eq!(keys_of(&keymap, "redo"), vec!["shift+meta+z"]);
    let keymap = Keymap::defaults(false);
    assert_eq!(keys_of(&keymap, "open"), vec!["ctrl+o"]);
    assert_eq!(keys_of(&keymap, "photolab"), vec!["ctrl+shift+o"]);
    assert_eq!(keys_of(&keymap, "undo"), vec!["ctrl+z"]);
    assert_eq!(keys_of(&keymap, "redo"), vec!["ctrl+shift+z"]);
}

#[test]
fn accelerator_converts_the_key_names() {
    for (key, expected) in [
        ("ctrl+o", "Ctrl+O"),
        ("meta+o", "Cmd+O"),
        ("shift+meta+o", "Shift+Cmd+O"),
        ("ctrl+shift+o", "Ctrl+Shift+O"),
        ("ctrl+alt+shift+meta+k", "Ctrl+Alt+Shift+Cmd+K"),
        ("ctrl+alt+1", "Ctrl+Alt+1"),
        ("ctrl+,", "Ctrl+,"),
        ("meta+`", "Cmd+`"),
        ("alt+\\", "Alt+\\"),
        ("ctrl+space", "Ctrl+Space"),
        ("meta+arrowleft", "Cmd+ArrowLeft"),
        ("ctrl+pagedown", "Ctrl+PageDown"),
        ("ctrl+f12", "Ctrl+F12"),
    ] {
        assert_eq!(accelerator(key).as_deref(), Some(expected), "{key}");
    }
    for key in [
        "o",
        "shift+j",
        "space",
        "arrowup",
        "shift+arrowup",
        "shift+arrowdown",
        "ctrl+f25",
        "ctrl+oo",
        "ctrl+",
        "meta",
    ] {
        assert_eq!(accelerator(key), None, "{key}");
    }
}

#[test]
fn accelerator_for_takes_the_first_convertible_key() {
    for macos in PLATFORMS {
        let mut keymap = Keymap::defaults(macos);
        assert_eq!(
            keymap.accelerator_for("open").as_deref(),
            Some(if macos { "Cmd+O" } else { "Ctrl+O" })
        );
        assert_eq!(
            keymap.accelerator_for("photolab").as_deref(),
            Some(if macos { "Shift+Cmd+O" } else { "Ctrl+Shift+O" })
        );
        assert_eq!(
            keymap.accelerator_for("undo").as_deref(),
            Some(if macos { "Cmd+Z" } else { "Ctrl+Z" })
        );
        assert_eq!(
            keymap.accelerator_for("redo").as_deref(),
            Some(if macos { "Shift+Cmd+Z" } else { "Ctrl+Shift+Z" })
        );
        assert_eq!(keymap.accelerator_for("nope"), None);
        assert_eq!(keymap.accelerator_for("extendPrevious"), None);
        assert_eq!(keymap.accelerator_for("extendNext"), None);
        keymap.add("open", "j").unwrap();
        keymap.remove("open", open_default(macos)).unwrap();
        assert_eq!(keymap.accelerator_for("open"), None);
        keymap.add("open", "ctrl+alt+j").unwrap();
        assert_eq!(keymap.accelerator_for("open").as_deref(), Some("Ctrl+Alt+J"));
        assert_eq!(
            keymap.accelerator_for("photolab").as_deref(),
            Some(if macos { "Shift+Cmd+O" } else { "Ctrl+Shift+O" })
        );
    }
}

#[test]
fn the_menu_defaults_are_not_forbidden() {
    for macos in [true, false] {
        let open = if macos { "meta+o" } else { "ctrl+o" };
        let photolab = if macos { "shift+meta+o" } else { "ctrl+shift+o" };
        assert_eq!(forbidden(open, macos), None, "{open}");
        assert_eq!(forbidden(photolab, macos), None, "{photolab}");
        let undo = if macos { "meta+z" } else { "ctrl+z" };
        let redo = if macos { "shift+meta+z" } else { "ctrl+shift+z" };
        assert_eq!(forbidden(undo, macos), None, "{undo}");
        assert_eq!(forbidden(redo, macos), None, "{redo}");
    }
}

#[test]
fn a_store_from_before_undo_redo_still_loads() {
    for macos in PLATFORMS {
        let entries: &[(&str, &[&str])] = &[("pick", &["q"]), ("burstNext", &["n"])];
        let keymap = Keymap::from_overrides(Some(&stored(entries)), macos);
        assert_eq!(keys_of(&keymap, "pick"), vec!["q"]);
        assert_eq!(keys_of(&keymap, "burstNext"), vec!["n"]);
        assert_eq!(keys_of(&keymap, "undo"), vec![undo_default(macos)]);
        assert_eq!(keys_of(&keymap, "redo"), vec![redo_default(macos)]);
        assert_eq!(overrides_of(&keymap), map_of(entries));
    }
}

#[test]
fn a_default_freed_by_rebinding_can_go_to_another_action() {
    for macos in PLATFORMS {
        let mut keymap = Keymap::defaults(macos);
        keymap.add("open", "ctrl+alt+j").unwrap();
        keymap.remove("open", open_default(macos)).unwrap();
        keymap.add("focus", open_default(macos)).unwrap();
        assert_eq!(keys_of(&keymap, "focus"), vec!["f", open_default(macos)]);
    }
}

#[test]
fn a_label_override_applies() {
    let keymap = Keymap::from_overrides(Some(&stored(&[("red", &["r"])])), true);
    assert_eq!(keys_of(&keymap, "red"), vec!["r"]);
}

#[test]
fn ctrl_alt_keys_are_bindable() {
    let keymap = Keymap::from_overrides(Some(&stored(&[("reject", &["ctrl+alt+r"])])), false);
    assert_eq!(keys_of(&keymap, "reject"), vec!["ctrl+alt+r"]);
    let keymap = Keymap::from_overrides(Some(&stored(&[("reject", &["ctrl+alt+1"])])), false);
    assert_eq!(keymap.bindings(), Keymap::defaults(false).bindings());
}

#[test]
fn overrides_and_reset_use_the_defaults() {
    let mut keymap = Keymap::defaults(true);
    keymap.add("red", "r").unwrap();
    assert_eq!(overrides_of(&keymap), map_of(&[("red", &["ctrl+alt+1", "r"])]));
    keymap.reset("red").unwrap();
    assert_eq!(keys_of(&keymap, "red"), vec!["ctrl+alt+1"]);
    keymap.add("red", "r").unwrap();
    keymap.remove("red", "ctrl+alt+1").unwrap();
    keymap.reset_all();
    assert_eq!(keymap, Keymap::defaults(true));
}

#[test]
fn add_keeps_the_existing_keys() {
    let mut keymap = Keymap::defaults(false);
    keymap.add("reject", "r").unwrap();
    assert_eq!(keys_of(&keymap, "reject"), vec!["x", "r"]);
    assert_eq!(overrides_of(&keymap), map_of(&[("reject", &["x", "r"])]));
}

#[test]
fn add_rejects_a_key_the_action_holds() {
    let mut keymap = Keymap::defaults(true);
    assert_eq!(
        keymap.add("reject", "x"),
        Err("\"x\" is already bound to reject".to_string())
    );
    assert_eq!(keymap, Keymap::defaults(true));
}

#[test]
fn add_rejects_a_key_bound_to_another_action() {
    let mut keymap = Keymap::defaults(true);
    assert_eq!(
        keymap.add("reject", "arrowdown"),
        Err("\"arrowdown\" is bound to next".to_string())
    );
    assert_eq!(keymap, Keymap::defaults(true));
}

#[test]
fn add_rejects_an_unknown_action() {
    let mut keymap = Keymap::defaults(true);
    assert!(keymap.add("nope", "q").is_err());
    assert_eq!(keymap, Keymap::defaults(true));
}

#[test]
fn pick_is_editable() {
    let mut keymap = Keymap::defaults(true);
    keymap.add("pick", "q").unwrap();
    assert_eq!(keys_of(&keymap, "pick"), vec!["p", "q"]);
    assert_eq!(overrides_of(&keymap), map_of(&[("pick", &["p", "q"])]));
    assert_eq!(keymap.add("reject", "p"), Err("\"p\" is bound to pick".to_string()));
    keymap.remove("pick", "p").unwrap();
    keymap.add("reject", "p").unwrap();
    assert_eq!(keys_of(&keymap, "reject"), vec!["x", "p"]);
    keymap.remove("reject", "p").unwrap();
    keymap.reset("pick").unwrap();
    assert_eq!(keys_of(&keymap, "pick"), vec!["p"]);
}

#[test]
fn remove_drops_one_key() {
    let mut keymap = Keymap::defaults(true);
    keymap.add("previous", "k").unwrap();
    keymap.remove("previous", "arrowup").unwrap();
    assert_eq!(keys_of(&keymap, "previous"), vec!["k"]);
}

#[test]
fn remove_refuses_the_last_key() {
    let mut keymap = Keymap::defaults(true);
    assert_eq!(
        keymap.remove("reject", "x"),
        Err("\"x\" is the only key for reject; use Reset".to_string())
    );
    assert_eq!(
        keymap.remove("pick", "p"),
        Err("\"p\" is the only key for pick; use Reset".to_string())
    );
    assert_eq!(keymap, Keymap::defaults(true));
}

#[test]
fn remove_rejects_a_key_not_on_the_action() {
    let mut keymap = Keymap::defaults(true);
    assert_eq!(
        keymap.remove("reject", "arrowdown"),
        Err("\"arrowdown\" is not bound to reject".to_string())
    );
    assert_eq!(keymap, Keymap::defaults(true));
}

#[test]
fn adding_then_removing_returns_to_the_default() {
    let mut keymap = Keymap::defaults(true);
    keymap.add("reject", "r").unwrap();
    keymap.remove("reject", "r").unwrap();
    assert_eq!(overrides_of(&keymap), map_of(&[]));
    assert_eq!(keymap, Keymap::defaults(true));
}

#[test]
fn reset_restores_the_defaults() {
    let mut keymap = Keymap::defaults(true);
    keymap.add("reject", "r").unwrap();
    keymap.add("clear", "q").unwrap();
    keymap.add("previous", "k").unwrap();
    keymap.remove("previous", "arrowup").unwrap();
    keymap.reset("reject").unwrap();
    assert_eq!(
        overrides_of(&keymap),
        map_of(&[("clear", &["0", "q"]), ("previous", &["k"])])
    );
    keymap.reset_all();
    assert_eq!(overrides_of(&keymap), map_of(&[]));
    assert_eq!(keymap, Keymap::defaults(true));
}

#[test]
fn reset_refuses_a_default_key_now_bound_elsewhere() {
    let mut keymap = Keymap::defaults(true);
    keymap.add("reject", "r").unwrap();
    keymap.remove("reject", "x").unwrap();
    keymap.add("clear", "x").unwrap();
    assert_eq!(keymap.reset("reject"), Err("\"x\" is bound to clear".to_string()));
}

#[test]
fn overrides_round_trip() {
    for macos in PLATFORMS {
        let mut keymap = Keymap::defaults(macos);
        keymap.add("previous", "q").unwrap();
        keymap.remove("previous", "arrowup").unwrap();
        keymap.add("reject", "r").unwrap();
        keymap.remove("reject", "x").unwrap();
        keymap.add("zoom", "space").unwrap();
        keymap.add("pick", "ctrl+alt+p").unwrap();
        keymap.remove("pick", "p").unwrap();
        assert_eq!(Keymap::from_overrides(Some(&stored_from(&keymap)), macos), keymap);
    }
}

#[test]
fn the_burst_frame_keys_are_not_forbidden() {
    for macos in [true, false] {
        assert_eq!(forbidden("alt+arrowup", macos), None);
        assert_eq!(forbidden("alt+arrowdown", macos), None);
    }
}

#[test]
fn forbidden_follows_the_platform() {
    assert_eq!(forbidden("meta+q", true), Some("is a menu accelerator"));
    assert_eq!(forbidden("meta+,", true), Some("is a menu accelerator"));
    assert_eq!(forbidden("shift+meta+4", true), Some("is reserved by the system"));
    assert_eq!(forbidden("meta+k", true), None);
    assert_eq!(forbidden("meta+arrowleft", true), None);
    assert_eq!(forbidden("meta+c", true), Some("is a menu accelerator"));
    assert_eq!(forbidden("ctrl+c", true), None);
    assert_eq!(forbidden("ctrl+c", false), Some("is a menu accelerator"));
    assert_eq!(forbidden("ctrl+,", false), Some("is a menu accelerator"));
    assert_eq!(forbidden("alt+f4", false), Some("is a menu accelerator"));
    assert_eq!(forbidden("alt+tab", false), Some("is reserved by the system"));
    assert_eq!(forbidden("meta+k", false), Some("is reserved by the system"));
    assert_eq!(
        forbidden("ctrl+alt+shift+meta+k", false),
        Some("is reserved by the system")
    );
    for key in ["shift+j", "ctrl+j", "alt+j", "ctrl+alt+1"] {
        assert_eq!(forbidden(key, true), None, "{key}");
        assert_eq!(forbidden(key, false), None, "{key}");
    }
}

#[test]
fn add_refuses_a_forbidden_key() {
    for macos in PLATFORMS {
        let key = if macos { "meta+," } else { "ctrl+," };
        let mut keymap = Keymap::defaults(macos);
        assert_eq!(
            keymap.add("reject", key),
            Err(format!("{key:?} is a menu accelerator"))
        );
        let key = if macos { "meta+tab" } else { "alt+tab" };
        assert_eq!(
            keymap.add("reject", key),
            Err(format!("{key:?} is reserved by the system"))
        );
        assert_eq!(keymap, Keymap::defaults(macos));
    }
}

#[test]
fn a_forbidden_override_is_skipped() {
    for macos in PLATFORMS {
        let key = if macos { "meta+q" } else { "ctrl+c" };
        let keymap = Keymap::from_overrides(Some(&stored(&[("reject", &[key])])), macos);
        assert_eq!(keymap, Keymap::defaults(macos));
    }
}

#[test]
fn modified_keys_are_bindable() {
    for macos in PLATFORMS {
        let mut keymap = Keymap::defaults(macos);
        let mut keys = vec!["shift+j", "ctrl+j", "alt+j", "ctrl+alt+r"];
        if macos {
            keys.push("meta+k");
        }
        for key in &keys {
            keymap.add("reject", key).unwrap();
        }
        let expected: Vec<String> = std::iter::once("x").chain(keys).map(String::from).collect();
        assert_eq!(keys_of(&keymap, "reject"), expected);
    }
}

#[test]
fn an_inactive_override_survives_unrelated_edits() {
    let entries: &[(&str, &[&str])] = &[("reject", &["arrowup"])];
    let mut keymap = Keymap::from_overrides(Some(&stored(entries)), true);
    assert_eq!(overrides_of(&keymap), map_of(entries));
    keymap.add("zoom", "space").unwrap();
    assert_eq!(
        overrides_of(&keymap),
        map_of(&[("reject", &["arrowup"]), ("zoom", &["z", "space"])])
    );
    keymap.remove("zoom", "space").unwrap();
    keymap.reset("zoom").unwrap();
    assert_eq!(overrides_of(&keymap), map_of(entries));
}

#[test]
fn editing_or_resetting_an_action_drops_its_inactive_override() {
    let entries: &[(&str, &[&str])] = &[("reject", &["arrowup"]), ("clear", &["z"])];
    let mut keymap = Keymap::from_overrides(Some(&stored(entries)), true);
    keymap.add("reject", "r").unwrap();
    assert_eq!(
        overrides_of(&keymap),
        map_of(&[("reject", &["x", "r"]), ("clear", &["z"])])
    );
    let mut keymap = Keymap::from_overrides(Some(&stored(entries)), true);
    keymap.add("reject", "r").unwrap();
    keymap.remove("reject", "r").unwrap();
    assert_eq!(overrides_of(&keymap), map_of(&[("clear", &["z"])]));
    let mut keymap = Keymap::from_overrides(Some(&stored(entries)), true);
    keymap.reset("reject").unwrap();
    assert_eq!(overrides_of(&keymap), map_of(&[("clear", &["z"])]));
    keymap.reset_all();
    assert_eq!(overrides_of(&keymap), map_of(&[]));
    assert_eq!(keymap, Keymap::defaults(true));
}

#[test]
fn inactive_overrides_round_trip() {
    let entries: &[(&str, &[&str])] = &[("reject", &["arrowup"])];
    let keymap = Keymap::from_overrides(Some(&stored(entries)), true);
    assert_eq!(keys_of(&keymap, "reject"), vec!["x"]);
    assert_eq!(overrides_of(&keymap), map_of(entries));
    assert_eq!(Keymap::from_overrides(Some(&stored_from(&keymap)), true), keymap);
}

#[test]
fn a_store_from_the_old_defaults_still_loads() {
    for macos in PLATFORMS {
        let entries: &[(&str, &[&str])] = &[
            ("zoom", &["space", "z"]),
            ("open", &["o"]),
            ("red", &["6"]),
            ("previous", &["arrowup", "w", "a", "h", "k"]),
        ];
        let keymap = Keymap::from_overrides(Some(&stored(entries)), macos);
        assert_eq!(keys_of(&keymap, "zoom"), vec!["space", "z"]);
        assert_eq!(keys_of(&keymap, "open"), vec!["o"]);
        assert_eq!(keymap.accelerator_for("open"), None);
        assert_eq!(keys_of(&keymap, "red"), vec!["6"]);
        assert_eq!(keys_of(&keymap, "previous"), vec!["arrowup", "w", "a", "h", "k"]);
        assert_eq!(overrides_of(&keymap), map_of(entries));
        assert_eq!(Keymap::from_overrides(Some(&stored_from(&keymap)), macos), keymap);
    }
}

#[test]
fn a_modifier_only_override_keeps_the_default() {
    let keymap = Keymap::from_overrides(Some(&stored(&[("zoom", &["control"])])), true);
    assert_eq!(keys_of(&keymap, "zoom"), vec!["z"]);
    assert_eq!(overrides_of(&keymap), map_of(&[]));
}

#[test]
fn a_modifier_only_key_is_dropped_from_a_mixed_override() {
    let keymap = Keymap::from_overrides(Some(&stored(&[("zoom", &["shift", "m"])])), true);
    assert_eq!(keys_of(&keymap, "zoom"), vec!["m"]);
    assert_eq!(overrides_of(&keymap), map_of(&[("zoom", &["m"])]));
    assert_eq!(Keymap::from_overrides(Some(&stored_from(&keymap)), true), keymap);
}

#[test]
fn a_conflicting_override_keeps_only_its_filtered_keys() {
    let keymap = Keymap::from_overrides(Some(&stored(&[("reject", &["meta", "arrowup"])])), true);
    assert_eq!(keys_of(&keymap, "reject"), vec!["x"]);
    assert_eq!(overrides_of(&keymap), map_of(&[("reject", &["arrowup"])]));
    assert_eq!(Keymap::from_overrides(Some(&stored_from(&keymap)), true), keymap);
}

#[test]
fn adding_a_key_and_removing_it_again_restores_the_keymap_on_both_platforms() {
    for macos in PLATFORMS {
        let mut keymap = Keymap::defaults(macos);
        keymap.add("grayscale", "shift+g").unwrap();
        assert_eq!(keys_of(&keymap, "grayscale"), vec!["g", "shift+g"]);
        keymap.remove("grayscale", "shift+g").unwrap();
        assert_eq!(keymap, Keymap::defaults(macos));
    }
}
