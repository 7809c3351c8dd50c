use riffle::exif::{af_area, af_tracking, camera, focus_mode};

#[test]
fn the_camera_joins_make_and_model() {
    assert_eq!(camera(Some("SONY"), Some("ILCE-7M5")).as_deref(), Some("SONY ILCE-7M5"));
    assert_eq!(camera(Some("SONY"), None).as_deref(), Some("SONY"));
    assert_eq!(camera(None, Some("ILCE-7M5")).as_deref(), Some("ILCE-7M5"));
    assert_eq!(camera(None, None), None);
}

#[test]
fn the_sony_focus_mode_maps_to_its_label() {
    for (v, label) in [(0, "Manual"), (2, "AF-S"), (3, "AF-C"), (4, "AF-A"), (6, "DMF"), (7, "AF-D")] {
        assert_eq!(focus_mode(v), Some(label));
    }
    for v in [1, 5, 255] {
        assert_eq!(focus_mode(v), None);
    }
}

#[test]
fn the_sony_af_tracking_maps_to_its_label() {
    assert_eq!(af_tracking(0), Some("Off"));
    assert_eq!(af_tracking(1), Some("Face tracking"));
    assert_eq!(af_tracking(2), Some("Lock-On AF"));
    assert_eq!(af_tracking(3), None);
}

#[test]
fn the_sony_af_area_maps_to_its_label_on_ilce_nex_and_zv_bodies() {
    for model in ["ILCE-7M5", "NEX-7", "ZV-E10"] {
        for (v, label) in [
            (0, "Wide"),
            (1, "Center"),
            (3, "Flexible Spot"),
            (4, "Flexible Spot (LA-EA4)"),
            (9, "Center (LA-EA4)"),
            (11, "Zone"),
            (12, "Expanded Flexible Spot"),
            (13, "Custom AF Area"),
        ] {
            assert_eq!(af_area(Some(model), v), Some(label));
        }
        for v in [2, 8, 255] {
            assert_eq!(af_area(Some(model), v), None);
        }
    }
}

#[test]
fn the_sony_af_area_is_left_out_on_other_bodies() {
    for model in [
        Some("ILME-FX3"),
        Some("ILCA-99M2"),
        Some("SLT-A99V"),
        Some("DSC-RX100M7"),
        Some("LEICA M11-P"),
        None,
    ] {
        assert_eq!(af_area(model, 0), None);
    }
}

#[test]
fn a_model_equal_to_a_prefix_reads_the_table() {
    assert_eq!(af_area(Some("ZV-"), 0), Some("Wide"));
    assert_eq!(af_area(Some("ZV"), 0), None);
    assert_eq!(af_area(Some(""), 0), None);
}
