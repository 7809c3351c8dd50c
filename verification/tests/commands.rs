use riffle::payload::{
    crop_payload, crop_size, payload, CropTiming, FocusCrop, PixelCrop, CROP_HEADER_LEN,
    CROP_KIND_RGBA_V3, CROP_MAX, PREVIEW_HEADER_LEN, PREVIEW_KIND_JPEG_V1, THUMBNAIL_KIND_JPEG_V1,
};
use riffle::scans::{Queued, ScansState};
use riffle::settings::{auto_advance_setting, newest_photolab, parse_sort_order, StoredValue};

#[test]
fn payload_header_encodes_kind_and_orientation() {
    let jpeg = [0xff, 0xd8, 0xff, 0xd9];
    let out = payload(PREVIEW_KIND_JPEG_V1, 8, &jpeg);
    assert_eq!(out.len(), PREVIEW_HEADER_LEN + jpeg.len());
    assert_eq!(u16::from_le_bytes([out[0], out[1]]), PREVIEW_KIND_JPEG_V1);
    assert_eq!(u16::from_le_bytes([out[2], out[3]]), 8);
    assert_eq!(u32::from_le_bytes([out[4], out[5], out[6], out[7]]), 0);
    assert_eq!(&out[PREVIEW_HEADER_LEN..], &jpeg);
}

#[test]
fn thumbnail_payload_header_encodes_kind_two_and_orientation() {
    let jpeg = [0xff, 0xd8, 0xff, 0xd9];
    let out = payload(THUMBNAIL_KIND_JPEG_V1, 6, &jpeg);
    assert_eq!(u16::from_le_bytes([out[0], out[1]]), THUMBNAIL_KIND_JPEG_V1);
    assert_eq!(u16::from_le_bytes([out[2], out[3]]), 6);
    assert_eq!(&out[PREVIEW_HEADER_LEN..], &jpeg);
}

#[test]
fn a_payload_of_an_empty_jpeg_is_its_header() {
    let out = payload(0x0102, 0xfffe, &[]);
    assert_eq!(out, vec![0x02, 0x01, 0xfe, 0xff, 0, 0, 0, 0]);
}

#[test]
fn crop_payload_header_encodes_every_field() {
    let crop = FocusCrop {
        crop: PixelCrop {
            pixels: vec![1, 2, 3, 4, 5, 6, 7, 8],
            width: 2,
            height: 1,
            x: 16,
            y: 32,
            image_width: 6000,
            image_height: 4000,
        },
        point_x: 7,
        point_y: 9,
    };
    let out = crop_payload(8, &crop, CropTiming { read_us: 731, decode_us: 21_500 });
    assert_eq!(out.len(), CROP_HEADER_LEN + crop.crop.pixels.len());
    let u16at = |at: usize| u16::from_le_bytes([out[at], out[at + 1]]);
    let u32at = |at: usize| u32::from_le_bytes([out[at], out[at + 1], out[at + 2], out[at + 3]]);
    assert_eq!(u16at(0), CROP_KIND_RGBA_V3);
    assert_eq!(u16at(2), 8);
    assert_eq!(u32at(4), 2);
    assert_eq!(u32at(8), 1);
    assert_eq!(u32at(12), 7);
    assert_eq!(u32at(16), 9);
    assert_eq!(u32at(20), 731);
    assert_eq!(u32at(24), 21_500);
    assert_eq!(u16at(28), 6000);
    assert_eq!(u16at(30), 4000);
    assert_eq!(&out[CROP_HEADER_LEN..], &crop.crop.pixels);
}

#[test]
fn a_crop_payload_keeps_the_low_bits_of_an_oversized_field() {
    let crop = FocusCrop {
        crop: PixelCrop {
            pixels: vec![],
            width: 1,
            height: 1,
            x: 0,
            y: 0,
            image_width: 70_000,
            image_height: 65_536,
        },
        point_x: 0,
        point_y: 0,
    };
    let out = crop_payload(1, &crop, CropTiming { read_us: 0, decode_us: 0 });
    assert_eq!(u16::from_le_bytes([out[28], out[29]]), (70_000 % 65_536) as u16);
    assert_eq!(u16::from_le_bytes([out[30], out[31]]), 0);
}

#[test]
fn a_quarter_turn_swaps_the_viewport_and_the_cap_bounds_each_axis() {
    assert_eq!(crop_size(1, 300, 200), (300, 200));
    assert_eq!(crop_size(6, 300, 200), (200, 300));
    assert_eq!(crop_size(8, 300, 200), (200, 300));
    assert_eq!(crop_size(8, 4000, 2000), (CROP_MAX, CROP_MAX));
    assert_eq!(crop_size(1, 0, 0), (1, 1));
}

#[test]
fn an_unknown_sort_order_falls_back_to_name() {
    assert_eq!(parse_sort_order(Some("capture")), "capture");
    assert_eq!(parse_sort_order(Some("rating")), "rating");
    assert_eq!(parse_sort_order(Some("size")), "name");
    assert_eq!(parse_sort_order(None), "name");
}

#[test]
fn auto_advance_setting_reads_a_boolean_or_defaults_to_off() {
    assert!(!auto_advance_setting(None));
    assert!(auto_advance_setting(Some(&StoredValue::Bool(true))));
    assert!(!auto_advance_setting(Some(&StoredValue::Bool(false))));
    assert!(!auto_advance_setting(Some(&StoredValue::Text("true".to_string()))));
}

#[test]
fn newest_photolab_picks_the_highest_major_version() {
    let names = ["DXOPhotoLab9.app", "Safari.app", "DXOPhotoLab10.app", "DXOPhotoLabX.app"]
        .map(String::from);
    assert_eq!(
        newest_photolab(names.into_iter().collect()).as_deref(),
        Some("DXOPhotoLab10.app")
    );
    assert_eq!(newest_photolab(Vec::new()), None);
}

#[test]
fn newest_photolab_reads_versions_as_unsigned_integers() {
    let names = vec![
        "DXOPhotoLab+7.app".to_string(),
        "DXOPhotoLab-8.app".to_string(),
        "DXOPhotoLab.app".to_string(),
        "DXOPhotoLab99999999999.app".to_string(),
        "DXOPhotoLab6.app".to_string(),
    ];
    assert_eq!(newest_photolab(names).as_deref(), Some("DXOPhotoLab+7.app"));
    let tie = vec!["DXOPhotoLab07.app".to_string(), "DXOPhotoLab7.app".to_string()];
    assert_eq!(newest_photolab(tie).as_deref(), Some("DXOPhotoLab7.app"));
}

#[test]
fn a_finished_scan_leaves_no_scan_in_progress() {
    let mut state: ScansState<&str, ()> = ScansState::new();
    state.store_running(1, "task");
    assert!(state.scanning());
    state.finish(1);
    assert!(!state.scanning());
}

#[test]
fn a_superseded_scan_does_not_clear_the_newer_scan() {
    let mut state: ScansState<&str, ()> = ScansState::new();
    state.store_running(1, "old");
    let (_, old) = {
        let (id, previous) = state.begin();
        (id, previous)
    };
    assert_eq!(old.map(|(id, _)| id), Some(1));
    state.prepared();
    state.store_running(2, "new");
    state.finish(1);
    assert!(state.scanning());
    assert_eq!(state.running_id(), Some(2));
}

#[test]
fn a_folder_being_prepared_counts_as_a_scan_in_progress() {
    let mut state: ScansState<(), ()> = ScansState::new();
    assert!(!state.scanning());
    let (id, previous) = state.begin();
    assert_eq!(id, 1);
    assert!(previous.is_none());
    assert!(state.scanning());
    state.prepared();
    assert!(!state.scanning());
}

#[test]
fn queued_work_starts_only_under_the_latest_id() {
    let mut state: ScansState<(), &str> = ScansState::new();
    let (first, _) = state.begin();
    let (second, _) = state.begin();
    assert_eq!(state.queue(first, "first"), Some("first"));
    assert_eq!(state.queue(second, "second"), None);
    assert!(matches!(state.take_pending(first), Queued::Stale(None)));
    assert!(matches!(state.take_pending(second), Queued::Start("second")));
    assert!(matches!(state.take_pending(second), Queued::Missing));
}

#[test]
fn a_superseded_scan_hands_back_its_queued_work() {
    let mut state: ScansState<&str, &str> = ScansState::new();
    let (first, _) = state.begin();
    assert_eq!(state.queue(first, "/photos/day1"), None);
    let (second, _) = state.begin();
    assert!(matches!(state.take_pending(first), Queued::Stale(Some("/photos/day1"))));
    assert!(matches!(state.take_pending(second), Queued::Missing));
    state.store_running(second, "task");
    assert_eq!(state.running_id(), Some(second));
}
