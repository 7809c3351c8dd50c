use riffle::index::Flag;
use riffle::judging::{
    digits, fresh_sidecar, int_to_text, judgment_for, label_write_needed, resolved_label,
    retry_after, trash_prompt, FreshSidecar, Judgment,
};
use riffle::sidecar::SidecarFormat;

#[test]
fn a_rating_outside_the_range_is_refused() {
    assert_eq!(
        judgment_for(6, false, None, SidecarFormat::Xmp),
        Err("rating 6 is outside -1..=5".to_string())
    );
    assert_eq!(
        judgment_for(-2, false, None, SidecarFormat::Xmp),
        Err("rating -2 is outside -1..=5".to_string())
    );
    assert_eq!(
        judgment_for(-128, false, None, SidecarFormat::Xmp),
        Err("rating -128 is outside -1..=5".to_string())
    );
}

#[test]
fn a_pick_is_kept_only_under_dop_and_not_on_a_reject() {
    assert_eq!(
        judgment_for(3, true, Some("Red".to_string()), SidecarFormat::Dop),
        Ok(Judgment { rating: Some(3), pick: true, label: Some("Red".to_string()) })
    );
    assert_eq!(
        judgment_for(3, true, None, SidecarFormat::Xmp),
        Ok(Judgment { rating: Some(3), pick: false, label: None })
    );
    assert_eq!(
        judgment_for(-1, true, None, SidecarFormat::Dop),
        Ok(Judgment { rating: Some(-1), pick: false, label: None })
    );
    assert_eq!(
        judgment_for(0, false, Some(String::new()), SidecarFormat::Both),
        Ok(Judgment { rating: None, pick: false, label: None })
    );
}

#[test]
fn numbers_are_written_in_decimal() {
    assert_eq!(digits(0), "0");
    assert_eq!(digits(1234567890), "1234567890");
    assert_eq!(int_to_text(-45), "-45");
    assert_eq!(int_to_text(i64::MIN), "-9223372036854775808");
}

#[test]
fn the_trash_prompt_counts_the_files() {
    assert_eq!(trash_prompt(0), Err("no rejected files to move".to_string()));
    assert_eq!(trash_prompt(1), Ok("Move 1 rejected file to the Trash?".to_string()));
    assert_eq!(trash_prompt(12), Ok("Move 12 rejected files to the Trash?".to_string()));
}

#[test]
fn clearing_a_rating_writes_no_sidecar_when_there_is_none() {
    assert_eq!(fresh_sidecar(None, Flag::Unflagged, false), FreshSidecar::Skip);
    assert_eq!(fresh_sidecar(None, Flag::Unflagged, true), FreshSidecar::LabelOnly);
    assert_eq!(fresh_sidecar(Some(2), Flag::Unflagged, false), FreshSidecar::RatingThenLabel);
    assert_eq!(fresh_sidecar(None, Flag::Pick, false), FreshSidecar::RatingThenLabel);
}

#[test]
fn clearing_a_missing_label_skips_the_label_write() {
    assert!(!label_write_needed(false, false));
    assert!(label_write_needed(false, true));
    assert!(label_write_needed(true, false));
}

#[test]
fn an_unknown_label_keeps_the_sidecars_own() {
    assert_eq!(resolved_label(true, None, Some("Red".to_string())), None);
    assert_eq!(resolved_label(false, None, Some("Red".to_string())), Some("Red".to_string()));
}

#[test]
fn a_drain_never_retries() {
    assert_eq!(retry_after(1, true), None);
    assert_eq!(retry_after(1, false), Some(1));
    assert_eq!(retry_after(6, false), None);
}
