//! The labels of the Sony focus settings and the camera name, as the
//! metadata pane shows them.

use vstd::prelude::*;

use crate::text::{chars_of, concat};

verus! {

/// The view of an optional string slice.
pub open spec fn opt_str(o: Option<&str>) -> Option<Seq<char>> {
    match o {
        Some(s) => Some(s@),
        None => None,
    }
}

/// The label of a Sony `FocusMode` (0x201b) value, as ExifTool's Sony.pm
/// `%Sony::Main` names it.
pub open spec fn focus_mode_label(v: u8) -> Option<Seq<char>> {
    if v == 0 {
        Some("Manual"@)
    } else if v == 2 {
        Some("AF-S"@)
    } else if v == 3 {
        Some("AF-C"@)
    } else if v == 4 {
        Some("AF-A"@)
    } else if v == 6 {
        Some("DMF"@)
    } else if v == 7 {
        Some("AF-D"@)
    } else {
        None
    }
}

/// Sony `FocusMode` (0x201b), labeled as ExifTool's Sony.pm `%Sony::Main`.
pub fn focus_mode(v: u8) -> (r: Option<&'static str>)
    ensures
        opt_str(r) == focus_mode_label(v),
{
    match v {
        0 => Some("Manual"),
        2 => Some("AF-S"),
        3 => Some("AF-C"),
        4 => Some("AF-A"),
        6 => Some("DMF"),
        7 => Some("AF-D"),
        _ => None,
    }
}

/// The label of a Sony `AFTracking` (0x2021) value.
pub open spec fn af_tracking_label(v: u8) -> Option<Seq<char>> {
    if v == 0 {
        Some("Off"@)
    } else if v == 1 {
        Some("Face tracking"@)
    } else if v == 2 {
        Some("Lock-On AF"@)
    } else {
        None
    }
}

/// Sony `AFTracking` (0x2021), labeled as ExifTool's Sony.pm `%Sony::Main`.
pub fn af_tracking(v: u8) -> (r: Option<&'static str>)
    ensures
        opt_str(r) == af_tracking_label(v),
{
    match v {
        0 => Some("Off"),
        1 => Some("Face tracking"),
        2 => Some("Lock-On AF"),
        _ => None,
    }
}

/// Whether `s` starts with `prefix`.
pub open spec fn starts_with(s: Seq<char>, prefix: Seq<char>) -> bool {
    s.len() >= prefix.len() && s.take(prefix.len() as int) == prefix
}

/// Whether a camera model is a body read with the NEX/ILCE/ZV table.
pub open spec fn area_table_body(model: Seq<char>) -> bool {
    starts_with(model, "ILCE-"@) || starts_with(model, "NEX-"@) || starts_with(model, "ZV-"@)
}

/// The label of a Sony `AFAreaModeSetting` (0x201c) value in the NEX/ILCE/ZV
/// table.
pub open spec fn af_area_value_label(v: u8) -> Option<Seq<char>> {
    if v == 0 {
        Some("Wide"@)
    } else if v == 1 {
        Some("Center"@)
    } else if v == 3 {
        Some("Flexible Spot"@)
    } else if v == 4 {
        Some("Flexible Spot (LA-EA4)"@)
    } else if v == 9 {
        Some("Center (LA-EA4)"@)
    } else if v == 11 {
        Some("Zone"@)
    } else if v == 12 {
        Some("Expanded Flexible Spot"@)
    } else if v == 13 {
        Some("Custom AF Area"@)
    } else {
        None
    }
}

/// The label of an `AFAreaModeSetting` value on a body of `model`: none
/// without a model, or on a body the table does not cover.
pub open spec fn af_area_label(model: Option<Seq<char>>, v: u8) -> Option<Seq<char>> {
    match model {
        Some(m) => if area_table_body(m) {
            af_area_value_label(v)
        } else {
            None
        },
        None => None,
    }
}

/// Whether `s` starts with `prefix`, checked char by char.
pub(crate) fn str_starts_with(s: &str, prefix: &str) -> (r: bool)
    ensures
        r == starts_with(s@, prefix@),
{
    let a = chars_of(s);
    let b = chars_of(prefix);
    if a.len() < b.len() {
        return false;
    }
    let mut i: usize = 0;
    while i < b.len()
        invariant
            a@ == s@,
            b@ == prefix@,
            a@.len() >= b@.len(),
            i <= b@.len(),
            forall|j: int| 0 <= j < i ==> a@[j] == b@[j],
        decreases b@.len() - i,
    {
        if a[i] != b[i] {
            assert(s@.take(prefix@.len() as int)[i as int] != prefix@[i as int]);
            return false;
        }
        i = i + 1;
    }
    assert(s@.take(prefix@.len() as int) =~= prefix@);
    true
}

/// Sony `AFAreaModeSetting` (0x201c), labeled with ExifTool's Sony.pm
/// NEX/ILCE/ZV table. The SLT/HV and ILCA tables are intentionally not
/// mapped, and the `ILME-` and RX/HX `DSC-` bodies ExifTool also reads with
/// this table are deliberately left out.
pub fn af_area(model: Option<&str>, v: u8) -> (r: Option<&'static str>)
    ensures
        opt_str(r) == af_area_label(opt_str(model), v),
{
    let model = match model {
        Some(m) => m,
        None => {
            return None;
        },
    };
    if !(str_starts_with(model, "ILCE-") || str_starts_with(model, "NEX-") || str_starts_with(
        model,
        "ZV-",
    )) {
        return None;
    }
    match v {
        0 => Some("Wide"),
        1 => Some("Center"),
        3 => Some("Flexible Spot"),
        4 => Some("Flexible Spot (LA-EA4)"),
        9 => Some("Center (LA-EA4)"),
        11 => Some("Zone"),
        12 => Some("Expanded Flexible Spot"),
        13 => Some("Custom AF Area"),
        _ => None,
    }
}

/// The camera's name from its make and model: both joined by a space (the
/// model usually already starts with the make, so neither is dropped), else
/// whichever there is.
pub open spec fn camera_name(make: Option<Seq<char>>, model: Option<Seq<char>>) -> Option<
    Seq<char>,
> {
    match (make, model) {
        (Some(a), Some(b)) => Some(a + " "@ + b),
        (Some(a), None) => Some(a),
        (None, Some(b)) => Some(b),
        (None, None) => None,
    }
}

/// The camera's name from its make and model, as the metadata pane shows
/// it.
pub fn camera(make: Option<&str>, model: Option<&str>) -> (r: Option<String>)
    ensures
        match r {
            Some(s) => camera_name(opt_str(make), opt_str(model)) == Some(s@),
            None => camera_name(opt_str(make), opt_str(model)) is None,
        },
{
    match (make, model) {
        (Some(a), Some(b)) => {
            let first = concat(a, " ");
            Some(concat(first.as_str(), b))
        },
        (Some(a), None) => Some(a.to_string()),
        (None, Some(b)) => Some(b.to_string()),
        (None, None) => None,
    }
}

} // verus!
