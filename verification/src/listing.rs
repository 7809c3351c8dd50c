//! One listing of an open folder: which entries are RAW files and which are
//! sidecars of the current format, and the RAW files in file name order.

use vstd::prelude::*;

use crate::order::{keyed, keys_sorted, sort_by_key, with_key};
use crate::sidecar::{entry_extension, is_raw_file, is_sidecar_of, raw_extension, SidecarFormat};

verus! {

/// What a directory entry is to a folder open.
#[derive(Clone, Copy, Debug, PartialEq, Eq, Structural)]
pub enum EntryRole {
    /// A RAW file, listed.
    Raw,
    /// A sidecar of the format asked for, whose stat is kept.
    Sidecar,
    /// Anything else, skipped.
    Other,
}

/// What the entry named `name` (a file when `is_file`, following a symlink)
/// is to a folder open looking for sidecars of `format` (none when `None`).
pub open spec fn role_of(name: Seq<char>, is_file: bool, format: Option<SidecarFormat>) -> EntryRole {
    if is_file && raw_extension(entry_extension(name)) {
        EntryRole::Raw
    } else if format matches Some(f) && is_sidecar_of(f, name) {
        EntryRole::Sidecar
    } else {
        EntryRole::Other
    }
}

/// A RAW file is listed as one; any other entry is a sidecar to stat
/// exactly when the sidecar-name rule of the format asked for accepts it,
/// and never when no format is asked for.
pub proof fn law_an_entry_is_a_sidecar_by_the_asked_format(
    name: Seq<char>,
    is_file: bool,
    format: Option<SidecarFormat>,
)
    ensures
        (role_of(name, is_file, format) == EntryRole::Raw) == (is_file && raw_extension(
            entry_extension(name),
        )),
        !(is_file && raw_extension(entry_extension(name))) ==> (role_of(name, is_file, format)
            == EntryRole::Sidecar) == (format matches Some(f) && is_sidecar_of(f, name)),
        format is None ==> role_of(name, is_file, format) != EntryRole::Sidecar,
{
}

/// The `.dop` sidecar of a RAW file (the RAW's name, `.dop` after it) is a
/// sidecar to stat when `.dop` or both formats are asked for, and skipped
/// when only XMP is; a name ending in `.xmp` is a sidecar to stat when XMP
/// or both are asked for, and skipped when only `.dop` is.
pub proof fn law_each_format_stats_its_own_sidecars(raw: Seq<char>, stem: Seq<char>, is_file: bool)
    requires
        raw_extension(entry_extension(raw)),
        stem.len() > 0,
    ensures
        role_of(raw + ".dop"@, is_file, Some(SidecarFormat::Dop)) == EntryRole::Sidecar,
        role_of(raw + ".dop"@, is_file, Some(SidecarFormat::Both)) == EntryRole::Sidecar,
        role_of(raw + ".dop"@, is_file, Some(SidecarFormat::Xmp)) == EntryRole::Other,
        role_of(stem + ".xmp"@, is_file, Some(SidecarFormat::Xmp)) == EntryRole::Sidecar,
        role_of(stem + ".xmp"@, is_file, Some(SidecarFormat::Both)) == EntryRole::Sidecar,
        role_of(stem + ".xmp"@, is_file, Some(SidecarFormat::Dop)) == EntryRole::Other,
{
    crate::sidecar::law_a_raw_name_plus_dop_is_its_dop_sidecar(raw);
    crate::sidecar::law_a_name_plus_xmp_is_an_xmp_sidecar(stem);
}

/// What the entry named `name` is to a folder open: a RAW file to list, a
/// sidecar of `format` to stat, or neither.
pub fn entry_role(name: &str, is_file: bool, format: Option<SidecarFormat>) -> (r: EntryRole)
    ensures
        r == role_of(name@, is_file, format),
        (r == EntryRole::Raw) == (is_file && raw_extension(entry_extension(name@))),
        !(is_file && raw_extension(entry_extension(name@))) ==> (r == EntryRole::Sidecar) == (
        format matches Some(f) && is_sidecar_of(f, name@)),
        format is None ==> r != EntryRole::Sidecar,
{
    if is_file && is_raw_file(name) {
        return EntryRole::Raw;
    }
    match format {
        Some(f) => if f.matches(name) {
            EntryRole::Sidecar
        } else {
            EntryRole::Other
        },
        None => EntryRole::Other,
    }
}

/// The path of a named file.
pub open spec fn path_of() -> spec_fn((Seq<char>, String)) -> Seq<char> {
    |e: (Seq<char>, String)| e.1@
}

/// The RAW files of a folder, given as `(file name, path)`, sorted by file
/// name.
pub fn sort_by_name(files: Vec<(String, String)>) -> (r: Vec<String>)
    ensures
        exists|sorted: Seq<(Seq<char>, String)>|
            keys_sorted(sorted) && sorted.to_multiset() == #[trigger] keyed(files@).to_multiset()
                && (forall|k: Seq<char>|
                #[trigger] sorted.filter(with_key::<String>(k)) == keyed(files@).filter(
                    with_key::<String>(k),
                )) && r@.map_values(|s: String| s@) == sorted.map_values(path_of()),
{
    let sorted = sort_by_key(files);
    let ghost ks = keyed(sorted@);
    let mut out: Vec<String> = Vec::new();
    let mut j: usize = 0;
    while j < sorted.len()
        invariant
            j <= sorted@.len(),
            ks == keyed(sorted@),
            out@.map_values(|s: String| s@) == ks.take(j as int).map_values(path_of()),
        decreases sorted@.len() - j,
    {
        let ghost before = out@.map_values(|s: String| s@);
        let p = sorted[j].1.clone();
        assert(p@ == ks[j as int].1@);
        out.push(p);
        assert(out@.map_values(|s: String| s@) =~= before.push(ks[j as int].1@));
        assert(ks.take(j + 1) =~= ks.take(j as int).push(ks[j as int]));
        assert(ks.take(j + 1).map_values(path_of()) =~= ks.take(j as int).map_values(
            path_of(),
        ).push(path_of()(ks[j as int])));
        j = j + 1;
    }
    assert(ks.take(j as int) =~= ks);
    out
}

} // verus!
