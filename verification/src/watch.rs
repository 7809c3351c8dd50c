//! Which folder events are worth a rescan: the app's own sidecar writes must
//! not loop back in.

use vstd::prelude::*;

use crate::sidecar::{
    ends_with, file_name_of, final_name, is_sidecar_of, portable_path, str_ends_with,
    SidecarFormat, TEMP_SUFFIX,
};

verus! {

/// Whether a file name is one the app's own writes produce: a sidecar of
/// either format or a sidecar write temporary.
pub open spec fn own_write(name: Seq<char>) -> bool {
    ends_with(name, TEMP_SUFFIX@) || is_sidecar_of(SidecarFormat::Xmp, name) || is_sidecar_of(
        SidecarFormat::Dop,
        name,
    )
}

/// Whether an event over paths whose file names are `names` is worth a
/// rescan: it is not only when every path names a file the app's own writes
/// produce. An event without paths says nothing, so it triggers.
pub open spec fn triggers_on(names: Seq<Option<Seq<char>>>) -> bool {
    names.len() == 0 || exists|i: int|
        0 <= i < names.len() && !(#[trigger] names[i] matches Some(n) && own_write(n))
}

/// The file names a list holds, as the spec reads them.
pub open spec fn name_views(v: Seq<Option<String>>) -> Seq<Option<Seq<char>>> {
    v.map_values(|o: Option<String>| match o {
        Some(s) => Some(s@),
        None => None,
    })
}

/// Whether an event whose paths have the file names `names` (`None` for a
/// path with none) is worth a rescan: no, only when every name is a sidecar
/// of either format or a sidecar write temporary, which is what the app's
/// own writes produce. An event without paths says nothing, so it triggers.
pub fn triggers_on_names(names: &[Option<String>]) -> (r: bool)
    ensures
        r == triggers_on(name_views(names@)),
{
    let ghost views = name_views(names@);
    if names.len() == 0 {
        return true;
    }
    let mut i: usize = 0;
    while i < names.len()
        invariant
            i <= names@.len(),
            views == name_views(names@),
            views.len() == names@.len(),
            forall|k: int| 0 <= k < i ==> (#[trigger] views[k] matches Some(n) && own_write(n)),
        decreases names@.len() - i,
    {
        let own = match &names[i] {
            Some(n) => {
                let temp = str_ends_with(n.as_str(), TEMP_SUFFIX);
                temp || SidecarFormat::Xmp.matches(n.as_str()) || SidecarFormat::Dop.matches(
                    n.as_str(),
                )
            },
            None => false,
        };
        if !own {
            assert(!(views[i as int] matches Some(n) && own_write(n)));
            return true;
        }
        i = i + 1;
    }
    false
}

/// Whether an event over `paths` is worth a rescan: `triggers_on_names` on
/// the file names the platform reads in them. Those are stated for paths
/// every platform reads alike (no `\`, `:` or leading `//`, ending in a
/// name); what the platform reads in others is not, though the decision on
/// whatever names it gives is exact.
pub fn triggers(paths: &[String]) -> (r: bool)
    ensures
        paths@.len() == 0 ==> r,
        (forall|i: int|
            0 <= i < paths@.len() ==> portable_path(#[trigger] paths@[i]@) && final_name(
                paths@[i]@,
            ) is Some) ==> r == triggers_on(paths@.map_values(|p: String| final_name(p@))),
{
    let mut names: Vec<Option<String>> = Vec::new();
    let mut i: usize = 0;
    while i < paths.len()
        invariant
            i <= paths@.len(),
            names@.len() == i,
            forall|k: int|
                0 <= k < i ==> portable_path(#[trigger] paths@[k]@) && final_name(paths@[k]@)
                    is Some ==> name_views(names@)[k] == final_name(paths@[k]@),
        decreases paths@.len() - i,
    {
        let name = file_name_of(paths[i].as_str());
        let ghost before = names@;
        names.push(name);
        assert forall|k: int|
            0 <= k < i + 1 && portable_path(#[trigger] paths@[k]@) && final_name(paths@[k]@)
                is Some implies name_views(names@)[k] == final_name(paths@[k]@) by {
            if k < i {
                assert(names@[k] == before[k]);
            }
        }
        i = i + 1;
    }
    let r = triggers_on_names(names.as_slice());
    proof {
        if forall|k: int|
            0 <= k < paths@.len() ==> portable_path(#[trigger] paths@[k]@) && final_name(
                paths@[k]@,
            ) is Some {
            assert(name_views(names@) =~= paths@.map_values(|p: String| final_name(p@)));
        }
    }
    r
}

} // verus!
