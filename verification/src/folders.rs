//! The folder tree: the top-level roots, and one folder's subfolders with
//! its own RAW count, built from what a directory listing found.

use vstd::prelude::*;

use crate::exif::starts_with;
use crate::keymap::has_infix;
use crate::order::{keyed, keys_sorted, sort_by_key, with_key};
use crate::sidecar::{
    entry_extension, file_name_of, final_name, is_raw_file, opt_view, portable_path, raw_extension,
    simple_name,
};

verus! {

/// One folder of the tree: its name and its path.
#[derive(Debug, PartialEq, Eq)]
pub struct FolderNode {
    pub name: String,
    pub path: String,
}

/// One folder's own RAW count and its visible subfolders.
#[derive(Debug, PartialEq, Eq)]
pub struct Folder {
    pub raw_count: usize,
    pub children: Vec<FolderNode>,
}

/// The name a folder at `path` shows: its file name, or the path itself
/// for a drive root such as `C:\`, which has none.
pub open spec fn node_name(path: Seq<char>, file_name: Option<Seq<char>>) -> Seq<char> {
    match file_name {
        Some(n) => n,
        None => path,
    }
}

/// The tree node of the folder at `path`: `node_named` on the file name the
/// platform reads in it. A drive root such as `C:\` has no file name, so it
/// is named by its path.
pub fn node(path: &str) -> (r: FolderNode)
    ensures
        r.path@ == path@,
        portable_path(path@) && final_name(path@) is Some ==> r.name@ == node_name(
            path@,
            final_name(path@),
        ),
        simple_name(path@) ==> r.name@ == node_name(
            path@,
            crate::sidecar::entry_file_name(path@),
        ),
{
    let name = file_name_of(path);
    let given: Option<&str> = match &name {
        Some(n) => Some(n.as_str()),
        None => None,
    };
    node_named(path, given)
}

/// The tree node of the folder at `path`, whose file name the platform
/// reads as `file_name`: named by it, or by the path when it has none.
pub fn node_named(path: &str, file_name: Option<&str>) -> (r: FolderNode)
    ensures
        r.path@ == path@,
        r.name@ == node_name(
            path@,
            match file_name {
                Some(n) => Some(n@),
                None => None,
            },
        ),
{
    let name = match file_name {
        Some(n) => n.to_string(),
        None => path.to_string(),
    };
    FolderNode { name, path: path.to_string() }
}

/// `str::to_lowercase`: the full Unicode lower-casing of a text.
pub uninterp spec fn lowercase_text(s: Seq<char>) -> Seq<char>;

/// `str::to_lowercase` of `s`.
#[verifier::external_body]
fn to_lowercase(s: &str) -> (r: String)
    ensures
        r@ == lowercase_text(s@),
{
    s.to_lowercase()
}

/// One entry of a directory listing, as the folder tree looks at it:
/// whether it is a directory or a file (following a symlink), and whether
/// the platform hides it.
#[derive(Debug, PartialEq, Eq)]
pub struct ListedEntry {
    pub path: String,
    pub name: String,
    pub is_dir: bool,
    pub is_file: bool,
    pub hidden: bool,
}

/// Whether a listed entry shows as a subfolder: a directory whose name does
/// not start with `.` and that the platform does not hide.
pub open spec fn shows_as_child(e: ListedEntry) -> bool {
    e.is_dir && !starts_with(e.name@, "."@) && !e.hidden
}

/// Whether a listed entry counts as a RAW file: a file, not a directory,
/// named as a RAW.
pub open spec fn counts_as_raw(e: ListedEntry) -> bool {
    !e.is_dir && e.is_file && raw_extension(entry_extension(e.name@))
}

/// How many of `entries` count as RAW files.
pub open spec fn raw_count_of(entries: Seq<ListedEntry>) -> nat
    decreases entries.len(),
{
    if entries.len() == 0 {
        0
    } else {
        raw_count_of(entries.drop_last()) + if counts_as_raw(entries.last()) {
            1nat
        } else {
            0nat
        }
    }
}

/// The subfolders among `entries`, in listing order, as (path, name).
pub open spec fn children_of(entries: Seq<ListedEntry>) -> Seq<(Seq<char>, Seq<char>)>
    decreases entries.len(),
{
    if entries.len() == 0 {
        Seq::empty()
    } else {
        let rest = children_of(entries.drop_last());
        if shows_as_child(entries.last()) {
            rest.push((entries.last().path@, entries.last().name@))
        } else {
            rest
        }
    }
}

/// The (path, name) of each node.
pub open spec fn node_views(v: Seq<FolderNode>) -> Seq<(Seq<char>, Seq<char>)> {
    v.map_values(|n: FolderNode| (n.path@, n.name@))
}

/// The (path, name) of a keyed node.
pub open spec fn keyed_node() -> spec_fn((Seq<char>, FolderNode)) -> (Seq<char>, Seq<char>) {
    |e: (Seq<char>, FolderNode)| (e.1.path@, e.1.name@)
}

/// The (lower-cased name, node) pairs of a list.
pub open spec fn by_lowercase(v: Seq<(Seq<char>, Seq<char>)>) -> Seq<(Seq<char>, (Seq<char>, Seq<char>))> {
    v.map_values(|c: (Seq<char>, Seq<char>)| (lowercase_text(c.1), c))
}

/// One listing of a folder: how many RAW files it holds, and its visible
/// subfolders (named by their entry names, which are one component each)
/// sorted case-insensitively. Children are not probed for RAW files.
pub fn folder_of(entries: &Vec<ListedEntry>) -> (r: Folder)
    ensures
        r.raw_count == raw_count_of(entries@),
        keys_sorted(by_lowercase(node_views(r.children@))),
        by_lowercase(node_views(r.children@)).to_multiset() == by_lowercase(
            children_of(entries@),
        ).to_multiset(),
        forall|k: Seq<char>|
            #[trigger] by_lowercase(node_views(r.children@)).filter(
                with_key::<(Seq<char>, Seq<char>)>(k),
            ) == by_lowercase(children_of(entries@)).filter(
                with_key::<(Seq<char>, Seq<char>)>(k),
            ),
{
    let mut raw_count: usize = 0;
    let mut keyed_children: Vec<(String, FolderNode)> = Vec::new();
    let mut i: usize = 0;
    assert(entries@.take(0) =~= Seq::<ListedEntry>::empty());
    while i < entries.len()
        invariant
            i <= entries@.len(),
            raw_count == raw_count_of(entries@.take(i as int)),
            raw_count <= i,
            keyed(keyed_children@).map_values(keyed_node()) == children_of(entries@.take(i as int)),
            forall|k: int|
                0 <= k < keyed_children@.len() ==> (#[trigger] keyed_children@[k]).0@
                    == lowercase_text(keyed_children@[k].1.name@),
        decreases entries@.len() - i,
    {
        let e = &entries[i];
        let ghost t = entries@.take(i + 1);
        assert(t.drop_last() =~= entries@.take(i as int));
        assert(t.last() == *e);
        if e.is_dir {
            if !crate::exif::str_starts_with(e.name.as_str(), ".") && !e.hidden {
                let key = to_lowercase(e.name.as_str());
                let child = FolderNode { name: e.name.clone(), path: e.path.clone() };
                let ghost before = keyed_children@;
                keyed_children.push((key, child));
                assert(keyed(keyed_children@).map_values(keyed_node()) =~= keyed(
                    before,
                ).map_values(keyed_node()).push((e.path@, e.name@)));
            }
        } else if e.is_file && is_raw_file(e.name.as_str()) {
            raw_count = raw_count + 1;
        }
        i = i + 1;
    }
    assert(entries@.take(i as int) =~= entries@);
    let ghost kc = keyed(keyed_children@);
    assert forall|k: int| 0 <= k < kc.len() implies #[trigger] kc[k].0 == lowercase_text(
        kc[k].1.name@,
    ) by {
        assert(kc[k] == (keyed_children@[k].0@, keyed_children@[k].1));
    }
    let sorted = sort_by_key(keyed_children);
    let mut children: Vec<FolderNode> = Vec::new();
    let mut j: usize = 0;
    let ghost ks = keyed(sorted@);
    while j < sorted.len()
        invariant
            j <= sorted@.len(),
            ks == keyed(sorted@),
            node_views(children@) == ks.take(j as int).map_values(keyed_node()),
        decreases sorted@.len() - j,
    {
        let ghost before = node_views(children@);
        assert(ks[j as int] == (sorted@[j as int].0@, sorted@[j as int].1));
        let name = sorted[j].1.name.clone();
        let path = sorted[j].1.path.clone();
        assert(name@ == ks[j as int].1.name@ && path@ == ks[j as int].1.path@);
        children.push(FolderNode { name, path });
        assert(node_views(children@) =~= before.push((ks[j as int].1.path@, ks[j as int].1.name@)));
        assert(ks.take(j + 1) =~= ks.take(j as int).push(ks[j as int]));
        assert(ks.take(j + 1).map_values(keyed_node()) =~= ks.take(j as int).map_values(
            keyed_node(),
        ).push(keyed_node()(ks[j as int])));
        j = j + 1;
    }
    assert(ks.take(j as int) =~= ks);
    proof {
        broadcast use vstd::seq_lib::to_multiset_contains;

        assert forall|k: int| 0 <= k < ks.len() implies #[trigger] ks[k].0 == lowercase_text(
            ks[k].1.name@,
        ) by {
            assert(ks.contains(ks[k]));
            assert(ks.to_multiset().count(ks[k]) > 0);
            assert(kc.to_multiset().count(ks[k]) > 0);
            assert(kc.contains(ks[k]));
            let w = choose|w: int| 0 <= w < kc.len() && kc[w] == ks[k];
            assert(kc[w].0 == lowercase_text(kc[w].1.name@));
        }
        let g = |e: (Seq<char>, FolderNode)| (lowercase_text(e.1.name@), (e.1.path@, e.1.name@));
        assert(by_lowercase(node_views(children@)) =~= ks.map_values(g));
        assert(by_lowercase(children_of(entries@)) =~= kc.map_values(g));
        crate::order::lemma_map_keeps_multiset(ks, kc, g);
        assert forall|k: Seq<char>| #[trigger] by_lowercase(node_views(children@)).filter(
            with_key::<(Seq<char>, Seq<char>)>(k),
        ) == by_lowercase(children_of(entries@)).filter(
            with_key::<(Seq<char>, Seq<char>)>(k),
        ) by {
            crate::order::lemma_filter_key_map(ks, g, k);
            crate::order::lemma_filter_key_map(kc, g, k);
        }
        let bl = by_lowercase(node_views(children@));
        assert forall|a: int, b: int| 0 <= a < b < bl.len() implies !crate::settings::text_less(
            #[trigger] bl[b].0,
            #[trigger] bl[a].0,
        ) by {
            assert(bl[a].0 == ks[a].0);
            assert(bl[b].0 == ks[b].0);
        }
    }
    Folder { raw_count, children }
}

/// An absolute `/`-separated path written the one way it is read on every
/// platform: no `\` or `:`, no empty component (a doubled or trailing `/`,
/// but for the root `/` itself), and no `.` or `..` component.
pub open spec fn clean_path(s: Seq<char>) -> bool {
    &&& s.len() > 0
    &&& s[0] == '/'
    &&& portable_path(s)
    &&& (s.len() == 1 || s.last() != '/')
    &&& !has_infix(s, "//"@)
    &&& !has_infix(s, "/./"@)
    &&& !has_infix(s, "/../"@)
    &&& !(s.len() >= 2 && s.subrange(s.len() - 2, s.len() as int) == "/."@)
    &&& !(s.len() >= 3 && s.subrange(s.len() - 3, s.len() as int) == "/.."@)
}

/// Whether the clean path `base` is a leading run of whole components of
/// the clean path `path`: the root, the path itself, or what comes before a
/// `/` of it.
pub open spec fn under(path: Seq<char>, base: Seq<char>) -> bool {
    ||| base == "/"@
    ||| path == base
    ||| (path.len() > base.len() && path.subrange(0, base.len() as int) == base && path[base.len() as int] == '/')
}

/// `Path::starts_with`: whether `base` is a leading run of whole
/// components of `path`. Stated for clean paths, whose components are the
/// runs between the `/`s on every platform; of others, whose components
/// the platform splits in its own way, nothing is stated.
#[verifier::external_body]
fn path_starts_with(path: &str, base: &str) -> (r: bool)
    ensures
        clean_path(path@) && clean_path(base@) ==> r == under(path@, base@),
{
    std::path::Path::new(path).starts_with(base)
}

/// Whether a volume that resolves to `canonical` is an alias of an
/// ancestor of the home directory, whose resolved path is `home`. Only
/// macOS has such aliases (`/Volumes/Macintosh HD` is a link to `/`): on
/// other platforms a volume under home's drive is a real root of its own.
pub fn is_ancestor_alias(home: Option<&str>, canonical: &str, macos: bool) -> (r: bool)
    ensures
        r ==> macos && home is Some,
        macos && home is Some && clean_path(home->0@) && clean_path(canonical@) ==> r == under(
            home->0@,
            canonical@,
        ),
{
    if !macos {
        return false;
    }
    match home {
        Some(h) => path_starts_with(h, canonical),
        None => false,
    }
}

/// A volume in the abstract: its path, its resolved path (`None` when it
/// cannot be resolved), and whether it is an alias of an ancestor of home.
pub type VolumeModel = (Seq<char>, Option<Seq<char>>, bool);

/// The roots of the tree, as the paths shown and the resolved paths seen:
/// the home directory, then each volume that resolves, is not an ancestor
/// alias of home, and resolves to a path not seen before.
pub open spec fn roots_model(home: Option<(Seq<char>, Seq<char>)>, volumes: Seq<VolumeModel>) -> (
    Seq<Seq<char>>,
    Seq<Seq<char>>,
)
    decreases volumes.len(),
{
    if volumes.len() == 0 {
        match home {
            Some((p, c)) => (seq![p], seq![c]),
            None => (Seq::empty(), Seq::empty()),
        }
    } else {
        let (shown, seen) = roots_model(home, volumes.drop_last());
        let (p, c, alias) = volumes.last();
        match c {
            Some(c) => if seen.contains(c) || alias {
                (shown, seen)
            } else {
                (shown.push(p), seen.push(c))
            },
            None => (shown, seen),
        }
    }
}

/// The home directory as the model reads it: shown and resolved paths.
pub open spec fn home_view(home: Option<(String, String)>) -> Option<(Seq<char>, Seq<char>)> {
    match home {
        Some((p, c)) => Some((p@, c@)),
        None => None,
    }
}

/// The volumes as the model reads them.
pub open spec fn volume_views(v: Seq<(String, Option<String>, bool)>) -> Seq<VolumeModel> {
    v.map_values(
        |e: (String, Option<String>, bool)|
            (
                e.0@,
                match e.1 {
                    Some(c) => Some(c@),
                    None => None,
                },
                e.2,
            ),
    )
}

/// Whether the text `c` is one of `seen`.
fn seen_has(seen: &Vec<String>, c: &str) -> (r: bool)
    ensures
        r == seen@.map_values(|s: String| s@).contains(c@),
{
    let ghost sv = seen@.map_values(|s: String| s@);
    let mut i: usize = 0;
    while i < seen.len()
        invariant
            i <= seen@.len(),
            sv == seen@.map_values(|s: String| s@),
            forall|k: int| 0 <= k < i ==> sv[k] != c@,
        decreases seen@.len() - i,
    {
        if crate::text::same_str(seen[i].as_str(), c) {
            assert(sv[i as int] == c@);
            return true;
        }
        i = i + 1;
    }
    false
}

/// The home directory (shown as `home.0`, resolved to `home.1`), then the
/// mounted volumes: a volume that does not resolve, that resolves to a path
/// already shown (a plain duplicate of home or of another volume), or that
/// is an alias of an ancestor of home (see `is_ancestor_alias`), is
/// dropped, since home already stands for it.
pub fn roots(home: Option<(String, String)>, volumes: Vec<(String, Option<String>, bool)>) -> (r: Vec<
    FolderNode,
>)
    ensures
        r@.map_values(|n: FolderNode| n.path@) == roots_model(
            home_view(home),
            volume_views(volumes@),
        ).0,
{
    let ghost hv = home_view(home);
    let ghost vv = volume_views(volumes@);
    let mut seen: Vec<String> = Vec::new();
    let mut nodes: Vec<FolderNode> = Vec::new();
    if let Some((path, canonical)) = &home {
        seen.push(canonical.clone());
        nodes.push(node(path.as_str()));
    }
    assert(vv.take(0) =~= Seq::<VolumeModel>::empty());
    assert(nodes@.map_values(|n: FolderNode| n.path@) =~= roots_model(hv, vv.take(0)).0);
    assert(seen@.map_values(|s: String| s@) =~= roots_model(hv, vv.take(0)).1);
    let mut i: usize = 0;
    while i < volumes.len()
        invariant
            i <= volumes@.len(),
            vv == volume_views(volumes@),
            nodes@.map_values(|n: FolderNode| n.path@) == roots_model(hv, vv.take(i as int)).0,
            seen@.map_values(|s: String| s@) == roots_model(hv, vv.take(i as int)).1,
        decreases volumes@.len() - i,
    {
        let ghost t = vv.take(i + 1);
        assert(t.drop_last() =~= vv.take(i as int));
        let (path, canonical, alias) = &volumes[i];
        assert(t.last() == vv[i as int]);
        match canonical {
            Some(c) => {
                if !(seen_has(&seen, c.as_str()) || *alias) {
                    let ghost before_n = nodes@.map_values(|n: FolderNode| n.path@);
                    let ghost before_s = seen@.map_values(|s: String| s@);
                    seen.push(c.clone());
                    nodes.push(node(path.as_str()));
                    assert(nodes@.map_values(|n: FolderNode| n.path@) =~= before_n.push(path@));
                    assert(seen@.map_values(|s: String| s@) =~= before_s.push(c@));
                }
            },
            None => {},
        }
        i = i + 1;
    }
    assert(vv.take(i as int) =~= vv);
    nodes
}

} // verus!
