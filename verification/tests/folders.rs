use riffle::folders::{folder_of, is_ancestor_alias, node, roots, ListedEntry};

fn entry(name: &str, is_dir: bool, is_file: bool) -> ListedEntry {
    ListedEntry {
        path: format!("/d/{name}"),
        name: name.to_string(),
        is_dir,
        is_file,
        hidden: false,
    }
}

#[test]
fn children_are_sorted_case_insensitively_without_dot_dirs() {
    let entries = vec![
        entry("beta", true, false),
        entry("Alpha", true, false),
        entry(".hidden", true, false),
        entry("gamma", true, false),
        entry("Delta", false, true),
    ];
    let folder = folder_of(&entries);
    let names: Vec<&str> = folder.children.iter().map(|c| c.name.as_str()).collect();
    assert_eq!(names, ["Alpha", "beta", "gamma"]);
    assert_eq!(folder.children[0].path, "/d/Alpha");
}

#[test]
fn raw_count_counts_only_arw_and_dng_files() {
    let mut entries: Vec<ListedEntry> = ["a.ARW", "b.arw", "c.DNG", "d.jpg", "a.xmp", "e.dop"]
        .iter()
        .map(|n| entry(n, false, true))
        .collect();
    entries.push(entry("f.ARW", true, false));
    let folder = folder_of(&entries);
    assert_eq!(folder.raw_count, 3);
}

#[test]
fn a_hidden_folder_is_not_listed() {
    let mut hidden = entry("secret", true, false);
    hidden.hidden = true;
    let folder = folder_of(&vec![hidden, entry("open", true, false)]);
    let names: Vec<&str> = folder.children.iter().map(|c| c.name.as_str()).collect();
    assert_eq!(names, ["open"]);
}

#[test]
fn roots_start_with_home_and_drop_duplicates_and_aliases() {
    let home = Some(("/Users/me".to_string(), "/Users/me".to_string()));
    let volumes = vec![
        ("/Volumes/Macintosh HD".to_string(), Some("/".to_string()), true),
        ("/Volumes/Card".to_string(), Some("/Volumes/Card".to_string()), false),
        ("/Volumes/Gone".to_string(), None, false),
        ("/Volumes/Again".to_string(), Some("/Volumes/Card".to_string()), false),
        ("/Volumes/Me".to_string(), Some("/Users/me".to_string()), false),
    ];
    let paths: Vec<String> = roots(home, volumes).into_iter().map(|n| n.path).collect();
    assert_eq!(paths, vec!["/Users/me".to_string(), "/Volumes/Card".to_string()]);
}

#[test]
fn a_node_is_named_by_its_file_name() {
    let n = node("/Volumes/Card");
    assert_eq!((n.name.as_str(), n.path.as_str()), ("Card", "/Volumes/Card"));
}

#[test]
fn only_macos_has_ancestor_aliases() {
    assert!(is_ancestor_alias(Some("/Users/me"), "/", true));
    assert!(!is_ancestor_alias(Some("/Users/me"), "/", false));
    assert!(!is_ancestor_alias(None, "/", true));
    assert!(!is_ancestor_alias(Some("/Users/me"), "/Volumes/Card", true));
}

#[test]
fn an_ancestor_alias_matches_whole_components() {
    assert!(is_ancestor_alias(Some("/Users/me"), "/Users", true));
    assert!(is_ancestor_alias(Some("/Users/me"), "/Users/me", true));
    assert!(!is_ancestor_alias(Some("/Users/me"), "/Use", true));
    assert!(!is_ancestor_alias(Some("/Users/me"), "/Users/me/Pictures", true));
}

#[test]
fn folders_whose_names_differ_only_in_case_keep_their_order() {
    let entries = vec![
        entry("b", true, false),
        entry("a", true, false),
        entry("A", true, false),
    ];
    let names: Vec<String> = folder_of(&entries).children.into_iter().map(|c| c.name).collect();
    assert_eq!(names, ["a", "A", "b"]);
    let entries = vec![entry("A", true, false), entry("a", true, false)];
    let names: Vec<String> = folder_of(&entries).children.into_iter().map(|c| c.name).collect();
    assert_eq!(names, ["A", "a"]);
}

#[test]
fn any_entry_name_is_listed_and_counted() {
    let entries = vec![entry("IMG:1.ARW", false, true), entry("a:b", true, false)];
    let folder = folder_of(&entries);
    assert_eq!(folder.raw_count, 1);
    assert_eq!(folder.children[0].name, "a:b");
}
