use fstojson::json::serialize;
use fstojson::node::{NodeKind, PathNode};
use fstojson::tree::FsTree;
use fstojson::walk::{attach_listing, entry_names, DirEntry, Walk, WalkError};

fn entry(path: &str, is_dir: bool) -> DirEntry {
    DirEntry { path: path.to_string(), is_dir }
}

/// A fixed hierarchy: root/ holds a.txt and b/, and b/ holds c.txt.
fn listing_of(dir: &str) -> Vec<DirEntry> {
    match dir {
        "root" => vec![entry("root/a.txt", false), entry("root/b", true)],
        "root/b" => vec![entry("root/b/c.txt", false)],
        _ => Vec::new(),
    }
}

fn walk_fixture(recursive: bool) -> Walk {
    let mut w = Walk::start("root", true, "/w", recursive).unwrap();
    let mut listed = Vec::new();
    while let Some(dir) = w.next_dir() {
        listed.push(dir.clone());
        w.on_listing(Some(listing_of(&dir))).unwrap();
    }
    let expected_listings = if recursive { 2 } else { 1 };
    assert_eq!(listed.len(), expected_listings);
    w
}

fn recursive_compact() -> String {
    [
    "{\"name\":\"root\",\"relative_path\":\"root\",\"absolute_path\":\"/w/root\",",
    "\"node_type\":\"Directory\",\"children\":[",
    "{\"name\":\"a.txt\",\"relative_path\":\"root/a.txt\",\"absolute_path\":\"/w/root/a.txt\",",
    "\"node_type\":\"File\"},",
    "{\"name\":\"b\",\"relative_path\":\"root/b\",\"absolute_path\":\"/w/root/b\",",
    "\"node_type\":\"Directory\",\"children\":[",
    "{\"name\":\"c.txt\",\"relative_path\":\"root/b/c.txt\",\"absolute_path\":\"/w/root/b/c.txt\",",
    "\"node_type\":\"File\"}]}]}",
    ]
    .concat()
}

#[test]
fn recursive_walk_yields_nested_children() {
    let w = walk_fixture(true);
    assert_eq!(serialize(w.tree(), false), recursive_compact());
}

#[test]
fn non_recursive_walk_leaves_subdirectory_empty() {
    let w = walk_fixture(false);
    let expected = [
        "{\"name\":\"root\",\"relative_path\":\"root\",\"absolute_path\":\"/w/root\",",
        "\"node_type\":\"Directory\",\"children\":[",
        "{\"name\":\"a.txt\",\"relative_path\":\"root/a.txt\",\"absolute_path\":\"/w/root/a.txt\",",
        "\"node_type\":\"File\"},",
        "{\"name\":\"b\",\"relative_path\":\"root/b\",\"absolute_path\":\"/w/root/b\",",
        "\"node_type\":\"Directory\",\"children\":[]}]}",
    ]
    .concat();
    assert_eq!(serialize(w.tree(), false), expected);
}

#[test]
fn pretty_layout_is_indented() {
    let w = walk_fixture(false);
    let expected = [
        "{\n",
        "  \"name\": \"root\",\n",
        "  \"relative_path\": \"root\",\n",
        "  \"absolute_path\": \"/w/root\",\n",
        "  \"node_type\": \"Directory\",\n",
        "  \"children\": [\n",
        "    {\n",
        "      \"name\": \"a.txt\",\n",
        "      \"relative_path\": \"root/a.txt\",\n",
        "      \"absolute_path\": \"/w/root/a.txt\",\n",
        "      \"node_type\": \"File\"\n",
        "    },\n",
        "    {\n",
        "      \"name\": \"b\",\n",
        "      \"relative_path\": \"root/b\",\n",
        "      \"absolute_path\": \"/w/root/b\",\n",
        "      \"node_type\": \"Directory\",\n",
        "      \"children\": []\n",
        "    }\n",
        "  ]\n",
        "}",
    ]
    .concat();
    assert_eq!(serialize(w.tree(), true), expected);
}

#[test]
fn pretty_and_compact_parse_to_the_same_value() {
    let w = walk_fixture(true);
    let pretty: serde_json::Value = serde_json::from_str(&serialize(w.tree(), true)).unwrap();
    let compact: serde_json::Value = serde_json::from_str(&serialize(w.tree(), false)).unwrap();
    assert_eq!(pretty, compact);
    assert!(!serialize(w.tree(), false).contains('\n'));
}

#[test]
fn serialization_is_repeatable() {
    let w = walk_fixture(true);
    assert_eq!(serialize(w.tree(), true), serialize(w.tree(), true));
    assert_eq!(serialize(w.tree(), false), serialize(w.tree(), false));
}

#[test]
fn files_carry_no_children_key() {
    let w = walk_fixture(true);
    let v: serde_json::Value = serde_json::from_str(&serialize(w.tree(), false)).unwrap();
    let a = &v["children"][0];
    assert_eq!(a["node_type"], "File");
    assert!(a.get("children").is_none());
    let c = &v["children"][1]["children"][0];
    assert_eq!(c["node_type"], "File");
    assert!(c.get("children").is_none());
}

#[test]
fn one_level_listing_gives_one_child_per_entry_in_order() {
    let mut w = Walk::start("d", true, "/w", false).unwrap();
    let listing = vec![
        entry("d/z", true),
        entry("d/m.txt", false),
        entry("d/a", false),
        entry("d/y", true),
    ];
    let ids = w.on_listing(Some(listing)).unwrap();
    assert_eq!(ids.len(), 4);
    assert!(w.next_dir().is_none());
    let t = w.tree();
    assert_eq!(t.children(t.root()), ids);
    let names: Vec<String> = ids.iter().map(|id| t.data(*id).name.clone()).collect();
    assert_eq!(names, vec!["z", "m.txt", "a", "y"]);
    let kinds: Vec<NodeKind> = ids.iter().map(|id| t.data(*id).kind).collect();
    assert_eq!(
        kinds,
        vec![NodeKind::Directory, NodeKind::File, NodeKind::File, NodeKind::Directory]
    );
    for id in &ids {
        assert!(t.children(*id).is_empty());
    }
}

#[test]
fn recursive_walk_queues_each_subdirectory_once() {
    let mut w = Walk::start("d", true, "/w", true).unwrap();
    let listing = vec![entry("d/x", true), entry("d/f", false), entry("d/y", true)];
    w.on_listing(Some(listing)).unwrap();
    assert_eq!(w.next_dir().unwrap(), "d/y");
    w.on_listing(Some(Vec::new())).unwrap();
    assert_eq!(w.next_dir().unwrap(), "d/x");
    w.on_listing(Some(Vec::new())).unwrap();
    assert!(w.next_dir().is_none());
}

#[test]
fn names_are_final_components_except_root() {
    let mut w = Walk::start("./some/dir/", true, "/w", false).unwrap();
    w.on_listing(Some(vec![entry("./some/dir/inner.rs", false)])).unwrap();
    let t = w.tree();
    let root = t.data(t.root());
    assert_eq!(root.name, "./some/dir/");
    assert_eq!(root.relative_path, "./some/dir/");
    assert_eq!(root.absolute_path, "/w/./some/dir/");
    assert_eq!(root.kind, NodeKind::Directory);
    let child = t.data(t.children(t.root())[0]);
    assert_eq!(child.name, "inner.rs");
    assert_eq!(child.relative_path, "./some/dir/inner.rs");
    assert_eq!(child.absolute_path, "/w/./some/dir/inner.rs");
}

#[test]
fn absolute_entry_path_replaces_working_directory() {
    let mut w = Walk::start("/data", true, "/w", false).unwrap();
    w.on_listing(Some(vec![entry("/data/x", false)])).unwrap();
    let t = w.tree();
    assert_eq!(t.data(t.root()).absolute_path, "/data");
    assert_eq!(t.data(t.children(t.root())[0]).absolute_path, "/data/x");
}

#[test]
fn invalid_root_is_rejected() {
    let r = Walk::start("/does/not/exist", false, "/w", true);
    assert_eq!(r.err(), Some(WalkError::InvalidInput));
}

#[test]
fn failed_listing_aborts() {
    let mut w = Walk::start("root", true, "/w", true).unwrap();
    assert_eq!(w.on_listing(None).err(), Some(WalkError::ListingFailure));
    assert_eq!(w.next_dir().unwrap(), "root");
}

#[test]
fn entry_without_name_aborts_and_leaves_tree_unchanged() {
    let mut w = Walk::start("root", true, "/w", true).unwrap();
    let listing = vec![entry("root/a.txt", false), entry("root/..", true)];
    assert_eq!(w.on_listing(Some(listing)).err(), Some(WalkError::NameResolutionFailure));
    let t = w.tree();
    assert!(t.children(t.root()).is_empty());
    assert_eq!(w.next_dir().unwrap(), "root");
}

#[test]
fn entry_names_reports_missing_component() {
    assert_eq!(
        entry_names(&vec![entry("a/b.txt", false), entry("c", true)]),
        Some(vec!["b.txt".to_string(), "c".to_string()])
    );
    assert_eq!(entry_names(&vec![entry("a/b", false), entry("/", true)]), None);
}

#[test]
fn attach_listing_appends_after_existing_children() {
    let root_data = PathNode::new(
        "r".to_string(),
        "r".to_string(),
        "/w/r".to_string(),
        NodeKind::Directory,
    );
    let mut tree = FsTree::create_root(root_data);
    let root = tree.root();
    attach_listing(&mut tree, root, "/w", &vec![entry("r/one", false)]).unwrap();
    let ids = attach_listing(&mut tree, root, "/w", &vec![entry("r/two", true)]).unwrap();
    let kids = tree.children(root);
    assert_eq!(kids.len(), 2);
    assert_eq!(kids[1], ids[0]);
    assert_eq!(tree.data(ids[0]).name, "two");
    assert_eq!(tree.data(ids[0]).kind, NodeKind::Directory);
}

#[test]
fn names_with_quotes_are_escaped() {
    let mut w = Walk::start("q", true, "/w", false).unwrap();
    w.on_listing(Some(vec![entry("q/say \"hi\"\n", false)])).unwrap();
    let out = serialize(w.tree(), false);
    assert!(out.contains("\"name\":\"say \\\"hi\\\"\\n\""));
    let v: serde_json::Value = serde_json::from_str(&out).unwrap();
    assert_eq!(v["children"][0]["name"], "say \"hi\"\n");
}

#[test]
fn kind_labels() {
    assert_eq!(NodeKind::File.label(), "File");
    assert_eq!(NodeKind::Directory.label(), "Directory");
}
