use directory_collection::DirectoryCollection;
use directory_collection::StoreError;

fn empty_store() -> DirectoryCollection {
    DirectoryCollection::try_load(String::from("/data/directory_library.json"), None)
        .expect("loading without a backing file must give an empty store")
}

fn header_row() -> String {
    format!(" {:<15} {:<15} \n", "Name", "Dir")
}

#[test]
fn missing_file_load_gives_empty_store() {
    let store = empty_store();
    assert_eq!(store.get("proj"), None);
    assert_eq!(store.render_table(), header_row());
    assert_eq!(store.location().as_str(), "/data/directory_library.json");
}

#[test]
fn corrupt_file_load_fails() {
    let location = String::from("/data/directory_library.json");
    let r = DirectoryCollection::try_load(location, Some(String::from("this is not json")));
    assert!(matches!(r, Err(StoreError::Load)));
}

#[test]
fn load_rejects_wrong_shapes() {
    let cases = vec![
        String::from("[1, 2, 3]"),
        String::from("{\"a\": 3}"),
        String::from("\"just a string\""),
        String::from("{\"a\": {\"b\": \"/x\"}}"),
        String::from("{\"a\": \"/x\""),
    ];
    for text in cases {
        let r = DirectoryCollection::try_load(String::from("loc"), Some(text.clone()));
        assert!(matches!(r, Err(StoreError::Load)), "accepted: {}", text);
    }
}

#[test]
fn load_decodes_a_mapping() {
    let text = String::from("{\"proj\": \"/home/user/projects/widget\", \"home\": \"/home/user\"}");
    let store = DirectoryCollection::try_load(String::from("loc"), Some(text)).unwrap();
    assert_eq!(store.get("proj").map(String::as_str), Some("/home/user/projects/widget"));
    assert_eq!(store.get("home").map(String::as_str), Some("/home/user"));
    assert_eq!(store.get("missing"), None);
}

#[test]
fn save_then_load_round_trips() {
    let mut store = empty_store();
    store.insert(String::from("proj"), Some(String::from("/home/user/projects/widget"))).unwrap();
    store.insert(String::from("home"), Some(String::from("/home/user"))).unwrap();
    let document = store.try_save();
    let reloaded = DirectoryCollection::try_load(String::from("loc"), Some(document)).unwrap();
    assert_eq!(reloaded.get("proj").map(String::as_str), Some("/home/user/projects/widget"));
    assert_eq!(reloaded.get("home").map(String::as_str), Some("/home/user"));
    assert_eq!(reloaded.get("other"), None);
}

#[test]
fn save_and_reload_keeps_every_entry() {
    let mut store = empty_store();
    store.insert(String::from("a"), Some(String::from("/one"))).unwrap();
    store.insert(String::from("b"), Some(String::from("/two"))).unwrap();
    store.insert(String::from("c"), Some(String::from("/three"))).unwrap();
    let reloaded = directory_collection::save_and_reload(&store, String::from("loc"));
    assert_eq!(reloaded.get("a").map(String::as_str), Some("/one"));
    assert_eq!(reloaded.get("b").map(String::as_str), Some("/two"));
    assert_eq!(reloaded.get("c").map(String::as_str), Some("/three"));
}

#[test]
fn inserting_the_canonical_value_again_keeps_one_entry() {
    let mut store = empty_store();
    store.insert(String::from("proj"), Some(String::from("/tmp/x"))).unwrap();
    store.insert(String::from("proj"), Some(String::from("/tmp/x"))).unwrap();
    assert_eq!(store.get("proj").map(String::as_str), Some("/tmp/x"));
    let table = store.render_table();
    assert_eq!(table.lines().count(), 2, "one header row and one entry row: {}", table);
}

#[test]
fn overwrite_keeps_one_entry_with_the_second_path() {
    let mut store = empty_store();
    store.insert(String::from("proj"), Some(String::from("/first"))).unwrap();
    store.insert(String::from("proj"), Some(String::from("/second"))).unwrap();
    assert_eq!(store.get("proj").map(String::as_str), Some("/second"));
    let table = store.render_table();
    assert_eq!(table.lines().count(), 2, "one header row and one entry row: {}", table);
}

#[test]
fn lookup_misses_on_empty_store_and_unknown_names() {
    let store = empty_store();
    assert_eq!(store.get(""), None);
    assert_eq!(store.get("proj"), None);
    let mut store = store;
    store.insert(String::from("proj"), Some(String::from("/tmp/x"))).unwrap();
    assert_eq!(store.get("Proj"), None);
    assert_eq!(store.get("proj "), None);
    assert_eq!(store.get("pro"), None);
}

#[test]
fn failed_resolution_leaves_the_store_unchanged() {
    let mut store = empty_store();
    store.insert(String::from("kept"), Some(String::from("/kept"))).unwrap();
    let before = store.render_table();
    let r = store.insert(String::from("broken"), None);
    assert_eq!(r, Err(StoreError::PathResolution));
    assert_eq!(store.get("broken"), None);
    assert_eq!(store.get("kept").map(String::as_str), Some("/kept"));
    assert_eq!(store.render_table(), before);
}

#[test]
fn clear_empties_the_store() {
    let mut store = empty_store();
    store.insert(String::from("proj"), Some(String::from("/tmp/x"))).unwrap();
    store.insert(String::from("home"), Some(String::from("/home/user"))).unwrap();
    store.clear();
    assert_eq!(store.get("proj"), None);
    assert_eq!(store.render_table(), header_row());
    assert_eq!(store.try_save(), "{}");
    store.clear();
    assert_eq!(store.try_save(), "{}", "clearing twice changes nothing");
}

#[test]
fn empty_store_saves_as_empty_object() {
    let store = empty_store();
    assert_eq!(store.try_save(), "{}");
}

#[test]
fn saved_document_is_pretty_printed_json() {
    let mut store = empty_store();
    store.insert(String::from("a"), Some(String::from("/x"))).unwrap();
    assert_eq!(store.try_save(), "{\n  \"a\": \"/x\"\n}");
}

#[test]
fn table_pads_both_columns_to_fifteen() {
    let mut store = empty_store();
    store.insert(String::from("proj"), Some(String::from("/tmp/x"))).unwrap();
    let expected = format!(" {:<15} {:<15} \n {:<15} {:<15} \n", "Name", "Dir", "proj", "/tmp/x");
    assert_eq!(store.render_table(), expected);
}

#[test]
fn table_columns_widen_to_the_longest_cell() {
    let mut store = empty_store();
    store
        .insert(
            String::from("a-rather-long-bookmark-name"),
            Some(String::from("/a/rather/deep/directory/path")),
        )
        .unwrap();
    store.insert(String::from("b"), Some(String::from("/b"))).unwrap();
    let expected = format!(
        " {:<27} {:<29} \n {:<27} {:<29} \n {:<27} {:<29} \n",
        "Name",
        "Dir",
        "a-rather-long-bookmark-name",
        "/a/rather/deep/directory/path",
        "b",
        "/b",
    );
    assert_eq!(store.render_table(), expected);
}

#[test]
fn command_scenario() {
    // save proj /tmp/x
    let mut store = empty_store();
    store.insert(String::from("proj"), Some(String::from("/tmp/x"))).unwrap();
    assert_eq!(store.get("proj").map(String::as_str), Some("/tmp/x"));

    // recall proj prints the stored path; recall missing errors out
    assert_eq!(store.get("proj").map(String::as_str), Some("/tmp/x"));
    assert_eq!(store.get("missing"), None);

    // clear-all, then list shows the header row alone
    store.clear();
    assert_eq!(store.render_table(), header_row());

    // the file on disk after the clearing save holds the empty mapping
    assert_eq!(store.try_save(), "{}");
}

#[test]
fn empty_name_is_a_valid_bookmark() {
    let mut store = empty_store();
    store.insert(String::new(), Some(String::from("/tmp/x"))).unwrap();
    assert_eq!(store.get("").map(String::as_str), Some("/tmp/x"));
    assert_eq!(store.get("x"), None);
}

#[test]
fn table_widths_count_characters_not_bytes() {
    let mut store = empty_store();
    store.insert(String::from("café"), Some(String::from("/tmp/naïve"))).unwrap();
    let expected = format!(" {:<15} {:<15} \n {:<15} {:<15} \n", "Name", "Dir", "café", "/tmp/naïve");
    assert_eq!(store.render_table(), expected);
}
