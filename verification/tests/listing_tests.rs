use crabdrop::listing::add_page;
use crabdrop::listing::list_dir;
use crabdrop::listing::next_page;
use crabdrop::listing::object_entry;
use crabdrop::listing::prefix_entry;
use crabdrop::listing::sort_listing;
use crabdrop::listing::ListingPage;
use crabdrop::listing::PageStep;
use crabdrop::listing::RemoteObject;
use crabdrop::metadata::MetadataIndex;
use crabdrop::types::File;

const ID_A: &str = "3f2b8c1e-7a4d-4e9b-8c6f-0123456789ab";

fn object(key: &str, size: i64) -> RemoteObject {
    RemoteObject { key: key.to_string(), size: Some(size), last_modified: Some(1700000000) }
}

fn page(objects: Vec<RemoteObject>, prefixes: Vec<&str>) -> ListingPage {
    ListingPage {
        objects,
        common_prefixes: prefixes.into_iter().map(|p| p.to_string()).collect(),
        is_truncated: Some(false),
        next_token: None,
    }
}

fn named(name: &str, key: &str) -> File {
    File {
        name: name.to_string(),
        key: key.to_string(),
        size: None,
        is_folder: false,
        last_modified: None,
        encrypted: false,
    }
}

fn index_with_hello() -> MetadataIndex {
    MetadataIndex::parse(format!("{{\"{}\":\"hello.txt\"}}", ID_A).as_bytes()).unwrap()
}

#[test]
fn plain_object_is_shown_by_its_last_segment() {
    let index = MetadataIndex::parse(b"{}").unwrap();
    let entry = object_entry(&index, &object("docs/hello.txt", 3));
    assert_eq!(entry.name, "hello.txt");
    assert_eq!(entry.key, "docs/hello.txt");
    assert_eq!(entry.size, Some(3));
    assert_eq!(entry.last_modified, Some(1700000000));
    assert!(!entry.is_folder);
    assert!(!entry.encrypted);
}

#[test]
fn encrypted_object_is_shown_by_its_own_name() {
    let index = index_with_hello();
    let entry = object_entry(&index, &object(&format!("docs/{}", ID_A), 43));
    assert_eq!(entry.name, "hello.txt");
    assert_eq!(entry.key, format!("docs/{}", ID_A));
    assert_eq!(entry.size, Some(43));
    assert!(entry.encrypted);
    assert!(!entry.is_folder);
    let other = object_entry(&index, &object("docs/hello.txt", 3));
    assert_eq!(other.name, "hello.txt");
    assert!(!other.encrypted);
}

#[test]
fn folder_entries() {
    let index = index_with_hello();
    let entry = prefix_entry(&index, "docs/");
    assert_eq!(entry.name, "docs");
    assert_eq!(entry.key, "docs/");
    assert_eq!(entry.size, None);
    assert_eq!(entry.last_modified, None);
    assert!(entry.is_folder);
    assert!(!entry.encrypted);
    assert_eq!(prefix_entry(&index, "a/b/c/").name, "c");
    assert_eq!(prefix_entry(&index, "a/b//").name, "b");
    assert_eq!(prefix_entry(&index, "/").name, "");
    let hidden = prefix_entry(&index, &format!("docs/{}/", ID_A));
    assert_eq!(hidden.name, "hello.txt");
    assert!(hidden.encrypted);
}

#[test]
fn folder_marker_object_has_an_empty_name() {
    let index = index_with_hello();
    let entry = object_entry(&index, &object("docs/", 0));
    assert_eq!(entry.name, "");
    assert!(!entry.encrypted);
}

#[test]
fn page_gives_one_entry_per_object_and_prefix() {
    let index = index_with_hello();
    let mut entries = Vec::new();
    add_page(
        &mut entries,
        &index,
        &page(vec![object("docs/b.txt", 1), object(&format!("docs/{}", ID_A), 43)], vec!["docs/sub/"]),
    );
    assert_eq!(entries.len(), 3);
    assert_eq!(entries[0].name, "b.txt");
    assert_eq!(entries[1].name, "hello.txt");
    assert!(entries[1].encrypted);
    assert_eq!(entries[2].name, "sub");
    assert!(entries[2].is_folder);
    add_page(&mut entries, &index, &page(vec![object("docs/c.txt", 2)], vec![]));
    assert_eq!(entries.len(), 4);
    assert_eq!(entries[0].name, "b.txt");
    assert_eq!(entries[3].name, "c.txt");
}

#[test]
fn listing_is_sorted_without_regard_to_case() {
    let sorted = sort_listing(vec![
        named("banana", "1"),
        named("Cherry", "2"),
        named("apple", "3"),
        named("Banana", "4"),
        named("\u{c9}clair", "5"),
        named("date", "6"),
    ]);
    let keys: Vec<&str> = sorted.iter().map(|f| f.key.as_str()).collect();
    assert_eq!(keys, vec!["3", "1", "4", "2", "6", "5"]);
}

#[test]
fn sorting_is_stable_and_keeps_everything() {
    let sorted = sort_listing(vec![
        named("a", "1"),
        named("A", "2"),
        named("a", "3"),
        named("A", "4"),
    ]);
    let keys: Vec<&str> = sorted.iter().map(|f| f.key.as_str()).collect();
    assert_eq!(keys, vec!["1", "2", "3", "4"]);
    assert!(sort_listing(Vec::new()).is_empty());
    assert_eq!(sort_listing(vec![named("x", "1")]).len(), 1);
}

#[test]
fn listing_of_one_plain_file() {
    let index = MetadataIndex::parse(b"{}").unwrap();
    let out = list_dir(&index, &vec![page(vec![object("docs/hello.txt", 3)], vec![])]);
    assert_eq!(out.len(), 1);
    assert_eq!(out[0].name, "hello.txt");
    assert_eq!(out[0].size, Some(3));
    assert!(!out[0].encrypted);
}

#[test]
fn listing_merges_all_pages() {
    let index = index_with_hello();
    let mut first = Vec::new();
    for i in 0..1000 {
        first.push(object(&format!("docs/file-{:04}.txt", 1999 - i), i));
    }
    let mut second = Vec::new();
    for i in 0..1000 {
        second.push(object(&format!("docs/file-{:04}.txt", i), i));
    }
    second.push(object(&format!("docs/{}", ID_A), 43));
    let pages = vec![
        ListingPage {
            objects: first,
            common_prefixes: vec!["docs/zeta/".to_string()],
            is_truncated: Some(true),
            next_token: Some("t1".to_string()),
        },
        page(second, vec!["docs/Alpha/"]),
    ];
    let out = list_dir(&index, &pages);
    assert_eq!(out.len(), 2003);
    assert_eq!(out[0].name, "Alpha");
    assert!(out[0].is_folder);
    assert_eq!(out[1].name, "file-0000.txt");
    assert_eq!(out[2000].name, "file-1999.txt");
    assert_eq!(out[2001].name, "hello.txt");
    assert!(out[2001].encrypted);
    assert_eq!(out[2002].name, "zeta");
    for pair in out.windows(2) {
        assert!(pair[0].name.to_lowercase() <= pair[1].name.to_lowercase());
    }
}

#[test]
fn empty_listing() {
    let index = MetadataIndex::parse(b"{}").unwrap();
    assert!(list_dir(&index, &Vec::new()).is_empty());
    assert!(list_dir(&index, &vec![page(vec![], vec![])]).is_empty());
}

#[test]
fn listing_goes_on_only_when_truncated() {
    assert!(matches!(next_page(Some(false), Some("t".to_string())), PageStep::Done));
    assert!(matches!(next_page(None, Some("t".to_string())), PageStep::Done));
    assert!(matches!(next_page(None, None), PageStep::Done));
    match next_page(Some(true), Some("t".to_string())) {
        PageStep::Next(token) => assert_eq!(token, Some("t".to_string())),
        PageStep::Done => panic!("the page was truncated"),
    }
    match next_page(Some(true), None) {
        PageStep::Next(token) => assert_eq!(token, None),
        PageStep::Done => panic!("the page was truncated"),
    }
}
