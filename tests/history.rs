use wiki_core::history::{CurrentReference, History, HistoryError, Revision};
use wiki_core::utils::{generate_random_string, string_from_draws, Timestamp};

fn at(second: u32) -> Timestamp {
    Timestamp { year: 2024, month: 1, day: 2, hour: 3, minute: 4, second }
}

#[test]
fn first_add_starts_chain_at_version_one() {
    let mut h = History::new("root");
    h.add("Foo").unwrap();
    let cur = h.resolve_current("Foo").unwrap();
    assert_eq!(cur.version, 1);
    assert_eq!(cur.prev, None);
    assert_eq!(cur.next, None);
    assert_eq!(cur.id.chars().count(), 16);
    assert_eq!(cur.filename, cur.id);
}

#[test]
fn second_add_links_both_revisions() {
    let mut h = History::new("root");
    h.add("Foo").unwrap();
    let first = h.resolve_current("Foo").unwrap().id.clone();
    h.add("Foo").unwrap();
    let second = h.resolve_current("Foo").unwrap();
    assert_eq!(second.version, 2);
    assert_eq!(second.prev, Some(first.clone()));
    let second_id = second.id.clone();
    let old = h.resolve_at_version("Foo", 1).unwrap();
    assert_eq!(old.id, first);
    assert_eq!(old.next, Some(second_id));
}

#[test]
fn resolve_current_of_unknown_name_is_none() {
    let mut h = History::new("root");
    assert!(h.resolve_current("Foo").is_none());
    h.add("Bar").unwrap();
    assert!(h.resolve_current("Foo").is_none());
}

#[test]
fn resolve_at_version_finds_every_version_and_nothing_else() {
    let mut h = History::new("root");
    for _ in 0..5 {
        h.add("Foo").unwrap();
        h.add("Other").unwrap();
    }
    for k in 1..=5usize {
        let r = h.resolve_at_version("Foo", k).unwrap();
        assert_eq!(r.version, k);
        assert_eq!(r.name, "Foo");
    }
    assert!(h.resolve_at_version("Foo", 0).is_none());
    assert!(h.resolve_at_version("Foo", 6).is_none());
    assert!(h.resolve_at_version("Missing", 1).is_none());
}

#[test]
fn add_with_chosen_ids_and_errors() {
    let mut h = History::new("root");
    assert_eq!(h.add_with("Foo", "short".to_string(), at(0)), Err(HistoryError::InvalidId));
    assert_eq!(h.add_with("Foo", "aaaaaaaaaaaaaaaa".to_string(), at(1)), Ok(()));
    assert_eq!(h.add_with("Bar", "aaaaaaaaaaaaaaaa".to_string(), at(2)), Err(HistoryError::DuplicateId));
    assert!(h.resolve_current("Bar").is_none());
    assert_eq!(h.add_with("Foo", "bbbbbbbbbbbbbbbb".to_string(), at(3)), Ok(()));
    let cur = h.resolve_current("Foo").unwrap();
    assert_eq!(cur.id, "bbbbbbbbbbbbbbbb");
    assert_eq!(cur.prev, Some("aaaaaaaaaaaaaaaa".to_string()));
    assert_eq!(cur.created, at(3));
    assert_eq!(cur.comment, "");
    assert_eq!(h.versions.len(), 2);
    assert_eq!(h.current.len(), 1);
}

#[test]
fn storage_path_is_sharded_by_filename_prefix() {
    let mut h = History::new("root/Page");
    h.add_with("Foo", "ab34567890123456".to_string(), at(0)).unwrap();
    assert_eq!(h.get_file_path_by_name("Foo"), Some("root/Page/ab/ab34567890123456".to_string()));
    assert_eq!(h.get_file_path_by_name("Bar"), None);
    h.add_with("Foo", "cd34567890123456".to_string(), at(1)).unwrap();
    assert_eq!(h.get_file_path_by_version("Foo", 1), Some("root/Page/ab/ab34567890123456".to_string()));
    assert_eq!(h.get_file_path_by_version("Foo", 2), Some("root/Page/cd/cd34567890123456".to_string()));
    assert_eq!(h.get_file_path_by_version("Foo", 3), None);
}

#[test]
fn random_strings_use_base36_alphabet() {
    let s = generate_random_string(16);
    assert_eq!(s.chars().count(), 16);
    assert!(s.chars().all(|c| c.is_ascii_digit() || c.is_ascii_lowercase()));
    assert_eq!(generate_random_string(0), "");
}

fn revision(id: &str, name: &str, version: usize, prev: Option<&str>, next: Option<&str>) -> Revision {
    Revision {
        id: id.to_string(),
        name: name.to_string(),
        version,
        next: next.map(|s| s.to_string()),
        prev: prev.map(|s| s.to_string()),
        created: at(0),
        comment: String::new(),
        filename: id.to_string(),
    }
}

fn current(name: &str, id: &str) -> CurrentReference {
    CurrentReference { name: name.to_string(), id: id.to_string() }
}

const A: &str = "aaaaaaaaaaaaaaaa";
const B: &str = "bbbbbbbbbbbbbbbb";

#[test]
fn from_tables_accepts_a_linked_chain() {
    let h = History::from_tables(
        "r".to_string(),
        vec![revision(A, "Foo", 1, None, Some(B)), revision(B, "Foo", 2, Some(A), None)],
        vec![current("Foo", B)],
    )
    .unwrap();
    assert!(h.is_well_formed());
    assert_eq!(h.resolve_at_version("Foo", 1).unwrap().id, A);
}

#[test]
fn from_tables_rejects_broken_chains() {
    let bad = [
        (vec![revision(A, "Foo", 1, None, None), revision(A, "Foo", 1, None, None)], vec![current("Foo", A)]),
        (vec![revision(A, "Foo", 1, None, None)], vec![current("Foo", B)]),
        (vec![revision(A, "Foo", 2, None, None)], vec![current("Foo", A)]),
        (vec![revision(A, "Foo", 1, None, Some(B)), revision(B, "Foo", 2, Some(A), None)], vec![current("Foo", A)]),
        (vec![revision(A, "Foo", 1, None, None)], vec![]),
        (vec![revision(A, "Foo", 1, None, None)], vec![current("Foo", A), current("Foo", A)]),
        (vec![revision("short", "Foo", 1, None, None)], vec![current("Foo", "short")]),
    ];
    for (versions, cur) in bad {
        assert_eq!(History::from_tables("r".to_string(), versions, cur).err(), Some(HistoryError::Malformed));
    }
}

#[test]
fn add_on_empty_history_succeeds() {
    let mut h = History::new("root");
    assert_eq!(h.add("Foo"), Ok(()));
    assert_eq!(h.versions.len(), 1);
    assert_eq!(h.current.len(), 1);
    assert!(h.contains_id(&h.versions[0].id.clone()));
    assert!(!h.contains_id(&"zzzzzzzzzzzzzzzz".to_string()));
}

#[test]
fn each_add_appends_one_revision_and_keeps_others() {
    let mut h = History::new("root");
    h.add_with("Foo", "aaaaaaaaaaaaaaaa".to_string(), at(0)).unwrap();
    h.add_with("Bar", "bbbbbbbbbbbbbbbb".to_string(), at(1)).unwrap();
    h.add_with("Foo", "cccccccccccccccc".to_string(), at(2)).unwrap();
    assert_eq!(h.versions.len(), 3);
    assert_eq!(h.versions[0].next, Some("cccccccccccccccc".to_string()));
    assert_eq!(h.versions[1].next, None);
    assert_eq!(h.versions[2].prev, Some("aaaaaaaaaaaaaaaa".to_string()));
    assert_eq!(h.resolve_current("Bar").unwrap().id, "bbbbbbbbbbbbbbbb");
    assert_eq!(h.prev_index, vec![0, 0, 0]);
}

#[test]
fn draws_pick_alphabet_positions() {
    assert_eq!(string_from_draws(&vec![0, 9, 10, 35]), "09az");
    assert_eq!(string_from_draws(&vec![]), "");
}
