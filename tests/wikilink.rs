use wiki_core::wikilink::{WikiLink, WikiType, DEFAULT_NAME, DEFAULT_NAMESPACE};

#[test]
fn parse_no_colon() {
    assert_eq!(WikiLink::parse(""), WikiLink::new(DEFAULT_NAMESPACE, WikiType::Page, DEFAULT_NAME));
    assert_eq!(WikiLink::parse("a"), WikiLink::new(DEFAULT_NAMESPACE, WikiType::Page, "a"));
    assert_eq!(WikiLink::parse("Category"), WikiLink::new(DEFAULT_NAMESPACE, WikiType::Category, DEFAULT_NAME));
}

#[test]
fn parse_one_colon() {
    assert_eq!(WikiLink::parse("a:b"), WikiLink::new("a", WikiType::Page, "b"));
    assert_eq!(WikiLink::parse("Category:b"), WikiLink::new(DEFAULT_NAMESPACE, WikiType::Category, "b"));
    assert_eq!(WikiLink::parse("a:Category"), WikiLink::new("a", WikiType::Category, DEFAULT_NAME));
}

#[test]
fn parse_more_than_two_colons() {
    assert_eq!(WikiLink::parse("a:b:c"), WikiLink::new("a", WikiType::Page, "b:c"));
    assert_eq!(WikiLink::parse("File:b:c"), WikiLink::new(DEFAULT_NAMESPACE, WikiType::File, "b:c"));
    assert_eq!(WikiLink::parse("a:File:c"), WikiLink::new("a", WikiType::File, "c"));
    assert_eq!(WikiLink::parse("a:b:File"), WikiLink::new("a:b", WikiType::File, DEFAULT_NAME));
}

#[test]
fn parse_pueries() {
    let mut expected = WikiLink::new(DEFAULT_NAMESPACE, WikiType::Page, "a");
    expected.add_query("k1", "v1");
    expected.add_query("k2", "v2");
    expected.add_query("k3", "");
    assert_eq!(WikiLink::parse("a?k1=v1&k2=v2&k3"), expected);

    let mut expected = WikiLink::new(DEFAULT_NAMESPACE, WikiType::Page, DEFAULT_NAME);
    expected.add_query("k1", "v1");
    assert_eq!(WikiLink::parse("?k1=v1"), expected);
}

#[test]
fn parse_fragment() {
    let mut expected = WikiLink::new(DEFAULT_NAMESPACE, WikiType::Page, "a");
    expected.set_fragment("abc");
    assert_eq!(WikiLink::parse("a#abc"), expected);
}

#[test]
fn queries_compare_as_maps_whatever_the_insertion_order() {
    let mut a = WikiLink::new("x", WikiType::Page, "y");
    a.add_query("b", "2");
    a.add_query("a", "1");
    let mut b = WikiLink::new("x", WikiType::Page, "y");
    b.add_query("a", "1");
    b.add_query("b", "2");
    assert_eq!(a, b);
}

#[test]
fn later_duplicate_query_key_wins() {
    let l = WikiLink::parse("p?k=1&k=2");
    assert_eq!(l.get_query("k"), Some("2".to_string()));
}

#[test]
fn query_value_keeps_later_equals_signs() {
    let l = WikiLink::parse("p?k=a=b");
    assert_eq!(l.get_query("k"), Some("a=b".to_string()));
}

#[test]
fn query_entries_without_key_are_dropped() {
    let l = WikiLink::parse("p?&=v&k");
    assert_eq!(l.get_query(""), None);
    assert_eq!(l.get_query("k"), Some(String::new()));
    let mut expected = WikiLink::new(DEFAULT_NAMESPACE, WikiType::Page, "p");
    expected.add_query("k", "");
    assert_eq!(l, expected);
}

#[test]
fn fragment_takes_everything_after_first_hash() {
    let l = WikiLink::parse("a?k=v#x?y#z");
    let mut expected = WikiLink::new(DEFAULT_NAMESPACE, WikiType::Page, "a");
    expected.add_query("k", "v");
    expected.set_fragment("x?y#z");
    assert_eq!(l, expected);
}

#[test]
fn question_mark_after_first_stays_in_queries() {
    let l = WikiLink::parse("a?k=v?w");
    assert_eq!(l.get_query("k"), Some("v?w".to_string()));
}

#[test]
fn three_tokens_kind_first_has_default_namespace() {
    assert_eq!(WikiLink::parse("Special:a:b"), WikiLink::new(DEFAULT_NAMESPACE, WikiType::Special, "a:b"));
    assert_eq!(WikiLink::parse("x:y:z:Page"), WikiLink::new("x:y:z", WikiType::Page, DEFAULT_NAME));
}

#[test]
fn two_tokens_first_kind_wins_over_second() {
    assert_eq!(WikiLink::parse("File:Category"), WikiLink::new(DEFAULT_NAMESPACE, WikiType::File, "Category"));
}

#[test]
fn base_omits_default_namespace_and_page_kind() {
    assert_eq!(WikiLink::new(DEFAULT_NAMESPACE, WikiType::Page, "x").base(), "x");
    assert_eq!(WikiLink::new(DEFAULT_NAMESPACE, WikiType::File, "x").base(), "File:x");
    assert_eq!(WikiLink::new("ns", WikiType::Page, "x").base(), "ns:x");
    assert_eq!(WikiLink::new("ns", WikiType::Category, "x").base(), "ns:Category:x");
}

#[test]
fn href_sorts_encodes_and_drops_read_mode() {
    let mut l = WikiLink::new("ns", WikiType::Page, "x");
    l.add_query("mode", "read");
    l.add_query("b", "a b");
    l.add_query("a", "1/2");
    assert_eq!(l.href(), "ns:x?a=1%2F2&b=a%20b");
}

#[test]
fn href_keeps_other_modes() {
    let mut l = WikiLink::new(DEFAULT_NAMESPACE, WikiType::Page, "x");
    l.add_query("mode", "edit");
    assert_eq!(l.href(), "x?mode=edit");
}

#[test]
fn href_only_read_mode_has_no_question_mark() {
    let mut l = WikiLink::new(DEFAULT_NAMESPACE, WikiType::Page, "x");
    l.add_query("mode", "read");
    assert_eq!(l.href(), "x");
}

#[test]
fn href_encodes_fragment_and_non_ascii() {
    let mut l = WikiLink::new(DEFAULT_NAMESPACE, WikiType::Page, "x");
    l.set_fragment("a-é");
    assert_eq!(l.href(), "x#a%2D%C3%A9");
}

#[test]
fn href_sorts_keys_bytewise() {
    let mut l = WikiLink::new(DEFAULT_NAMESPACE, WikiType::Page, "x");
    l.add_query("b", "1");
    l.add_query("B", "2");
    l.add_query("ab", "3");
    l.add_query("a", "4");
    assert_eq!(l.href(), "x?B=2&a=4&ab=3&b=1");
}

#[test]
fn round_trip_of_constructed_links() {
    let cases = [
        (DEFAULT_NAMESPACE, WikiType::Page, "Foo"),
        (DEFAULT_NAMESPACE, WikiType::File, "img"),
        ("ns", WikiType::Page, "Foo"),
        ("ns", WikiType::Category, "Cats"),
        ("ns", WikiType::Special, ""),
    ];
    for (ns, k, name) in cases {
        let l = WikiLink::new(ns, k, name);
        let back = WikiLink::parse(l.href().as_str());
        assert_eq!(back.namespace, ns);
        assert_eq!(back.wiki_type, k);
        assert_eq!(back.name, name);
    }
}

#[test]
fn round_trip_modulo_read_mode() {
    let mut l = WikiLink::new("ns", WikiType::File, "f");
    l.add_query("mode", "read");
    let back = WikiLink::parse(l.href().as_str());
    assert_eq!(back, WikiLink::new("ns", WikiType::File, "f"));
}

#[test]
fn wiki_type_names() {
    assert_eq!(WikiType::from_str("Category"), Ok(WikiType::Category));
    assert_eq!(WikiType::from_str("category"), Err(()));
    assert_eq!(WikiType::Special.to_string(), "Special");
    assert_eq!(WikiType::default(), WikiType::Page);
}

#[test]
fn default_link_is_main_page() {
    assert_eq!(WikiLink::default(), WikiLink::parse(""));
    assert_eq!(WikiLink::default().href(), "Main");
}

#[test]
fn base_of_drops_queries_and_fragment() {
    let l = WikiLink::parse("ns:Category:c?mode=edit#top");
    assert_eq!(WikiLink::base_of(&l), WikiLink::new("ns", WikiType::Category, "c"));
}
