use wiki_core::category::CategoryReference;
use wiki_core::config::{MasterConfig, NamespaceConfig, NamespaceReference};
use wiki_core::content::{body, header, Content, Mode, Script, Tab};
use wiki_core::payload::update_content;
use wiki_core::wiki::{Namespace, Wiki, WikiError};
use wiki_core::wikilink::{WikiLink, WikiType};

#[test]
fn unknown_namespace_resolves_to_unknown_namespace() {
    let wiki = Wiki::new("app");
    let c = wiki.get_content(WikiLink::new("Nowhere", WikiType::Page, "Foo"));
    assert!(matches!(c, Content::UnknownNamespace(_)));
}

#[test]
fn page_never_added_is_unknown_page() {
    let wiki = Wiki::new("app");
    let c = wiki.get_content(WikiLink::new("Main", WikiType::Page, "Foo"));
    assert!(matches!(c, Content::UnknownPage(_)));
}

#[test]
fn added_page_is_known_with_storage_path() {
    let mut wiki = Wiki::new("app");
    let link = wiki.add_page("Main", "Foo").unwrap();
    assert_eq!(link, WikiLink::new("Main", WikiType::Page, "Foo"));
    match wiki.get_content(link) {
        Content::Page(p) => {
            let path = p.path.unwrap();
            assert!(path.starts_with("app/Data/"));
            assert!(path.contains("/Page/"));
            assert_eq!(p.mode, Mode::Read);
        }
        other => panic!("expected a known page, got {:?}", other),
    }
}

#[test]
fn add_to_unknown_namespace_fails() {
    let mut wiki = Wiki::new("app");
    assert_eq!(wiki.add_page("Nowhere", "Foo"), Err(WikiError::UnknownNamespace));
    assert_eq!(wiki.add_category("Nowhere", "Foo"), Err(WikiError::UnknownNamespace));
    assert_eq!(wiki.add_file("Nowhere", "Foo"), Err(WikiError::UnknownNamespace));
}

#[test]
fn file_and_category_resolve_through_their_chains() {
    let mut wiki = Wiki::new("app");
    let file = WikiLink::new("Main", WikiType::File, "img");
    assert!(matches!(wiki.get_content(file.clone()), Content::UnknownPage(_)));
    wiki.add_file("Main", "img").unwrap();
    assert!(matches!(wiki.get_content(file), Content::Page(_)));
    let ns = wiki.get_namespace("Main").unwrap();
    assert!(ns.history.file_description.resolve_current("img").is_some());
    wiki.add_category("Main", "cats").unwrap();
    assert!(matches!(wiki.get_content(WikiLink::new("Main", WikiType::Category, "cats")), Content::Page(_)));
    match wiki.get_content(WikiLink::new("Main", WikiType::Special, "x")) {
        Content::Page(p) => assert_eq!(p.path, None),
        other => panic!("expected a known page, got {:?}", other),
    }
}

#[test]
fn external_namespace_is_routed() {
    let mut wiki = Wiki::new("app");
    let root = wiki.external_namespace("Ext", "/data/ext".to_string());
    assert_eq!(root, "/data/ext");
    wiki.add_page("Ext", "Foo").unwrap();
    match wiki.get_content(WikiLink::new("Ext", WikiType::Page, "Foo")) {
        Content::Page(p) => assert!(p.path.unwrap().starts_with("/data/ext/Page/")),
        other => panic!("expected a known page, got {:?}", other),
    }
    assert_eq!(wiki.config.namespace.len(), 2);
}

#[test]
fn namespace_new_lays_out_chains() {
    let ns = Namespace::new(NamespaceConfig::new("N"), "r");
    assert_eq!(ns.history.page.root_dir, "r/Page");
    assert_eq!(ns.history.file.root_dir, "r/File");
    assert_eq!(ns.history.file_description.root_dir, "r/FileDescription");
    assert_eq!(ns.history.category.root_dir, "r/Category");
    assert_eq!(ns.get_name(), "N");
}

#[test]
fn config_paths() {
    assert_eq!(MasterConfig::config_path("app"), "app/config.json");
    assert_eq!(NamespaceConfig::config_path("root"), "root/config.json");
    let r = NamespaceReference::Internal { id: "abc123".to_string() };
    assert_eq!(r.root_dir("app"), "app/Data/abc123");
    let e = NamespaceReference::External { id: "x".to_string(), root_dir: "/ext".to_string() };
    assert_eq!(e.root_dir("app"), "/ext");
    let mut m = MasterConfig::default();
    let n = m.internal_namespace();
    assert_eq!(n.id().chars().count(), 6);
    assert_eq!(m.namespace.len(), 1);
    let c = NamespaceConfig::new("Main");
    assert_eq!(c.id.chars().count(), 6);
    assert_eq!(CategoryReference::new().categories.len(), 0);
}

#[test]
fn header_and_body_markup() {
    assert_eq!(header("T"), "<h1 id=\"content-head\">T</h1>");
    assert_eq!(body("B"), "<div id=\"content-body\">B</div>");
}

#[test]
fn mode_follows_query() {
    assert_eq!(Mode::from_link(&WikiLink::parse("a?mode=edit")), Mode::Edit);
    assert_eq!(Mode::from_link(&WikiLink::parse("a?mode=history")), Mode::History);
    assert_eq!(Mode::from_link(&WikiLink::parse("a?mode=bogus")), Mode::Read);
    assert_eq!(Mode::from_link(&WikiLink::parse("a")), Mode::Read);
    assert_eq!(Mode::from_str("edit"), Ok(Mode::Edit));
    assert_eq!(Mode::History.to_string(), "history");
}

#[test]
fn tabs_select_current_mode() {
    let t = Tab::selected(WikiLink::parse("a"), "Read");
    assert!(t.selected);
    assert!(!Tab::not_selected(WikiLink::parse("a"), "Edit").selected);
    let wiki = Wiki::new("app");
    let c = wiki.get_content(WikiLink::parse("Foo?mode=edit"));
    let tabs = c.tabs();
    assert_eq!(tabs.len(), 3);
    assert_eq!(tabs[0].wikilink.href(), "Foo");
    assert_eq!(tabs[1].wikilink.href(), "Foo?mode=edit");
    assert_eq!(tabs[2].wikilink.href(), "Foo?mode=history");
    assert_eq!(tabs.iter().map(|t| t.selected).collect::<Vec<_>>(), vec![false, true, false]);
    assert_eq!(c.scripts(), vec![Script::MarkdownEditor]);
    assert_eq!(c.content("<editor/>"), "<h1 id=\"content-head\">Foo</h1><div id=\"content-body\"><editor/></div>");
}

#[test]
fn unknown_page_invites_creation() {
    let wiki = Wiki::new("app");
    let c = wiki.get_content(WikiLink::parse("Foo"));
    assert_eq!(
        c.content(""),
        "<h1 id=\"content-head\">Foo</h1><div id=\"content-body\">There is currently no text in this page. You can <a href=\"#\" data-wikilink=\"Foo?mode=edit\">create this page</a>.</div>"
    );
    assert!(c.scripts().is_empty());
}

#[test]
fn known_page_content_by_mode() {
    let mut wiki = Wiki::new("app");
    wiki.add_page("Main", "Foo").unwrap();
    let read = wiki.get_content(WikiLink::parse("Foo"));
    assert_eq!(read.content(""), "<h1 id=\"content-head\">Foo</h1><div id=\"content-body\">body1</div>");
    let hist = wiki.get_content(WikiLink::parse("Foo?mode=history"));
    assert_eq!(
        hist.content(""),
        "<h1 id=\"content-head\">Revision history of \"Foo\"</h1><div id=\"content-body\">body</div>"
    );
    let edit = wiki.get_content(WikiLink::parse("Foo?mode=edit"));
    assert_eq!(edit.content(""), "<h1 id=\"content-head\">editing Foo</h1><div id=\"content-body\">body</div>");
}

#[test]
fn unknown_namespace_content() {
    let wiki = Wiki::new("app");
    let c = wiki.get_content(WikiLink::parse("X:Page:Foo?mode=edit"));
    assert!(c.content("").starts_with("<h1 id=\"content-head\">X:Foo</h1>"));
    let tabs = c.tabs();
    assert_eq!(tabs.len(), 1);
    assert_eq!(tabs[0].wikilink.href(), "X:Foo");
}

#[test]
fn update_content_payload() {
    let wiki = Wiki::new("app");
    let u = update_content(&wiki, WikiLink::parse("Foo?mode=edit&mode=read"), "E");
    assert_eq!(u.href, "Foo");
    assert_eq!(u.tabs.len(), 3);
    assert_eq!(u.tabs[0].title, "Read");
    assert!(u.tabs[0].selected);
    assert_eq!(u.tabs[1].href, "Foo?mode=edit");
    assert!(u.scripts.is_empty());
    let e = update_content(&wiki, WikiLink::parse("Foo?mode=edit"), "E");
    assert_eq!(e.scripts, vec!["markdownEditor".to_string()]);
}

#[test]
fn fresh_wiki_has_empty_main_namespace() {
    let wiki = Wiki::new("app");
    assert_eq!(wiki.namespaces.len(), 1);
    let ns = &wiki.namespaces[0];
    assert_eq!(ns.get_name(), "Main");
    assert!(ns.history.page.versions.is_empty() && ns.history.category.current.is_empty());
    match &wiki.config.namespace[0] {
        NamespaceReference::Internal { id } => {
            assert_eq!(id.chars().count(), 6);
            assert!(id.chars().all(|c| c.is_ascii_digit() || c.is_ascii_lowercase()));
        }
        other => panic!("expected an internal namespace, got {:?}", other),
    }
    assert!(matches!(wiki.get_content(WikiLink::default()), Content::UnknownPage(_)));
}

#[test]
fn add_file_advances_both_chains_together() {
    let mut wiki = Wiki::new("app");
    wiki.add_file("Main", "img").unwrap();
    wiki.add_file("Main", "img").unwrap();
    let ns = wiki.get_namespace("Main").unwrap();
    assert_eq!(ns.history.file.resolve_current("img").unwrap().version, 2);
    assert_eq!(ns.history.file_description.resolve_current("img").unwrap().version, 2);
    assert!(ns.history.page.versions.is_empty());
}

#[test]
fn add_page_leaves_other_namespaces_alone() {
    let mut wiki = Wiki::new("app");
    wiki.external_namespace("Ext", "/ext".to_string());
    wiki.add_page("Ext", "Foo").unwrap();
    assert!(wiki.namespaces[0].history.page.versions.is_empty());
    assert_eq!(wiki.namespaces[1].history.page.versions.len(), 1);
    assert!(matches!(wiki.get_content(WikiLink::new("Main", WikiType::Page, "Foo")), Content::UnknownPage(_)));
}
