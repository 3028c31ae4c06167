//! What the presentation layer receives for a link: its canonical text, the
//! body HTML, the view tabs and the scripts to load.
use vstd::prelude::*;
use crate::content::{content_html, shown_tabs, Content, Tab as ContentTab};
use crate::wiki::{wiki_resolves, Wiki};
use crate::wikilink::{base_text, href_text, query_items, WikiLink};

verus! {

/// A view tab as the presentation layer shows it.
#[derive(Debug)]
pub struct Tab {
    pub title: String,
    pub selected: bool,
    pub href: String,
}

/// The canonical text of a link.
pub open spec fn link_href(l: WikiLink) -> Seq<char> {
    href_text(base_text(l@.namespace, l@.wiki_type, l@.name), l.query_entries(), l@.fragment)
}

impl Tab {
    pub fn from_content_tab(tab: &ContentTab) -> (r: Self)
        requires
            tab.wikilink.wf(),
        ensures
            r.title@ == tab.title@,
            r.selected == tab.selected,
            r.href@ == link_href(tab.wikilink),
    {
        Tab { title: tab.title.clone(), selected: tab.selected, href: tab.wikilink.href() }
    }
}

/// The content update sent when a link is opened.
#[derive(Debug)]
pub struct UpdateContent {
    pub href: String,
    pub body: String,
    pub tabs: Vec<Tab>,
    pub scripts: Vec<String>,
}

/// Resolves `wikilink` in `wiki` and renders what it shows; `editor` is the
/// editor markup for an unknown page in edit mode.
pub fn update_content(wiki: &Wiki, wikilink: WikiLink, editor: &str) -> (r: UpdateContent)
    requires
        wiki.wf(),
        wikilink.wf(),
    ensures
        r.href@ == link_href(wikilink),
        exists|c: Content|
            wiki_resolves(*wiki, wikilink, c) && r.body@ == content_html(c, editor@) && r.tabs@.map_values(
                |t: Tab| (t.title@, t.selected, t.href@),
            ) == shown_tabs(c),
        forall|i: int| 0 <= i < r.scripts@.len() ==> r.scripts@[i]@ == "markdownEditor"@,
{
    let href = wikilink.href();
    let content = wiki.get_content(wikilink);
    let body = content.content(editor);
    let content_tabs = content.tabs();
    let mut tabs: Vec<Tab> = Vec::new();
    let mut i: usize = 0;
    while i < content_tabs.len()
        invariant
            i <= content_tabs@.len(),
            forall|j: int| 0 <= j < content_tabs@.len() ==> (#[trigger] content_tabs@[j]).wikilink.wf(),
            tabs@.len() == i,
            forall|j: int|
                0 <= j < i ==> (#[trigger] tabs@[j]).href@ == link_href(content_tabs@[j].wikilink)
                    && tabs@[j].title@ == content_tabs@[j].title@ && tabs@[j].selected
                    == content_tabs@[j].selected,
        decreases content_tabs@.len() - i,
    {
        tabs.push(Tab::from_content_tab(&content_tabs[i]));
        i = i + 1;
    }
    proof {
        let shown = tabs@.map_values(|t: Tab| (t.title@, t.selected, t.href@));
        let want = shown_tabs(content);
        assert(shown.len() == want.len());
        assert forall|j: int| 0 <= j < shown.len() implies shown[j] == want[j] by {
            assert(query_items(Seq::<(Seq<char>, Seq<char>)>::empty()) =~= Seq::<Seq<char>>::empty());
        }
        assert(shown =~= want);
    }
    let content_scripts = content.scripts();
    let mut scripts: Vec<String> = Vec::new();
    let mut k: usize = 0;
    while k < content_scripts.len()
        invariant
            k <= content_scripts@.len(),
            scripts@.len() == k,
            forall|j: int| 0 <= j < k ==> (#[trigger] scripts@[j])@ == "markdownEditor"@,
        decreases content_scripts@.len() - k,
    {
        scripts.push(content_scripts[k].name());
        k = k + 1;
    }
    UpdateContent { href, body, tabs, scripts }
}

} // verus!
