//! What a resolved link shows: a known page, an unknown page or an unknown
//! namespace, with its view tabs, HTML body and scripts.
use vstd::prelude::*;
use crate::text::string_of;
use crate::wikilink::{base_text, href_text, mode_key, plain_link, WikiLink, WikiLinkView};

verus! {

pub open spec fn header_text(text: Seq<char>) -> Seq<char> {
    "<h1 id=\"content-head\">"@ + text + "</h1>"@
}

pub open spec fn body_text(text: Seq<char>) -> Seq<char> {
    "<div id=\"content-body\">"@ + text + "</div>"@
}

/// The page heading element around `text`.
pub fn header(text: &str) -> (r: String)
    ensures
        r@ == header_text(text@),
{
    let mut r = String::from_str("<h1 id=\"content-head\">");
    r.append(text);
    r.append("</h1>");
    r
}

/// The page body element around `text`.
pub fn body(text: &str) -> (r: String)
    ensures
        r@ == body_text(text@),
{
    let mut r = String::from_str("<div id=\"content-body\">");
    r.append(text);
    r.append("</div>");
    r
}

/// The view a link asks for with its `mode` query.
#[derive(Clone, Copy, Debug, PartialEq, Eq, Structural)]
pub enum Mode {
    Read,
    Edit,
    History,
}

pub open spec fn mode_name(m: Mode) -> Seq<char> {
    match m {
        Mode::Read => seq!['r', 'e', 'a', 'd'],
        Mode::Edit => seq!['e', 'd', 'i', 't'],
        Mode::History => seq!['h', 'i', 's', 't', 'o', 'r', 'y'],
    }
}

pub open spec fn mode_title(m: Mode) -> Seq<char> {
    match m {
        Mode::Read => seq!['R', 'e', 'a', 'd'],
        Mode::Edit => seq!['E', 'd', 'i', 't'],
        Mode::History => seq!['H', 'i', 's', 't', 'o', 'r', 'y'],
    }
}

/// The mode that the text `s` names, if any.
pub open spec fn mode_named(s: Seq<char>) -> Option<Mode> {
    if s == mode_name(Mode::Read) {
        Some(Mode::Read)
    } else if s == mode_name(Mode::Edit) {
        Some(Mode::Edit)
    } else if s == mode_name(Mode::History) {
        Some(Mode::History)
    } else {
        None
    }
}

/// The mode of a link: its `mode` query if that names a mode, else `Read`.
pub open spec fn mode_of(l: WikiLinkView) -> Mode {
    if l.queries.contains_key(mode_key()) {
        match mode_named(l.queries[mode_key()]) {
            Some(m) => m,
            None => Mode::Read,
        }
    } else {
        Mode::Read
    }
}

impl Mode {
    fn name_chars(&self) -> (r: Vec<char>)
        ensures
            r@ == mode_name(*self),
    {
        match self {
            Mode::Read => vec!['r', 'e', 'a', 'd'],
            Mode::Edit => vec!['e', 'd', 'i', 't'],
            Mode::History => vec!['h', 'i', 's', 't', 'o', 'r', 'y'],
        }
    }

    /// The text form of this mode (`"read"`, `"edit"`, `"history"`).
    pub fn to_string(&self) -> (r: String)
        ensures
            r@ == mode_name(*self),
    {
        let v = self.name_chars();
        string_of(&v, 0, v.len())
    }

    /// The title of this mode's tab (`"Read"`, `"Edit"`, `"History"`).
    pub fn title(&self) -> (r: String)
        ensures
            r@ == mode_title(*self),
    {
        let v: Vec<char> = match self {
            Mode::Read => vec!['R', 'e', 'a', 'd'],
            Mode::Edit => vec!['E', 'd', 'i', 't'],
            Mode::History => vec!['H', 'i', 's', 't', 'o', 'r', 'y'],
        };
        string_of(&v, 0, v.len())
    }

    /// The mode named by `s`; `Err` when `s` names none.
    pub fn from_str(s: &str) -> (r: Result<Mode, ()>)
        ensures
            r == (match mode_named(s@) {
                Some(m) => Ok::<Mode, ()>(m),
                None => Err(()),
            }),
    {
        let t = String::from_str(s);
        if t == Mode::Read.to_string() {
            Ok(Mode::Read)
        } else if t == Mode::Edit.to_string() {
            Ok(Mode::Edit)
        } else if t == Mode::History.to_string() {
            Ok(Mode::History)
        } else {
            Err(())
        }
    }

    /// The mode that `wikilink` asks for.
    pub fn from_link(wikilink: &WikiLink) -> (r: Mode)
        requires
            wikilink.wf(),
        ensures
            r == mode_of(wikilink@),
    {
        let key = String::from_str("mode");
        proof {
            reveal_strlit("mode");
        }
        assert(key@ =~= mode_key());
        match wikilink.get_query(key.as_str()) {
            Some(v) => match Mode::from_str(v.as_str()) {
                Ok(m) => m,
                Err(()) => Mode::Read,
            },
            None => Mode::Read,
        }
    }
}

/// Scripts that the presentation layer loads with a content.
#[derive(Clone, Copy, Debug, PartialEq, Eq, Structural)]
pub enum Script {
    MarkdownEditor,
}

impl Script {
    /// The name the presentation layer knows the script by.
    pub fn name(&self) -> (r: String)
        ensures
            r@ == "markdownEditor"@,
    {
        match self {
            Script::MarkdownEditor => String::from_str("markdownEditor"),
        }
    }
}

/// One view tab: a link, a title, and whether it is the view being shown.
#[derive(Debug)]
pub struct Tab {
    pub wikilink: WikiLink,
    pub title: String,
    pub selected: bool,
}

impl Tab {
    pub fn selected(wikilink: WikiLink, title: &str) -> (r: Self)
        ensures
            r.wikilink == wikilink,
            r.title@ == title@,
            r.selected,
    {
        Tab { wikilink, title: String::from_str(title), selected: true }
    }

    pub fn not_selected(wikilink: WikiLink, title: &str) -> (r: Self)
        ensures
            r.wikilink == wikilink,
            r.title@ == title@,
            !r.selected,
    {
        Tab { wikilink, title: String::from_str(title), selected: false }
    }
}

/// The link to the target of `l` in mode `m`.
pub open spec fn mode_link(l: WikiLinkView, m: Mode) -> WikiLinkView {
    WikiLinkView {
        namespace: l.namespace,
        wiki_type: l.wiki_type,
        name: l.name,
        queries: Map::empty().insert(mode_key(), mode_name(m)),
        fragment: None,
    }
}

pub open spec fn tab_mode(i: int) -> Mode {
    if i == 0 {
        Mode::Read
    } else if i == 1 {
        Mode::Edit
    } else {
        Mode::History
    }
}

/// Read, Edit and History tabs for the target of `l`, the one of mode `m` selected.
pub open spec fn mode_tabs_ok(tabs: Seq<Tab>, l: WikiLinkView, m: Mode) -> bool {
    &&& tabs.len() == 3
    &&& forall|i: int|
        0 <= i < 3 ==> {
            &&& (#[trigger] tabs[i]).wikilink.wf()
            &&& tabs[i].wikilink@ == mode_link(l, tab_mode(i))
            &&& tabs[i].title@ == mode_title(tab_mode(i))
            &&& tabs[i].selected == (tab_mode(i) == m)
            &&& tabs[i].wikilink.query_entries() == seq![(mode_key(), mode_name(tab_mode(i)))]
        }
}

/// A tab as shown: title, whether selected, and the text of its link.
pub open spec fn mode_tab_view(l: WikiLinkView, m: Mode, current: Mode) -> (Seq<char>, bool, Seq<char>) {
    (
        mode_title(m),
        m == current,
        href_text(base_text(l.namespace, l.wiki_type, l.name), seq![(mode_key(), mode_name(m))], None),
    )
}

/// The tabs that content `c` shows.
pub open spec fn shown_tabs(c: Content) -> Seq<(Seq<char>, bool, Seq<char>)> {
    match c {
        Content::Page(p) => seq![
            mode_tab_view(p.wikilink@, Mode::Read, p.mode),
            mode_tab_view(p.wikilink@, Mode::Edit, p.mode),
            mode_tab_view(p.wikilink@, Mode::History, p.mode),
        ],
        Content::UnknownPage(u) => seq![
            mode_tab_view(u.wikilink@, Mode::Read, mode_of(u.wikilink@)),
            mode_tab_view(u.wikilink@, Mode::Edit, mode_of(u.wikilink@)),
            mode_tab_view(u.wikilink@, Mode::History, mode_of(u.wikilink@)),
        ],
        Content::UnknownNamespace(n) => seq![(mode_title(Mode::Read), true, n.wikilink@.base_text())],
    }
}

/// The HTML that content `c` shows; `editor` is the editor markup.
pub open spec fn content_html(c: Content, editor: Seq<char>) -> Seq<char> {
    match c {
        Content::Page(p) => header_text(page_heading(p.mode, p.wikilink@.base_text())) + body_text(
            page_body(p.mode),
        ),
        Content::UnknownPage(u) => if mode_of(u.wikilink@) == Mode::Edit {
            header_text(u.wikilink@.base_text()) + body_text(editor)
        } else {
            header_text(u.wikilink@.base_text()) + body_text(create_invitation(edit_href(u.wikilink@)))
        },
        Content::UnknownNamespace(n) => header_text(n.wikilink@.base_text()) + body_text(
            missing_namespace_text(),
        ),
    }
}

fn mode_tab(wikilink: &WikiLink, tab: Mode, current: Mode) -> (r: Tab)
    ensures
        r.wikilink.wf(),
        r.wikilink@ == mode_link(wikilink@, tab),
        r.title@ == mode_title(tab),
        r.selected == (tab == current),
        r.wikilink.query_entries() == seq![(mode_key(), mode_name(tab))],
{
    let mut link = WikiLink::base_of(wikilink);
    let key = String::from_str("mode");
    proof {
        reveal_strlit("mode");
    }
    assert(key@ =~= mode_key());
    link.add_query(key.as_str(), tab.to_string().as_str());
    assert(link@.queries =~= Map::empty().insert(mode_key(), mode_name(tab)));
    Tab { wikilink: link, title: tab.title(), selected: tab == current }
}

fn mode_tabs(wikilink: &WikiLink, current: Mode) -> (r: Vec<Tab>)
    ensures
        mode_tabs_ok(r@, wikilink@, current),
{
    let r = vec![
        mode_tab(wikilink, Mode::Read, current),
        mode_tab(wikilink, Mode::Edit, current),
        mode_tab(wikilink, Mode::History, current),
    ];
    assert forall|i: int| 0 <= i < 3 implies {
        &&& (#[trigger] r@[i]).wikilink.wf()
        &&& r@[i].wikilink@ == mode_link(wikilink@, tab_mode(i))
        &&& r@[i].title@ == mode_title(tab_mode(i))
        &&& r@[i].selected == (tab_mode(i) == current)
    } by {}
    r
}

/// A known page, in the mode its link asks for, with where its current text is stored.
#[derive(Debug)]
pub struct Page {
    pub mode: Mode,
    pub wikilink: WikiLink,
    pub path: Option<String>,
}

pub open spec fn page_heading(m: Mode, base: Seq<char>) -> Seq<char> {
    match m {
        Mode::Read => base,
        Mode::Edit => "editing "@ + base,
        Mode::History => "Revision history of \""@ + base + "\""@,
    }
}

pub open spec fn page_body(m: Mode) -> Seq<char> {
    match m {
        Mode::Read => "body1"@,
        _ => "body"@,
    }
}

impl Page {
    pub fn new(wikilink: WikiLink) -> (r: Self)
        requires
            wikilink.wf(),
        ensures
            r.mode == mode_of(wikilink@),
            r.wikilink == wikilink,
            r.path is None,
    {
        Page { mode: Mode::from_link(&wikilink), wikilink, path: None }
    }

    /// A known page whose current revision is stored at `path`.
    pub fn stored_at(wikilink: WikiLink, path: String) -> (r: Self)
        requires
            wikilink.wf(),
        ensures
            r.mode == mode_of(wikilink@),
            r.wikilink == wikilink,
            r.path == Some(path),
    {
        Page { mode: Mode::from_link(&wikilink), wikilink, path: Some(path) }
    }

    pub fn content(&self) -> (r: String)
        ensures
            r@ == header_text(page_heading(self.mode, self.wikilink@.base_text()))
                + body_text(page_body(self.mode)),
    {
        let base = self.wikilink.base();
        let (heading, text) = match self.mode {
            Mode::Read => (base, "body1"),
            Mode::Edit => {
                let mut h = String::from_str("editing ");
                h.append(base.as_str());
                (h, "body")
            },
            Mode::History => {
                let mut h = String::from_str("Revision history of \"");
                h.append(base.as_str());
                h.append("\"");
                (h, "body")
            },
        };
        let mut r = header(heading.as_str());
        r.append(body(text).as_str());
        r
    }

    pub fn tabs(&self) -> (r: Vec<Tab>)
        ensures
            mode_tabs_ok(r@, self.wikilink@, self.mode),
    {
        mode_tabs(&self.wikilink, self.mode)
    }

    pub fn scripts(&self) -> (r: Vec<Script>)
        ensures
            r@.len() == 0,
    {
        Vec::new()
    }
}

/// The text of the link to the edit view of the target of `l`.
pub open spec fn edit_href(l: WikiLinkView) -> Seq<char> {
    href_text(
        base_text(l.namespace, l.wiki_type, l.name),
        seq![(mode_key(), mode_name(Mode::Edit))],
        None,
    )
}

/// The text of a page that does not exist yet, linking to `href`.
pub open spec fn create_invitation(href: Seq<char>) -> Seq<char> {
    "There is currently no text in this page. You can <a href=\"#\" data-wikilink=\""@ + href
        + "\">create this page</a>."@
}

/// A page of a known namespace that has no revision yet.
#[derive(Debug)]
pub struct UnknownPage {
    pub wikilink: WikiLink,
}

impl UnknownPage {
    pub fn new(wikilink: WikiLink) -> (r: Self)
        ensures
            r.wikilink == wikilink,
    {
        UnknownPage { wikilink }
    }

    pub fn tabs(&self) -> (r: Vec<Tab>)
        requires
            self.wikilink.wf(),
        ensures
            mode_tabs_ok(r@, self.wikilink@, mode_of(self.wikilink@)),
    {
        mode_tabs(&self.wikilink, Mode::from_link(&self.wikilink))
    }

    /// The page text: in edit mode the editor markup `editor`, else an
    /// invitation to create the page, linking to its edit view.
    pub fn content(&self, editor: &str) -> (r: String)
        requires
            self.wikilink.wf(),
        ensures
            mode_of(self.wikilink@) == Mode::Edit ==> r@ == header_text(
                self.wikilink@.base_text(),
            ) + body_text(editor@),
            mode_of(self.wikilink@) != Mode::Edit ==> r@ == header_text(self.wikilink@.base_text())
                + body_text(create_invitation(edit_href(self.wikilink@))),
    {
        let ghost mut invite_href: Seq<char> = Seq::empty();
        let text = if let Mode::Edit = Mode::from_link(&self.wikilink) {
            String::from_str(editor)
        } else {
            let mut link = WikiLink::base_of(&self.wikilink);
            proof {
                reveal_strlit("mode");
                reveal_strlit("edit");
            }
            assert("mode"@ =~= mode_key());
            assert("edit"@ =~= mode_name(Mode::Edit));
            link.add_query("mode", "edit");
            let href = link.href();
            assert(href@ == edit_href(self.wikilink@));
            let mut t = String::from_str(
                "There is currently no text in this page. You can <a href=\"#\" data-wikilink=\"",
            );
            t.append(href.as_str());
            t.append("\">create this page</a>.");
            proof {
                invite_href = href@;
            }
            assert(t@ == create_invitation(invite_href));
            t
        };
        let mut r = header(self.wikilink.base().as_str());
        r.append(body(text.as_str()).as_str());
        assert(mode_of(self.wikilink@) != Mode::Edit ==> invite_href == edit_href(self.wikilink@));
        r
    }

    pub fn scripts(&self) -> (r: Vec<Script>)
        requires
            self.wikilink.wf(),
        ensures
            mode_of(self.wikilink@) == Mode::Edit ==> r@ == seq![Script::MarkdownEditor],
            mode_of(self.wikilink@) != Mode::Edit ==> r@.len() == 0,
    {
        if let Mode::Edit = Mode::from_link(&self.wikilink) {
            vec![Script::MarkdownEditor]
        } else {
            Vec::new()
        }
    }
}

pub open spec fn missing_namespace_text() -> Seq<char> {
    "The namespace you are looking for doesn't exist or an other error occurred. Choose a new direction, or you can create this namespace."@
}

/// A link into a namespace that does not exist.
#[derive(Debug)]
pub struct UnknownNamespace {
    pub wikilink: WikiLink,
}

impl UnknownNamespace {
    pub fn tabs(&self) -> (r: Vec<Tab>)
        ensures
            r@.len() == 1,
            r@[0].selected,
            r@[0].title@ == mode_title(Mode::Read),
            r@[0].wikilink.wf(),
            r@[0].wikilink@ == plain_link(
                self.wikilink@.namespace,
                self.wikilink@.wiki_type,
                self.wikilink@.name,
            ),
            r@[0].wikilink.query_entries().len() == 0,
    {
        let link = WikiLink::base_of(&self.wikilink);
        vec![Tab { wikilink: link, title: Mode::Read.title(), selected: true }]
    }

    pub fn content(&self) -> (r: String)
        ensures
            r@ == header_text(self.wikilink@.base_text()) + body_text(missing_namespace_text()),
    {
        let mut r = header(self.wikilink.base().as_str());
        r.append(
            body(
                "The namespace you are looking for doesn't exist or an other error occurred. Choose a new direction, or you can create this namespace.",
            ).as_str(),
        );
        r
    }

    pub fn scripts(&self) -> (r: Vec<Script>)
        ensures
            r@.len() == 0,
    {
        Vec::new()
    }
}

/// What a link resolves to.
#[derive(Debug)]
pub enum Content {
    Page(Page),
    UnknownPage(UnknownPage),
    UnknownNamespace(UnknownNamespace),
}

impl Content {
    pub open spec fn wf(&self) -> bool {
        match self {
            Content::Page(p) => p.wikilink.wf(),
            Content::UnknownPage(u) => u.wikilink.wf(),
            Content::UnknownNamespace(n) => n.wikilink.wf(),
        }
    }

    /// The link this content was resolved from.
    pub fn wikilink(&self) -> (r: &WikiLink)
        ensures
            match self {
                Content::Page(p) => r == &p.wikilink,
                Content::UnknownPage(u) => r == &u.wikilink,
                Content::UnknownNamespace(n) => r == &n.wikilink,
            },
    {
        match self {
            Content::Page(p) => &p.wikilink,
            Content::UnknownPage(u) => &u.wikilink,
            Content::UnknownNamespace(n) => &n.wikilink,
        }
    }

    /// The HTML of the content; `editor` is the editor markup that an unknown
    /// page shows in edit mode.
    pub fn content(&self, editor: &str) -> (r: String)
        requires
            self.wf(),
        ensures
            match self {
                Content::Page(p) => r@ == header_text(page_heading(p.mode, p.wikilink@.base_text()))
                    + body_text(page_body(p.mode)),
                Content::UnknownPage(u) => mode_of(u.wikilink@) == Mode::Edit ==> r@ == header_text(
                    u.wikilink@.base_text(),
                ) + body_text(editor@),
                Content::UnknownNamespace(n) => r@ == header_text(n.wikilink@.base_text())
                    + body_text(missing_namespace_text()),
            },
            r@ == content_html(*self, editor@),
    {
        match self {
            Content::Page(p) => p.content(),
            Content::UnknownPage(u) => u.content(editor),
            Content::UnknownNamespace(n) => n.content(),
        }
    }

    pub fn tabs(&self) -> (r: Vec<Tab>)
        requires
            self.wf(),
        ensures
            match self {
                Content::Page(p) => mode_tabs_ok(r@, p.wikilink@, p.mode),
                Content::UnknownPage(u) => mode_tabs_ok(r@, u.wikilink@, mode_of(u.wikilink@)),
                Content::UnknownNamespace(n) => r@.len() == 1 && r@[0].selected && r@[0].title@
                    == mode_title(Mode::Read) && r@[0].wikilink@.base_text() == n.wikilink@.base_text()
                    && r@[0].wikilink.query_entries().len() == 0 && r@[0].wikilink@.fragment is None,
            },
            forall|i: int| 0 <= i < r@.len() ==> (#[trigger] r@[i]).wikilink.wf(),
    {
        match self {
            Content::Page(p) => p.tabs(),
            Content::UnknownPage(u) => u.tabs(),
            Content::UnknownNamespace(n) => n.tabs(),
        }
    }

    pub fn scripts(&self) -> (r: Vec<Script>)
        requires
            self.wf(),
        ensures
            match self {
                Content::UnknownPage(u) => mode_of(u.wikilink@) == Mode::Edit ==> r@ == seq![
                    Script::MarkdownEditor,
                ],
                _ => r@.len() == 0,
            },
    {
        match self {
            Content::Page(p) => p.scripts(),
            Content::UnknownPage(u) => u.scripts(),
            Content::UnknownNamespace(n) => n.scripts(),
        }
    }
}

} // verus!
