//! Namespaces, each with four version chains, and the registry that routes a
//! link to its namespace.
use vstd::prelude::*;
use crate::config::{join, join_path, MasterConfig, NamespaceConfig, NamespaceReference, NAMESPACE_ID_LEN};
use crate::content::{mode_of, Content, Page, UnknownNamespace, UnknownPage};
use crate::history::{
    appended, current_revision, fresh_id, lemma_add_then_resolve, opt_view, storage_path, History,
    HistoryError, HistoryView, ID_LEN,
};
use crate::utils::{generate_random_string, is_id_text, now_utc, Timestamp};
use crate::wikilink::{default_namespace, plain_link, WikiLink, WikiType, DEFAULT_NAMESPACE};

verus! {

/// The version chains of one namespace.
#[derive(Debug)]
pub struct Histories {
    pub page: History,
    pub file: History,
    pub file_description: History,
    pub category: History,
}

/// A named partition of content with its own chains.
#[derive(Debug)]
pub struct Namespace {
    pub config: NamespaceConfig,
    pub history: Histories,
}

/// `c` is the known page `wikilink`, its current text stored at `path`.
pub open spec fn known_at(c: Content, wikilink: WikiLink, path: Option<Seq<char>>) -> bool {
    match c {
        Content::Page(p) => p.wikilink == wikilink && p.mode == mode_of(wikilink@) && opt_view(
            p.path,
        ) == path,
        _ => false,
    }
}

/// `c` is the unknown page `wikilink`.
pub open spec fn unknown_page(c: Content, wikilink: WikiLink) -> bool {
    match c {
        Content::UnknownPage(u) => u.wikilink == wikilink,
        _ => false,
    }
}

/// `c` is what `wikilink` resolves to in chain `h`: known, with the storage
/// path of the current revision of its name, or unknown if the name has none.
pub open spec fn resolves_in(h: History, c: Content, wikilink: WikiLink) -> bool {
    match current_revision(h@, wikilink@.name) {
        Some(rev) => known_at(c, wikilink, Some(storage_path(h.root_dir@, rev.filename))),
        None => unknown_page(c, wikilink),
    }
}

/// A revision of `name` with a fresh identifier was appended to `h`, giving `h2`.
pub open spec fn added(h: HistoryView, h2: HistoryView, name: Seq<char>) -> bool {
    exists|id: Seq<char>, created: Timestamp| fresh_id(h, id) && appended(h, h2, name, id, created)
}

/// All four chains of `ns` hold no revision and no current pointer.
pub open spec fn empty_chains(ns: Namespace) -> bool {
    &&& ns.history.page@.versions.len() == 0 && ns.history.page@.current.len() == 0
    &&& ns.history.file@.versions.len() == 0 && ns.history.file@.current.len() == 0
    &&& ns.history.file_description@.versions.len() == 0
        && ns.history.file_description@.current.len() == 0
    &&& ns.history.category@.versions.len() == 0 && ns.history.category@.current.len() == 0
}

impl Histories {
    pub open spec fn wf(&self) -> bool {
        &&& self.page.wf()
        &&& self.file.wf()
        &&& self.file_description.wf()
        &&& self.category.wf()
    }
}

impl Namespace {
    pub open spec fn wf(&self) -> bool {
        self.history.wf()
    }

    /// A namespace with identity `config` and four empty chains under
    /// `root_dir/Page`, `root_dir/File`, `root_dir/FileDescription` and
    /// `root_dir/Category`.
    pub fn new(config: NamespaceConfig, root_dir: &str) -> (r: Self)
        ensures
            r.wf(),
            r.config == config,
            r.history.page@.versions.len() == 0,
            r.history.file@.versions.len() == 0,
            r.history.file_description@.versions.len() == 0,
            r.history.category@.versions.len() == 0,
            r.history.page.root_dir@ == join_path(root_dir@, "Page"@),
            r.history.file.root_dir@ == join_path(root_dir@, "File"@),
            r.history.file_description.root_dir@ == join_path(root_dir@, "FileDescription"@),
            r.history.category.root_dir@ == join_path(root_dir@, "Category"@),
            r.history.page@.current.len() == 0,
            r.history.file@.current.len() == 0,
            r.history.file_description@.current.len() == 0,
            r.history.category@.current.len() == 0,
    {
        let page = History::new(join(root_dir, "Page").as_str());
        let file = History::new(join(root_dir, "File").as_str());
        let file_description = History::new(join(root_dir, "FileDescription").as_str());
        let category = History::new(join(root_dir, "Category").as_str());
        Namespace { config, history: Histories { page, file, file_description, category } }
    }

    pub fn get_name(&self) -> (r: &String)
        ensures
            r == &self.config.name,
    {
        &self.config.name
    }

    /// Adds a revision of page `name`.
    pub fn add_page(&mut self, name: &str) -> (r: Result<(), HistoryError>)
        requires
            old(self).wf(),
            old(self).history.page@.versions.len() < usize::MAX,
        ensures
            final(self).wf(),
            final(self).config == old(self).config,
            final(self).history.file == old(self).history.file,
            final(self).history.file_description == old(self).history.file_description,
            final(self).history.category == old(self).history.category,
            final(self).history.page.root_dir == old(self).history.page.root_dir,
            r is Err ==> r == Err::<(), HistoryError>(HistoryError::DuplicateId),
            r is Err ==> final(self).history.page@ == old(self).history.page@,
            old(self).history.page@.versions.len() == 0 ==> r is Ok,
            r is Ok ==> added(old(self).history.page@, final(self).history.page@, name@),
            r is Ok ==> current_revision(final(self).history.page@, name@) is Some,
    {
        let r = self.history.page.add(name);
        proof {
            if r is Ok {
                lemma_added_resolves(old(self).history.page@, self.history.page@, name@);
            }
        }
        match r {
            Ok(()) => Ok(()),
            Err(_) => Err(HistoryError::DuplicateId),
        }
    }

    /// Adds a revision of category `name`.
    pub fn add_category(&mut self, name: &str) -> (r: Result<(), HistoryError>)
        requires
            old(self).wf(),
            old(self).history.category@.versions.len() < usize::MAX,
        ensures
            final(self).wf(),
            final(self).config == old(self).config,
            final(self).history.page == old(self).history.page,
            final(self).history.file == old(self).history.file,
            final(self).history.file_description == old(self).history.file_description,
            final(self).history.category.root_dir == old(self).history.category.root_dir,
            r is Err ==> r == Err::<(), HistoryError>(HistoryError::DuplicateId),
            r is Err ==> final(self).history.category@ == old(self).history.category@,
            old(self).history.category@.versions.len() == 0 ==> r is Ok,
            r is Ok ==> added(old(self).history.category@, final(self).history.category@, name@),
            r is Ok ==> current_revision(final(self).history.category@, name@) is Some,
    {
        let r = self.history.category.add(name);
        proof {
            if r is Ok {
                lemma_added_resolves(old(self).history.category@, self.history.category@, name@);
            }
        }
        match r {
            Ok(()) => Ok(()),
            Err(_) => Err(HistoryError::DuplicateId),
        }
    }

    /// Adds a revision of file `name` and, in lock-step, of its description:
    /// both identifiers are drawn and checked first, so either both chains
    /// advance or neither changes.
    pub fn add_file(&mut self, name: &str) -> (r: Result<(), HistoryError>)
        requires
            old(self).wf(),
            old(self).history.file@.versions.len() < usize::MAX,
            old(self).history.file_description@.versions.len() < usize::MAX,
        ensures
            final(self).wf(),
            final(self).config == old(self).config,
            final(self).history.page == old(self).history.page,
            final(self).history.category == old(self).history.category,
            final(self).history.file.root_dir == old(self).history.file.root_dir,
            final(self).history.file_description.root_dir
                == old(self).history.file_description.root_dir,
            r is Err ==> r == Err::<(), HistoryError>(HistoryError::DuplicateId),
            r is Err ==> final(self).history.file@ == old(self).history.file@
                && final(self).history.file_description@ == old(self).history.file_description@,
            old(self).history.file@.versions.len() == 0 && old(
                self,
            ).history.file_description@.versions.len() == 0 ==> r is Ok,
            r is Ok ==> added(old(self).history.file@, final(self).history.file@, name@) && added(
                old(self).history.file_description@,
                final(self).history.file_description@,
                name@,
            ),
            r is Ok ==> current_revision(final(self).history.file@, name@) is Some,
    {
        let file_id = generate_random_string(ID_LEN);
        let description_id = generate_random_string(ID_LEN);
        let created = now_utc();
        if self.history.file.contains_id(&file_id) || self.history.file_description.contains_id(
            &description_id,
        ) {
            return Err(HistoryError::DuplicateId);
        }
        let ghost fid = file_id@;
        let ghost did = description_id@;
        proof {
            crate::history::lemma_id_index_bounds(self.history.file@.versions, fid);
            crate::history::lemma_id_index_bounds(self.history.file_description@.versions, did);
        }
        let r1 = self.history.file.add_with(name, file_id, created);
        let r2 = self.history.file_description.add_with(name, description_id, created);
        assert(r1 is Ok && r2 is Ok);
        proof {
            assert(fresh_id(old(self).history.file@, fid));
            assert(fresh_id(old(self).history.file_description@, did));
            lemma_added_resolves(old(self).history.file@, self.history.file@, name@);
        }
        Ok(())
    }

    /// The chain that holds content of kind `k`; `Special` content has none.
    pub fn chain(&self, k: WikiType) -> (r: Option<&History>)
        ensures
            match k {
                WikiType::Page => r == Some(&self.history.page),
                WikiType::File => r == Some(&self.history.file),
                WikiType::Category => r == Some(&self.history.category),
                WikiType::Special => r is None,
            },
    {
        match k {
            WikiType::Page => Some(&self.history.page),
            WikiType::File => Some(&self.history.file),
            WikiType::Category => Some(&self.history.category),
            WikiType::Special => None,
        }
    }

    /// What `wikilink` resolves to in this namespace: the chain of its kind is
    /// asked for the current revision of its name; `Special` links are always
    /// known pages, with no stored text.
    pub fn get_content(&self, wikilink: WikiLink) -> (r: Content)
        requires
            self.wf(),
            wikilink.wf(),
        ensures
            match wikilink.wiki_type {
                WikiType::Page => resolves_in(self.history.page, r, wikilink),
                WikiType::File => resolves_in(self.history.file, r, wikilink),
                WikiType::Category => resolves_in(self.history.category, r, wikilink),
                WikiType::Special => known_at(r, wikilink, None),
            },
    {
        match self.chain(wikilink.wiki_type) {
            Some(h) => match h.get_file_path_by_name(wikilink.name.as_str()) {
                Some(path) => Content::Page(Page::stored_at(wikilink, path)),
                None => Content::UnknownPage(UnknownPage::new(wikilink)),
            },
            None => Content::Page(Page::new(wikilink)),
        }
    }
}

/// Why a change to the wiki was refused.
#[derive(Clone, Copy, Debug, PartialEq, Eq, Structural)]
pub enum WikiError {
    /// No namespace has the given name.
    UnknownNamespace,
    /// The chain refused the new revision.
    History(HistoryError),
}

/// Index of the first namespace called `name`, or `nss.len()`.
pub open spec fn namespace_index(nss: Seq<Namespace>, name: Seq<char>) -> int
    decreases nss.len(),
{
    if nss.len() == 0 {
        0
    } else if nss[0].config.name@ == name {
        0
    } else {
        1 + namespace_index(nss.drop_first(), name)
    }
}

pub proof fn lemma_namespace_index_is(nss: Seq<Namespace>, name: Seq<char>, r: int)
    requires
        0 <= r <= nss.len(),
        r < nss.len() ==> nss[r].config.name@ == name,
        forall|j: int| 0 <= j < r ==> (#[trigger] nss[j]).config.name@ != name,
    ensures
        namespace_index(nss, name) == r,
    decreases nss.len(),
{
    if nss.len() > 0 && r > 0 {
        assert(nss[0].config.name@ != name);
        assert forall|j: int| 0 <= j < r - 1 implies (#[trigger] nss.drop_first()[j]).config.name@
            != name by {
            assert(nss.drop_first()[j] == nss[j + 1]);
        }
        lemma_namespace_index_is(nss.drop_first(), name, r - 1);
    }
}

proof fn lemma_namespace_index_same_names(nss: Seq<Namespace>, nss2: Seq<Namespace>, name: Seq<char>)
    requires
        nss.len() == nss2.len(),
        forall|j: int| 0 <= j < nss.len() ==> (#[trigger] nss2[j]).config == nss[j].config,
    ensures
        namespace_index(nss2, name) == namespace_index(nss, name),
    decreases nss.len(),
{
    if nss.len() > 0 {
        assert(nss2[0].config == nss[0].config);
        assert forall|j: int| 0 <= j < nss.drop_first().len() implies (
        #[trigger] nss2.drop_first()[j]).config == nss.drop_first()[j].config by {
            assert(nss2.drop_first()[j] == nss2[j + 1]);
        }
        lemma_namespace_index_same_names(nss.drop_first(), nss2.drop_first(), name);
    }
}

/// The registry: the data directory, the master configuration and the
/// namespaces, looked up by display name.
#[derive(Debug)]
pub struct Wiki {
    pub app_dir: String,
    pub config: MasterConfig,
    pub namespaces: Vec<Namespace>,
}

impl Wiki {
    pub open spec fn wf(&self) -> bool {
        forall|i: int| 0 <= i < self.namespaces@.len() ==> (#[trigger] self.namespaces@[i]).wf()
    }

    /// A registry over `app_dir` with configuration `config` and no namespace loaded yet.
    pub fn with_config(app_dir: &str, config: MasterConfig) -> (r: Self)
        ensures
            r.wf(),
            r.app_dir@ == app_dir@,
            r.config == config,
            r.namespaces@.len() == 0,
    {
        Wiki { app_dir: String::from_str(app_dir), config, namespaces: Vec::new() }
    }

    /// Adds a loaded or newly created namespace.
    pub fn new_namespace(&mut self, namespace: Namespace)
        requires
            old(self).wf(),
            namespace.wf(),
        ensures
            final(self).wf(),
            final(self).namespaces@ == old(self).namespaces@.push(namespace),
            final(self).config == old(self).config,
            final(self).app_dir == old(self).app_dir,
    {
        self.namespaces.push(namespace);
    }

    fn find_namespace(&self, namespace: &str) -> (r: usize)
        ensures
            r == namespace_index(self.namespaces@, namespace@),
    {
        let target = String::from_str(namespace);
        let mut i: usize = 0;
        while i < self.namespaces.len() && *self.namespaces[i].get_name() != target
            invariant
                i <= self.namespaces@.len(),
                target@ == namespace@,
                forall|j: int| 0 <= j < i ==> (#[trigger] self.namespaces@[j]).config.name@ != namespace@,
            decreases self.namespaces@.len() - i,
        {
            i = i + 1;
        }
        proof {
            lemma_namespace_index_is(self.namespaces@, namespace@, i as int);
        }
        i
    }

    /// The namespace called `namespace`, if any.
    pub fn get_namespace(&self, namespace: &str) -> (r: Option<&Namespace>)
        ensures
            match r {
                Some(ns) => {
                    let i = namespace_index(self.namespaces@, namespace@);
                    0 <= i < self.namespaces@.len() && *ns == self.namespaces@[i]
                },
                None => namespace_index(self.namespaces@, namespace@) >= self.namespaces@.len(),
            },
    {
        let i = self.find_namespace(namespace);
        if i < self.namespaces.len() {
            Some(&self.namespaces[i])
        } else {
            None
        }
    }

    /// Adds a revision of page `name` in `namespace` and returns its link.
    pub fn add_page(&mut self, namespace: &str, name: &str) -> (r: Result<WikiLink, WikiError>)
        requires
            old(self).wf(),
            forall|i: int|
                0 <= i < old(self).namespaces@.len() ==> (#[trigger] old(self).namespaces@[i]).history.page@.versions.len() < usize::MAX,
        ensures
            final(self).wf(),
            final(self).config == old(self).config,
            final(self).app_dir == old(self).app_dir,
            final(self).namespaces@.len() == old(self).namespaces@.len(),
            ({
                let i = namespace_index(old(self).namespaces@, namespace@);
                if 0 <= i < old(self).namespaces@.len() {
                    &&& namespace_index(final(self).namespaces@, namespace@) == i
                    &&& forall|j: int|
                        0 <= j < old(self).namespaces@.len() && j != i
                            ==> #[trigger] final(self).namespaces@[j] == old(self).namespaces@[j]
                    &&& final(self).namespaces@[i].config == old(self).namespaces@[i].config
                &&& final(self).namespaces@[i].history.file == old(self).namespaces@[i].history.file
                &&& final(self).namespaces@[i].history.file_description == old(self).namespaces@[i].history.file_description
                &&& final(self).namespaces@[i].history.category == old(self).namespaces@[i].history.category
                &&& final(self).namespaces@[i].history.page.root_dir == old(self).namespaces@[i].history.page.root_dir
                    &&& (old(self).namespaces@[i].history.page@.versions.len() == 0 ==> r is Ok)
                    &&& (r is Err ==> r == Err::<WikiLink, WikiError>(
                        WikiError::History(HistoryError::DuplicateId),
                    ) && {
                        &&& final(self).namespaces@[i].history.page@
                            == old(self).namespaces@[i].history.page@
                    })
                    &&& (r is Ok ==> added(
                        old(self).namespaces@[i].history.page@,
                        final(self).namespaces@[i].history.page@,
                        name@,
                    ) && current_revision(final(self).namespaces@[i].history.page@, name@) is Some)
                } else {
                    &&& r == Err::<WikiLink, WikiError>(WikiError::UnknownNamespace)
                    &&& final(self).namespaces@ == old(self).namespaces@
                }
            }),
            r matches Ok(link) ==> link.wf() && link@ == plain_link(namespace@, WikiType::Page, name@),
    {
        let i = self.find_namespace(namespace);
        if i >= self.namespaces.len() {
            return Err(WikiError::UnknownNamespace);
        }
        let mut ns = self.namespaces.remove(i);
        let r = ns.add_page(name);
        self.namespaces.insert(i, ns);
        assert(self.namespaces@ =~= old(self).namespaces@.update(i as int, self.namespaces@[i as int]));
        assert forall|j: int| 0 <= j < self.namespaces@.len() implies (
        #[trigger] self.namespaces@[j]).wf() by {
            if j != i {
                assert(self.namespaces@[j] == old(self).namespaces@[j]);
            }
        }
        proof {
            lemma_namespace_index_same_names(old(self).namespaces@, self.namespaces@, namespace@);
        }
        match r {
            Ok(()) => Ok(WikiLink::new(namespace, WikiType::Page, name)),
            Err(_) => Err(WikiError::History(HistoryError::DuplicateId)),
        }
    }

    /// Adds a revision of category `name` in `namespace` and returns its link.
    pub fn add_category(&mut self, namespace: &str, name: &str) -> (r: Result<WikiLink, WikiError>)
        requires
            old(self).wf(),
            forall|i: int|
                0 <= i < old(self).namespaces@.len() ==> (#[trigger] old(self).namespaces@[i]).history.category@.versions.len() < usize::MAX,
        ensures
            final(self).wf(),
            final(self).config == old(self).config,
            final(self).app_dir == old(self).app_dir,
            final(self).namespaces@.len() == old(self).namespaces@.len(),
            ({
                let i = namespace_index(old(self).namespaces@, namespace@);
                if 0 <= i < old(self).namespaces@.len() {
                    &&& namespace_index(final(self).namespaces@, namespace@) == i
                    &&& forall|j: int|
                        0 <= j < old(self).namespaces@.len() && j != i
                            ==> #[trigger] final(self).namespaces@[j] == old(self).namespaces@[j]
                    &&& final(self).namespaces@[i].config == old(self).namespaces@[i].config
                &&& final(self).namespaces@[i].history.page == old(self).namespaces@[i].history.page
                &&& final(self).namespaces@[i].history.file == old(self).namespaces@[i].history.file
                &&& final(self).namespaces@[i].history.file_description == old(self).namespaces@[i].history.file_description
                &&& final(self).namespaces@[i].history.category.root_dir == old(self).namespaces@[i].history.category.root_dir
                    &&& (old(self).namespaces@[i].history.category@.versions.len() == 0 ==> r is Ok)
                    &&& (r is Err ==> r == Err::<WikiLink, WikiError>(
                        WikiError::History(HistoryError::DuplicateId),
                    ) && {
                        &&& final(self).namespaces@[i].history.category@
                            == old(self).namespaces@[i].history.category@
                    })
                    &&& (r is Ok ==> added(
                        old(self).namespaces@[i].history.category@,
                        final(self).namespaces@[i].history.category@,
                        name@,
                    ) && current_revision(final(self).namespaces@[i].history.category@, name@) is Some)
                } else {
                    &&& r == Err::<WikiLink, WikiError>(WikiError::UnknownNamespace)
                    &&& final(self).namespaces@ == old(self).namespaces@
                }
            }),
            r matches Ok(link) ==> link.wf() && link@ == plain_link(namespace@, WikiType::Category, name@),
    {
        let i = self.find_namespace(namespace);
        if i >= self.namespaces.len() {
            return Err(WikiError::UnknownNamespace);
        }
        let mut ns = self.namespaces.remove(i);
        let r = ns.add_category(name);
        self.namespaces.insert(i, ns);
        assert(self.namespaces@ =~= old(self).namespaces@.update(i as int, self.namespaces@[i as int]));
        assert forall|j: int| 0 <= j < self.namespaces@.len() implies (
        #[trigger] self.namespaces@[j]).wf() by {
            if j != i {
                assert(self.namespaces@[j] == old(self).namespaces@[j]);
            }
        }
        proof {
            lemma_namespace_index_same_names(old(self).namespaces@, self.namespaces@, namespace@);
        }
        match r {
            Ok(()) => Ok(WikiLink::new(namespace, WikiType::Category, name)),
            Err(_) => Err(WikiError::History(HistoryError::DuplicateId)),
        }
    }

    /// Adds a revision of file `name`, and of its description, in `namespace`
    /// and returns the file's link. Either both chains advance or neither changes.
    pub fn add_file(&mut self, namespace: &str, name: &str) -> (r: Result<WikiLink, WikiError>)
        requires
            old(self).wf(),
            forall|i: int|
                0 <= i < old(self).namespaces@.len() ==> {
                    &&& (#[trigger] old(self).namespaces@[i]).history.file@.versions.len()
                        < usize::MAX
                    &&& old(self).namespaces@[i].history.file_description@.versions.len()
                        < usize::MAX
                },
        ensures
            final(self).wf(),
            final(self).config == old(self).config,
            final(self).app_dir == old(self).app_dir,
            final(self).namespaces@.len() == old(self).namespaces@.len(),
            ({
                let i = namespace_index(old(self).namespaces@, namespace@);
                if 0 <= i < old(self).namespaces@.len() {
                    &&& namespace_index(final(self).namespaces@, namespace@) == i
                    &&& forall|j: int|
                        0 <= j < old(self).namespaces@.len() && j != i
                            ==> #[trigger] final(self).namespaces@[j] == old(self).namespaces@[j]
                    &&& final(self).namespaces@[i].config == old(self).namespaces@[i].config
                &&& final(self).namespaces@[i].history.page == old(self).namespaces@[i].history.page
                &&& final(self).namespaces@[i].history.category == old(self).namespaces@[i].history.category
                &&& final(self).namespaces@[i].history.file.root_dir == old(self).namespaces@[i].history.file.root_dir
                &&& final(self).namespaces@[i].history.file_description.root_dir == old(self).namespaces@[i].history.file_description.root_dir
                    &&& (old(self).namespaces@[i].history.file@.versions.len() == 0 && old(self).namespaces@[i].history.file_description@.versions.len() == 0 ==> r is Ok)
                    &&& (r is Err ==> r == Err::<WikiLink, WikiError>(
                        WikiError::History(HistoryError::DuplicateId),
                    ) && {
                        &&& final(self).namespaces@[i].history.file@
                            == old(self).namespaces@[i].history.file@
                        &&& final(self).namespaces@[i].history.file_description@
                            == old(self).namespaces@[i].history.file_description@
                    })
                    &&& (r is Ok ==> added(
                        old(self).namespaces@[i].history.file@,
                        final(self).namespaces@[i].history.file@,
                        name@,
                    ) && added(
                        old(self).namespaces@[i].history.file_description@,
                        final(self).namespaces@[i].history.file_description@,
                        name@,
                    ) && current_revision(final(self).namespaces@[i].history.file@, name@) is Some)
                } else {
                    &&& r == Err::<WikiLink, WikiError>(WikiError::UnknownNamespace)
                    &&& final(self).namespaces@ == old(self).namespaces@
                }
            }),
            r matches Ok(link) ==> link.wf() && link@ == plain_link(namespace@, WikiType::File, name@),
    {
        let i = self.find_namespace(namespace);
        if i >= self.namespaces.len() {
            return Err(WikiError::UnknownNamespace);
        }
        let mut ns = self.namespaces.remove(i);
        let r = ns.add_file(name);
        self.namespaces.insert(i, ns);
        assert(self.namespaces@ =~= old(self).namespaces@.update(i as int, self.namespaces@[i as int]));
        assert forall|j: int| 0 <= j < self.namespaces@.len() implies (
        #[trigger] self.namespaces@[j]).wf() by {
            if j != i {
                assert(self.namespaces@[j] == old(self).namespaces@[j]);
            }
        }
        proof {
            lemma_namespace_index_same_names(old(self).namespaces@, self.namespaces@, namespace@);
        }
        match r {
            Ok(()) => Ok(WikiLink::new(namespace, WikiType::File, name)),
            Err(_) => Err(WikiError::History(HistoryError::DuplicateId)),
        }
    }

    /// Registers a new internal namespace called `name`, with empty chains
    /// under its root in the data directory, and returns that root.
    pub fn internal_namespace(&mut self, name: &str) -> (r: String)
        requires
            old(self).wf(),
        ensures
            final(self).wf(),
            final(self).namespaces@.len() == old(self).namespaces@.len() + 1,
            final(self).namespaces@.drop_last() == old(self).namespaces@,
            final(self).namespaces@.last().config.name@ == name@,
            empty_chains(final(self).namespaces@.last()),
            final(self).config.namespace@.len() == old(self).config.namespace@.len() + 1,
            final(self).config.namespace@.drop_last() == old(self).config.namespace@,
            final(self).config.sidemenu == old(self).config.sidemenu,
            final(self).config.namespace@.last() matches NamespaceReference::Internal { id }
                && id@.len() == NAMESPACE_ID_LEN && is_id_text(id@),
            final(self).app_dir == old(self).app_dir,
    {
        let reference = self.config.internal_namespace();
        let root_dir = reference.root_dir(self.app_dir.as_str());
        let ns = Namespace::new(NamespaceConfig::new(name), root_dir.as_str());
        self.new_namespace(ns);
        assert(self.namespaces@.drop_last() =~= old(self).namespaces@);
        root_dir
    }

    /// Registers a new external namespace called `name`, with empty chains
    /// under `root_dir`, and returns that root.
    pub fn external_namespace(&mut self, name: &str, root_dir: String) -> (r: String)
        requires
            old(self).wf(),
        ensures
            r@ == root_dir@,
            final(self).wf(),
            final(self).namespaces@.len() == old(self).namespaces@.len() + 1,
            final(self).namespaces@.drop_last() == old(self).namespaces@,
            final(self).namespaces@.last().config.name@ == name@,
            empty_chains(final(self).namespaces@.last()),
            final(self).config.namespace@.len() == old(self).config.namespace@.len() + 1,
            final(self).config.namespace@.drop_last() == old(self).config.namespace@,
            final(self).config.sidemenu == old(self).config.sidemenu,
            final(self).app_dir == old(self).app_dir,
    {
        let reference = self.config.external_namespace(root_dir);
        let root = reference.root_dir(self.app_dir.as_str());
        let ns = Namespace::new(NamespaceConfig::new(name), root.as_str());
        self.new_namespace(ns);
        assert(self.namespaces@.drop_last() =~= old(self).namespaces@);
        root
    }

    /// A fresh registry over `app_dir` holding one internal namespace, `Main`.
    pub fn new(app_dir: &str) -> (r: Self)
        ensures
            r.wf(),
            r.app_dir@ == app_dir@,
            r.namespaces@.len() == 1,
            r.namespaces@[0].config.name@ == default_namespace(),
            empty_chains(r.namespaces@[0]),
            namespace_index(r.namespaces@, default_namespace()) == 0,
            r.config.namespace@.len() == 1,
            r.config.namespace@[0] matches NamespaceReference::Internal { id } && id@.len()
                == NAMESPACE_ID_LEN && is_id_text(id@),
    {
        let mut wiki = Wiki::with_config(app_dir, MasterConfig::default());
        let main = String::from_str(DEFAULT_NAMESPACE);
        proof {
            reveal_strlit("Main");
        }
        assert(main@ =~= default_namespace());
        wiki.internal_namespace(main.as_str());
        wiki
    }

    /// What `wikilink` resolves to: an unknown namespace if no namespace has
    /// its namespace's name, else what that namespace resolves it to.
    pub fn get_content(&self, wikilink: WikiLink) -> (r: Content)
        requires
            self.wf(),
            wikilink.wf(),
        ensures
            wiki_resolves(*self, wikilink, r),
    {
        match self.get_namespace(wikilink.namespace.as_str()) {
            None => Content::UnknownNamespace(UnknownNamespace { wikilink }),
            Some(ns) => ns.get_content(wikilink),
        }
    }
}

/// `c` is what `wikilink` resolves to in `wiki`: an unknown namespace if no
/// namespace has its namespace's name, else what that namespace's chain of its
/// kind says.
pub open spec fn wiki_resolves(wiki: Wiki, wikilink: WikiLink, c: Content) -> bool {
    let i = namespace_index(wiki.namespaces@, wikilink@.namespace);
    if 0 <= i < wiki.namespaces@.len() {
        let ns = wiki.namespaces@[i];
        match wikilink.wiki_type {
            WikiType::Page => resolves_in(ns.history.page, c, wikilink),
            WikiType::File => resolves_in(ns.history.file, c, wikilink),
            WikiType::Category => resolves_in(ns.history.category, c, wikilink),
            WikiType::Special => known_at(c, wikilink, None),
        }
    } else {
        c matches Content::UnknownNamespace(u) && u.wikilink == wikilink
    }
}

/// Once a revision of `name` has been added to a chain, `name` has a current
/// revision there: a link to it resolves to a known page.
pub proof fn lemma_added_resolves(h: HistoryView, h2: HistoryView, name: Seq<char>)
    requires
        crate::history::chain_wf(h),
        added(h, h2, name),
    ensures
        current_revision(h2, name) is Some,
{
    let (id, created) = choose|id: Seq<char>, created: Timestamp|
        fresh_id(h, id) && appended(h, h2, name, id, created);
    lemma_added_name_resolves(h, h2, name, id, created);
}

/// Once a revision of `name` has been appended to a chain, the name has a
/// current revision there, stored under its new identifier: a link to it
/// resolves to a known page with that storage path.
pub proof fn lemma_added_name_resolves(
    h: HistoryView,
    h2: HistoryView,
    name: Seq<char>,
    id: Seq<char>,
    created: Timestamp,
)
    requires
        crate::history::chain_wf(h),
        id.len() == ID_LEN,
        crate::history::id_index(h.versions, id) == h.versions.len(),
        appended(h, h2, name, id, created),
    ensures
        current_revision(h2, name) is Some,
        current_revision(h2, name)->0.filename == id,
{
    lemma_add_then_resolve(h, h2, name, id, created);
    crate::history::lemma_appended_wf(h, h2, name, id, created);
    let c = crate::history::name_index(h2.current, name);
    crate::history::lemma_name_index_bounds(h2.current, name);
    assert(crate::history::current_ok(h2.versions, h2.current, c));
    assert(crate::history::revision_ok(
        h2.versions,
        h2.current,
        crate::history::id_index(h2.versions, h2.current[c].1),
    ));
}

} // verus!
