//! The master configuration (which namespaces exist and where they live) and
//! each namespace's own identity record.
use vstd::prelude::*;
use crate::text::push_char;
use crate::utils::{generate_random_string, is_id_text};

verus! {

/// Length of a namespace identifier.
pub const NAMESPACE_ID_LEN: u8 = 6;

/// Where a namespace's files live: under the managed data directory, or under
/// a root the user chose.
#[derive(Debug)]
pub enum NamespaceReference {
    Internal { id: String },
    External { id: String, root_dir: String },
}

/// `base/part`.
pub open spec fn join_path(base: Seq<char>, part: Seq<char>) -> Seq<char> {
    base + seq!['/'] + part
}

pub open spec fn data_dir_name() -> Seq<char> {
    seq!['D', 'a', 't', 'a']
}

pub open spec fn config_file_name() -> Seq<char> {
    seq!['c', 'o', 'n', 'f', 'i', 'g', '.', 'j', 's', 'o', 'n']
}

/// `base/part` as a string.
pub fn join(base: &str, part: &str) -> (r: String)
    ensures
        r@ == join_path(base@, part@),
{
    let mut r = String::from_str(base);
    push_char(&mut r, '/');
    r.append(part);
    r
}

fn config_json() -> (r: String)
    ensures
        r@ == config_file_name(),
{
    let r = String::from_str("config.json");
    proof {
        reveal_strlit("config.json");
    }
    assert(r@ =~= config_file_name());
    r
}

impl NamespaceReference {
    /// The root directory of the namespace: `app_dir/Data/<id>` for an internal
    /// one, the chosen root for an external one.
    pub fn root_dir(&self, app_dir: &str) -> (r: String)
        ensures
            match self {
                NamespaceReference::Internal { id } => r@ == join_path(
                    join_path(app_dir@, data_dir_name()),
                    id@,
                ),
                NamespaceReference::External { root_dir, .. } => r@ == root_dir@,
            },
    {
        match self {
            NamespaceReference::Internal { id } => {
                let data = String::from_str("Data");
                proof {
                    reveal_strlit("Data");
                }
                assert(data@ =~= data_dir_name());
                let d = join(app_dir, data.as_str());
                join(d.as_str(), id.as_str())
            },
            NamespaceReference::External { root_dir, .. } => root_dir.clone(),
        }
    }

    /// The identifier of the namespace.
    pub fn id(&self) -> (r: &String)
        ensures
            match self {
                NamespaceReference::Internal { id } => r == id,
                NamespaceReference::External { id, .. } => r == id,
            },
    {
        match self {
            NamespaceReference::Internal { id } => id,
            NamespaceReference::External { id, .. } => id,
        }
    }
}

/// One entry of the side menu, carried through unchanged.
#[derive(Debug)]
pub enum SideMenuItem {
    Text { value: String },
    Link { text: String, path: String },
}

#[derive(Debug)]
pub struct SideMenuSubSection {
    pub title: String,
    pub data: Vec<SideMenuItem>,
}

#[derive(Debug)]
pub struct SideMenu {
    pub main: Vec<SideMenuItem>,
    pub sub: Vec<SideMenuSubSection>,
}

/// The namespaces of the wiki, in order, and the side menu.
#[derive(Debug)]
pub struct MasterConfig {
    pub namespace: Vec<NamespaceReference>,
    pub sidemenu: SideMenu,
}

impl Default for MasterConfig {
    fn default() -> (r: Self)
        ensures
            r.namespace@.len() == 0,
            r.sidemenu.main@.len() == 0,
            r.sidemenu.sub@.len() == 0,
    {
        MasterConfig { namespace: Vec::new(), sidemenu: SideMenu { main: Vec::new(), sub: Vec::new() } }
    }
}

pub open spec fn same_reference(a: NamespaceReference, b: NamespaceReference) -> bool {
    match (a, b) {
        (NamespaceReference::Internal { id: x }, NamespaceReference::Internal { id: y }) => x@ == y@,
        (
            NamespaceReference::External { id: x, root_dir: p },
            NamespaceReference::External { id: y, root_dir: q },
        ) => x@ == y@ && p@ == q@,
        _ => false,
    }
}

impl MasterConfig {
    /// Registers a new internal namespace with a fresh random identifier and
    /// returns its reference.
    pub fn internal_namespace(&mut self) -> (r: NamespaceReference)
        ensures
            r matches NamespaceReference::Internal { id } && id@.len() == NAMESPACE_ID_LEN && is_id_text(
                id@,
            ),
            final(self).sidemenu == old(self).sidemenu,
            final(self).namespace@.len() == old(self).namespace@.len() + 1,
            final(self).namespace@.drop_last() == old(self).namespace@,
            same_reference(final(self).namespace@.last(), r),
    {
        let id = generate_random_string(NAMESPACE_ID_LEN);
        self.namespace.push(NamespaceReference::Internal { id: id.clone() });
        assert(self.namespace@.drop_last() =~= old(self).namespace@);
        NamespaceReference::Internal { id }
    }

    /// Registers a new external namespace rooted at `root_dir` with a fresh
    /// random identifier and returns its reference.
    pub fn external_namespace(&mut self, root_dir: String) -> (r: NamespaceReference)
        ensures
            r matches NamespaceReference::External { id, root_dir: d } && id@.len()
                == NAMESPACE_ID_LEN && is_id_text(id@) && d@ == root_dir@,
            final(self).sidemenu == old(self).sidemenu,
            final(self).namespace@.len() == old(self).namespace@.len() + 1,
            final(self).namespace@.drop_last() == old(self).namespace@,
            same_reference(final(self).namespace@.last(), r),
    {
        let id = generate_random_string(NAMESPACE_ID_LEN);
        self.namespace.push(NamespaceReference::External { id: id.clone(), root_dir: root_dir.clone() });
        assert(self.namespace@.drop_last() =~= old(self).namespace@);
        NamespaceReference::External { id, root_dir }
    }

    /// `app_dir/config.json`.
    pub fn config_path(app_dir: &str) -> (r: String)
        ensures
            r@ == join_path(app_dir@, config_file_name()),
    {
        join(app_dir, config_json().as_str())
    }
}

/// A namespace's identity: a random identifier and its display name.
#[derive(Debug)]
pub struct NamespaceConfig {
    pub id: String,
    pub name: String,
}

impl NamespaceConfig {
    /// The identity of a new namespace called `name`, with a fresh random identifier.
    pub fn new(name: &str) -> (r: Self)
        ensures
            r.name@ == name@,
            r.id@.len() == NAMESPACE_ID_LEN,
            is_id_text(r.id@),
    {
        NamespaceConfig { id: generate_random_string(NAMESPACE_ID_LEN), name: String::from_str(name) }
    }

    pub fn get_name(&self) -> (r: &String)
        ensures
            r == &self.name,
    {
        &self.name
    }

    /// `root_dir/config.json`.
    pub fn config_path(root_dir: &str) -> (r: String)
        ensures
            r@ == join_path(root_dir@, config_file_name()),
    {
        join(root_dir, config_json().as_str())
    }
}

} // verus!
