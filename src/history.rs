//! Version chains: for each name, an append-only, doubly linked sequence of
//! revisions, and a pointer to the newest one.
use vstd::prelude::*;
use crate::text::{chars_of, push_char};
use crate::utils::{generate_random_string, is_id_text, now_utc, Timestamp};

verus! {

/// Length of a revision identifier.
pub const ID_LEN: u8 = 16;

pub struct RevisionView {
    pub id: Seq<char>,
    pub name: Seq<char>,
    pub version: nat,
    pub next: Option<Seq<char>>,
    pub prev: Option<Seq<char>>,
    pub created: Timestamp,
    pub comment: Seq<char>,
    pub filename: Seq<char>,
}

pub open spec fn opt_view(o: Option<String>) -> Option<Seq<char>> {
    match o {
        Some(s) => Some(s@),
        None => None,
    }
}

/// One immutable snapshot of a named item; only `next` is ever filled in later.
#[derive(Debug)]
pub struct Revision {
    pub id: String,
    pub name: String,
    pub version: usize,
    pub next: Option<String>,
    pub prev: Option<String>,
    pub created: Timestamp,
    pub comment: String,
    pub filename: String,
}

impl View for Revision {
    type V = RevisionView;

    open spec fn view(&self) -> RevisionView {
        RevisionView {
            id: self.id@,
            name: self.name@,
            version: self.version as nat,
            next: opt_view(self.next),
            prev: opt_view(self.prev),
            created: self.created,
            comment: self.comment@,
            filename: self.filename@,
        }
    }
}

/// The newest revision of `name`.
#[derive(Debug)]
pub struct CurrentReference {
    pub name: String,
    pub id: String,
}

/// All revisions of one kind of content, and the current pointer of each name.
#[derive(Debug)]
pub struct History {
    pub root_dir: String,
    pub versions: Vec<Revision>,
    pub current: Vec<CurrentReference>,
    /// For each revision with a `prev`, the index of that predecessor in `versions`.
    pub prev_index: Vec<usize>,
}

pub struct HistoryView {
    pub versions: Seq<RevisionView>,
    pub current: Seq<(Seq<char>, Seq<char>)>,
}

/// The mathematical value of a revision table and a current-pointer table.
pub open spec fn tables_view(versions: Seq<Revision>, current: Seq<CurrentReference>) -> HistoryView {
    HistoryView {
        versions: versions.map_values(|r: Revision| r@),
        current: current.map_values(|c: CurrentReference| (c.name@, c.id@)),
    }
}

/// `prev_index` holds, for each revision with a `prev`, where that predecessor is.
pub open spec fn links_ok(h: HistoryView, prev_index: Seq<usize>) -> bool {
    &&& prev_index.len() == h.versions.len()
    &&& forall|i: int|
        0 <= i < h.versions.len() && h.versions[i].prev is Some ==> #[trigger] prev_index[i]
            == id_index(h.versions, h.versions[i].prev->0)
}

impl View for History {
    type V = HistoryView;

    open spec fn view(&self) -> HistoryView {
        tables_view(self.versions@, self.current@)
    }
}

#[derive(Clone, Copy, Debug, PartialEq, Eq, Structural)]
pub enum HistoryError {
    /// A new revision identifier does not have the identifier length.
    InvalidId,
    /// A new revision identifier is already in use.
    DuplicateId,
    /// Loaded tables break the chain invariants.
    Malformed,
}

/// Index of the first revision with identifier `id`, or `vs.len()`.
pub open spec fn id_index(vs: Seq<RevisionView>, id: Seq<char>) -> int
    decreases vs.len(),
{
    if vs.len() == 0 {
        0
    } else if vs[0].id == id {
        0
    } else {
        1 + id_index(vs.drop_first(), id)
    }
}

/// Index of the current pointer of `name`, or `cs.len()`.
pub open spec fn name_index(cs: Seq<(Seq<char>, Seq<char>)>, name: Seq<char>) -> int
    decreases cs.len(),
{
    if cs.len() == 0 {
        0
    } else if cs[0].0 == name {
        0
    } else {
        1 + name_index(cs.drop_first(), name)
    }
}

pub proof fn lemma_id_index_is(vs: Seq<RevisionView>, id: Seq<char>, r: int)
    requires
        0 <= r <= vs.len(),
        r < vs.len() ==> vs[r].id == id,
        forall|j: int| 0 <= j < r ==> (#[trigger] vs[j]).id != id,
    ensures
        id_index(vs, id) == r,
    decreases vs.len(),
{
    if vs.len() > 0 && r > 0 {
        assert(vs[0].id != id);
        assert forall|j: int| 0 <= j < r - 1 implies (#[trigger] vs.drop_first()[j]).id != id by {
            assert(vs.drop_first()[j] == vs[j + 1]);
        }
        lemma_id_index_is(vs.drop_first(), id, r - 1);
    }
}

pub proof fn lemma_id_index_bounds(vs: Seq<RevisionView>, id: Seq<char>)
    ensures
        0 <= id_index(vs, id) <= vs.len(),
        id_index(vs, id) < vs.len() ==> vs[id_index(vs, id)].id == id,
        forall|j: int| 0 <= j < id_index(vs, id) ==> (#[trigger] vs[j]).id != id,
    decreases vs.len(),
{
    if vs.len() > 0 && vs[0].id != id {
        lemma_id_index_bounds(vs.drop_first(), id);
        assert forall|j: int| 0 <= j < id_index(vs, id) implies (#[trigger] vs[j]).id != id by {
            if j > 0 {
                assert(vs[j] == vs.drop_first()[j - 1]);
            }
        }
    }
}

pub proof fn lemma_name_index_is(cs: Seq<(Seq<char>, Seq<char>)>, name: Seq<char>, r: int)
    requires
        0 <= r <= cs.len(),
        r < cs.len() ==> cs[r].0 == name,
        forall|j: int| 0 <= j < r ==> (#[trigger] cs[j]).0 != name,
    ensures
        name_index(cs, name) == r,
    decreases cs.len(),
{
    if cs.len() > 0 && r > 0 {
        assert(cs[0].0 != name);
        assert forall|j: int| 0 <= j < r - 1 implies (#[trigger] cs.drop_first()[j]).0 != name by {
            assert(cs.drop_first()[j] == cs[j + 1]);
        }
        lemma_name_index_is(cs.drop_first(), name, r - 1);
    }
}

pub proof fn lemma_name_index_bounds(cs: Seq<(Seq<char>, Seq<char>)>, name: Seq<char>)
    ensures
        0 <= name_index(cs, name) <= cs.len(),
        name_index(cs, name) < cs.len() ==> cs[name_index(cs, name)].0 == name,
        forall|j: int| 0 <= j < name_index(cs, name) ==> (#[trigger] cs[j]).0 != name,
    decreases cs.len(),
{
    if cs.len() > 0 && cs[0].0 != name {
        lemma_name_index_bounds(cs.drop_first(), name);
        assert forall|j: int| 0 <= j < name_index(cs, name) implies (#[trigger] cs[j]).0 != name by {
            if j > 0 {
                assert(cs[j] == cs.drop_first()[j - 1]);
            }
        }
    }
}

/// What each revision at index `i` promises: a well-formed identifier that is
/// also its file name, a version between 1 and the number of revisions, a
/// `prev` exactly when the version is above 1, links in both directions that
/// agree with each other, and a current pointer for its name.
pub open spec fn revision_ok(
    vs: Seq<RevisionView>,
    cs: Seq<(Seq<char>, Seq<char>)>,
    i: int,
) -> bool {
    let r = vs[i];
    &&& r.id.len() == ID_LEN
    &&& r.filename == r.id
    &&& 1 <= r.version <= vs.len()
    &&& (r.prev is None <==> r.version == 1)
    &&& (r.prev is Some ==> {
        let j = id_index(vs, r.prev->0);
        &&& 0 <= j < vs.len()
        &&& vs[j].name == r.name
        &&& vs[j].version + 1 == r.version
        &&& vs[j].next == Some(r.id)
    })
    &&& (r.next is Some ==> {
        let j = id_index(vs, r.next->0);
        &&& 0 <= j < vs.len()
        &&& vs[j].name == r.name
        &&& vs[j].version == r.version + 1
        &&& vs[j].prev == Some(r.id)
    })
    &&& name_index(cs, r.name) < cs.len()
}

/// The current pointer at index `a` names a revision of its name with no successor.
pub open spec fn current_ok(
    vs: Seq<RevisionView>,
    cs: Seq<(Seq<char>, Seq<char>)>,
    a: int,
) -> bool {
    let j = id_index(vs, cs[a].1);
    &&& 0 <= j < vs.len()
    &&& vs[j].name == cs[a].0
    &&& vs[j].next is None
}

pub open spec fn chain_wf(h: HistoryView) -> bool {
    let vs = h.versions;
    let cs = h.current;
    &&& forall|i: int, j: int|
        0 <= i < vs.len() && 0 <= j < vs.len() && #[trigger] vs[i].id == #[trigger] vs[j].id
            ==> i == j
    &&& forall|i: int| 0 <= i < vs.len() ==> #[trigger] revision_ok(vs, cs, i)
    &&& forall|a: int, b: int|
        0 <= a < cs.len() && 0 <= b < cs.len() && #[trigger] cs[a].0 == #[trigger] cs[b].0
            ==> a == b
    &&& forall|a: int| 0 <= a < cs.len() ==> #[trigger] current_ok(vs, cs, a)
}

/// The newest revision of `name`, if `name` has any.
pub open spec fn current_revision(h: HistoryView, name: Seq<char>) -> Option<RevisionView> {
    let c = name_index(h.current, name);
    if 0 <= c < h.current.len() {
        Some(h.versions[id_index(h.versions, h.current[c].1)])
    } else {
        None
    }
}

/// A revision as `add` creates it: no successor, no comment, named after its id.
pub open spec fn fresh_revision(
    name: Seq<char>,
    id: Seq<char>,
    version: nat,
    prev: Option<Seq<char>>,
    created: Timestamp,
) -> RevisionView {
    RevisionView {
        id,
        name,
        version,
        next: None,
        prev,
        created,
        comment: Seq::empty(),
        filename: id,
    }
}

/// `h2` is `h` after adding a revision of `name` with identifier `id`: a new
/// chain at version 1, or the current revision extended by one version, its
/// `next` filled in and the current pointer moved to the new revision.
pub open spec fn appended(
    h: HistoryView,
    h2: HistoryView,
    name: Seq<char>,
    id: Seq<char>,
    created: Timestamp,
) -> bool {
    let c = name_index(h.current, name);
    if 0 <= c < h.current.len() {
        let t = id_index(h.versions, h.current[c].1);
        let tip = h.versions[t];
        &&& h2.versions == h.versions.update(t, RevisionView { next: Some(id), ..tip }).push(
            fresh_revision(name, id, tip.version + 1, Some(tip.id), created),
        )
        &&& h2.current == h.current.update(c, (name, id))
    } else {
        &&& h2.versions == h.versions.push(fresh_revision(name, id, 1, None, created))
        &&& h2.current == h.current.push((name, id))
    }
}

/// `id` can name a new revision of `h`: identifier length, identifier
/// alphabet, and no revision of `h` has it.
pub open spec fn fresh_id(h: HistoryView, id: Seq<char>) -> bool {
    &&& id.len() == ID_LEN
    &&& is_id_text(id)
    &&& id_index(h.versions, id) == h.versions.len()
}

/// `root/ab/abcdef...`: the file of a revision, sharded by the first two
/// characters of its file name.
pub open spec fn storage_path(root: Seq<char>, filename: Seq<char>) -> Seq<char> {
    root + seq!['/'] + filename.subrange(0, 2) + seq!['/'] + filename
}

fn clone_opt(o: &Option<String>) -> (r: Option<String>)
    ensures
        opt_view(r) == opt_view(*o),
{
    match o {
        Some(s) => Some(s.clone()),
        None => None,
    }
}

proof fn lemma_id_index_push(vs: Seq<RevisionView>, x: RevisionView, k: Seq<char>)
    ensures
        id_index(vs, k) < vs.len() ==> id_index(vs.push(x), k) == id_index(vs, k),
        id_index(vs, k) == vs.len() && x.id == k ==> id_index(vs.push(x), k) == vs.len(),
{
    lemma_id_index_bounds(vs, k);
    let r = id_index(vs, k);
    let vs2 = vs.push(x);
    if r < vs.len() || x.id == k {
        assert forall|j: int| 0 <= j < r implies (#[trigger] vs2[j]).id != k by {
            assert(vs2[j] == vs[j]);
        }
        lemma_id_index_is(vs2, k, r);
    }
}

proof fn lemma_id_index_same_ids(vs: Seq<RevisionView>, vs1: Seq<RevisionView>, k: Seq<char>)
    requires
        vs.len() == vs1.len(),
        forall|j: int| 0 <= j < vs.len() ==> (#[trigger] vs1[j]).id == vs[j].id,
    ensures
        id_index(vs1, k) == id_index(vs, k),
{
    lemma_id_index_bounds(vs, k);
    let r = id_index(vs, k);
    assert forall|j: int| 0 <= j < r implies (#[trigger] vs1[j]).id != k by {
        assert(vs[j].id != k);
    }
    lemma_id_index_is(vs1, k, r);
}

proof fn lemma_name_index_push(cs: Seq<(Seq<char>, Seq<char>)>, x: (Seq<char>, Seq<char>), n: Seq<char>)
    ensures
        name_index(cs, n) < cs.len() ==> name_index(cs.push(x), n) == name_index(cs, n),
        name_index(cs, n) == cs.len() && x.0 == n ==> name_index(cs.push(x), n) == cs.len(),
{
    lemma_name_index_bounds(cs, n);
    let r = name_index(cs, n);
    let cs2 = cs.push(x);
    if r < cs.len() || x.0 == n {
        assert forall|j: int| 0 <= j < r implies (#[trigger] cs2[j]).0 != n by {
            assert(cs2[j] == cs[j]);
        }
        lemma_name_index_is(cs2, n, r);
    }
}

proof fn lemma_name_index_same_names(
    cs: Seq<(Seq<char>, Seq<char>)>,
    cs1: Seq<(Seq<char>, Seq<char>)>,
    n: Seq<char>,
)
    requires
        cs.len() == cs1.len(),
        forall|j: int| 0 <= j < cs.len() ==> (#[trigger] cs1[j]).0 == cs[j].0,
    ensures
        name_index(cs1, n) == name_index(cs, n),
{
    lemma_name_index_bounds(cs, n);
    let r = name_index(cs, n);
    assert forall|j: int| 0 <= j < r implies (#[trigger] cs1[j]).0 != n by {
        assert(cs[j].0 != n);
    }
    lemma_name_index_is(cs1, n, r);
}

/// Under unique identifiers, a revision's own identifier finds it.
proof fn lemma_id_index_of_member(vs: Seq<RevisionView>, i: int)
    requires
        0 <= i < vs.len(),
        forall|a: int, b: int|
            0 <= a < vs.len() && 0 <= b < vs.len() && #[trigger] vs[a].id == #[trigger] vs[b].id
                ==> a == b,
    ensures
        id_index(vs, vs[i].id) == i,
{
    assert forall|j: int| 0 <= j < i implies (#[trigger] vs[j]).id != vs[i].id by {}
    lemma_id_index_is(vs, vs[i].id, i);
}

/// Appending a revision with a fresh, well-formed identifier keeps the chains well formed.
pub proof fn lemma_appended_wf(
    h: HistoryView,
    h2: HistoryView,
    name: Seq<char>,
    id: Seq<char>,
    created: Timestamp,
)
    requires
        chain_wf(h),
        id.len() == ID_LEN,
        id_index(h.versions, id) == h.versions.len(),
        appended(h, h2, name, id, created),
    ensures
        chain_wf(h2),
{
    let vs = h.versions;
    let cs = h.current;
    let vs2 = h2.versions;
    let cs2 = h2.current;
    let n = vs.len();
    lemma_id_index_bounds(vs, id);
    lemma_name_index_bounds(cs, name);
    let c = name_index(cs, name);
    if c < cs.len() {
        assert(current_ok(vs, cs, c));
        let t = id_index(vs, cs[c].1);
        let tip = vs[t];
        let vs1 = vs.update(t, RevisionView { next: Some(id), ..tip });
        let x = fresh_revision(name, id, tip.version + 1, Some(tip.id), created);
        assert(vs2 == vs1.push(x));
        lemma_id_index_bounds(vs, cs[c].1);
        assert(tip.id == cs[c].1);
        assert(revision_ok(vs, cs, t));
        assert forall|k: Seq<char>| #[trigger] id_index(vs2, k) == (if id_index(vs, k) < n {
            id_index(vs, k)
        } else if k == id {
            n as int
        } else {
            id_index(vs2, k)
        }) by {
            lemma_id_index_same_ids(vs, vs1, k);
            lemma_id_index_push(vs1, x, k);
        }
        assert forall|k: Seq<char>| #[trigger] name_index(cs2, k) == name_index(cs, k) by {
            lemma_name_index_same_names(cs, cs2, k);
        }
        lemma_id_index_of_member(vs, t);
        assert(id_index(vs2, tip.id) == t);
        assert(id_index(vs2, id) == n);
        assert forall|i: int, j: int|
            0 <= i < vs2.len() && 0 <= j < vs2.len() && #[trigger] vs2[i].id == #[trigger] vs2[j].id
                implies i == j by {
            if i < n && j < n {
                assert(vs2[i].id == vs[i].id && vs2[j].id == vs[j].id);
            } else if i < n {
                assert(vs2[i].id == vs[i].id);
            } else if j < n {
                assert(vs2[j].id == vs[j].id);
            }
        }
        assert forall|i: int| 0 <= i < vs2.len() implies #[trigger] revision_ok(vs2, cs2, i) by {
            if i < n {
                assert(revision_ok(vs, cs, i));
                let r = vs[i];
                if r.prev is Some {
                    let j = id_index(vs, r.prev->0);
                    if j == t {
                        assert(vs[j].next is None);
                    }
                    assert(vs2[j] == vs[j]);
                }
                if r.next is Some {
                    let j = id_index(vs, r.next->0);
                    assert(vs2[j].name == vs[j].name && vs2[j].version == vs[j].version
                        && vs2[j].prev == vs[j].prev);
                }
            }
        }
        assert forall|a: int, b: int|
            0 <= a < cs2.len() && 0 <= b < cs2.len() && #[trigger] cs2[a].0 == #[trigger] cs2[b].0
                implies a == b by {
            assert(cs2[a].0 == cs[a].0 && cs2[b].0 == cs[b].0);
        }
        assert forall|a: int| 0 <= a < cs2.len() implies #[trigger] current_ok(vs2, cs2, a) by {
            if a != c {
                assert(current_ok(vs, cs, a));
                let j = id_index(vs, cs[a].1);
                lemma_id_index_bounds(vs, cs[a].1);
                if j == t {
                    assert(cs[a].0 == cs[c].0);
                }
                assert(vs2[j] == vs[j]);
            }
        }
    } else {
        let x = fresh_revision(name, id, 1, None, created);
        assert forall|k: Seq<char>| #[trigger] id_index(vs2, k) == (if id_index(vs, k) < n {
            id_index(vs, k)
        } else if k == id {
            n as int
        } else {
            id_index(vs2, k)
        }) by {
            lemma_id_index_push(vs, x, k);
        }
        assert forall|k: Seq<char>| name_index(cs, k) < cs.len() implies #[trigger] name_index(cs2, k)
            == name_index(cs, k) by {
            lemma_name_index_push(cs, (name, id), k);
        }
        lemma_name_index_push(cs, (name, id), name);
        assert forall|i: int, j: int|
            0 <= i < vs2.len() && 0 <= j < vs2.len() && #[trigger] vs2[i].id == #[trigger] vs2[j].id
                implies i == j by {
            if i < n && j < n {
                assert(vs2[i].id == vs[i].id && vs2[j].id == vs[j].id);
            } else if i < n {
                assert(vs2[i].id == vs[i].id);
            } else if j < n {
                assert(vs2[j].id == vs[j].id);
            }
        }
        assert forall|i: int| 0 <= i < vs2.len() implies #[trigger] revision_ok(vs2, cs2, i) by {
            if i < n {
                assert(revision_ok(vs, cs, i));
                let r = vs[i];
                if r.prev is Some {
                    assert(vs2[id_index(vs, r.prev->0)] == vs[id_index(vs, r.prev->0)]);
                }
                if r.next is Some {
                    assert(vs2[id_index(vs, r.next->0)] == vs[id_index(vs, r.next->0)]);
                }
            }
        }
        assert forall|a: int, b: int|
            0 <= a < cs2.len() && 0 <= b < cs2.len() && #[trigger] cs2[a].0 == #[trigger] cs2[b].0
                implies a == b by {
            if a < cs.len() && b < cs.len() {
                assert(cs2[a] == cs[a] && cs2[b] == cs[b]);
            } else if a < cs.len() {
                assert(cs2[a] == cs[a]);
            } else if b < cs.len() {
                assert(cs2[b] == cs[b]);
            }
        }
        assert forall|a: int| 0 <= a < cs2.len() implies #[trigger] current_ok(vs2, cs2, a) by {
            if a < cs.len() {
                assert(current_ok(vs, cs, a));
                assert(cs2[a] == cs[a]);
                assert(vs2[id_index(vs, cs[a].1)] == vs[id_index(vs, cs[a].1)]);
            }
        }
    }
}

impl History {
    pub open spec fn wf(&self) -> bool {
        chain_wf(self@) && links_ok(self@, self.prev_index@)
    }

    /// An empty history stored under `root_dir`.
    pub fn new(root_dir: &str) -> (r: Self)
        ensures
            r.wf(),
            r.root_dir@ == root_dir@,
            r@.versions.len() == 0,
            r@.current.len() == 0,
    {
        History {
            root_dir: String::from_str(root_dir),
            versions: Vec::new(),
            current: Vec::new(),
            prev_index: Vec::new(),
        }
    }

    /// Index of the revision with identifier `id`, or the number of revisions.
    fn find_revision(&self, id: &String) -> (r: usize)
        ensures
            r == id_index(self@.versions, id@),
    {
        let ghost vs = self@.versions;
        let mut i: usize = 0;
        while i < self.versions.len() && self.versions[i].id != *id
            invariant
                vs == self@.versions,
                i <= vs.len(),
                forall|j: int| 0 <= j < i ==> (#[trigger] vs[j]).id != id@,
            decreases vs.len() - i,
        {
            i = i + 1;
        }
        proof {
            lemma_id_index_is(vs, id@, i as int);
        }
        i
    }

    /// Whether some revision has identifier `id`.
    pub fn contains_id(&self, id: &String) -> (r: bool)
        ensures
            r == (id_index(self@.versions, id@) < self@.versions.len()),
    {
        self.find_revision(id) < self.versions.len()
    }

    /// Index of the current pointer of `name`, or the number of pointers.
    fn find_current(&self, name: &String) -> (r: usize)
        ensures
            r == name_index(self@.current, name@),
    {
        let ghost cs = self@.current;
        let mut i: usize = 0;
        while i < self.current.len() && self.current[i].name != *name
            invariant
                cs == self@.current,
                i <= cs.len(),
                forall|j: int| 0 <= j < i ==> (#[trigger] cs[j]).0 != name@,
            decreases cs.len() - i,
        {
            i = i + 1;
        }
        proof {
            lemma_name_index_is(cs, name@, i as int);
        }
        i
    }

    /// Appends a revision of `name` with identifier `id`, created at `created`:
    /// a new chain at version 1 if `name` has none, else the successor of its
    /// current revision. Fails, changing nothing, when `id` does not have the
    /// identifier length or is already in use.
    pub fn add_with(&mut self, name: &str, id: String, created: Timestamp) -> (r: Result<
        (),
        HistoryError,
    >)
        requires
            old(self).wf(),
            old(self)@.versions.len() < usize::MAX,
        ensures
            final(self).wf(),
            final(self).root_dir == old(self).root_dir,
            r == Err::<(), HistoryError>(HistoryError::InvalidId) <==> id@.len() != ID_LEN,
            r == Err::<(), HistoryError>(HistoryError::DuplicateId) <==> id@.len() == ID_LEN
                && id_index(old(self)@.versions, id@) < old(self)@.versions.len(),
            r is Ok <==> id@.len() == ID_LEN && id_index(old(self)@.versions, id@) == old(
                self,
            )@.versions.len(),
            r is Err ==> final(self)@ == old(self)@,
            r is Ok ==> appended(old(self)@, final(self)@, name@, id@, created),
    {
        if id.as_str().unicode_len() != ID_LEN as usize {
            return Err(HistoryError::InvalidId);
        }
        if self.find_revision(&id) < self.versions.len() {
            return Err(HistoryError::DuplicateId);
        }
        let ghost h = self@;
        let ghost old_index = self.prev_index@;
        proof {
            lemma_id_index_bounds(h.versions, id@);
        }
        let name_s = String::from_str(name);
        let c = self.find_current(&name_s);
        proof {
            lemma_name_index_bounds(h.current, name@);
        }
        if c == self.current.len() {
            let rev = Revision {
                id: id.clone(),
                name: name_s.clone(),
                version: 1,
                next: None,
                prev: None,
                created,
                comment: String::new(),
                filename: id.clone(),
            };
            self.versions.push(rev);
            self.prev_index.push(0);
            self.current.push(CurrentReference { name: name_s, id });
            assert(self@.versions =~= h.versions.push(fresh_revision(name@, id@, 1, None, created)));
            assert(self@.current =~= h.current.push((name@, id@)));
        } else {
            let t = self.find_revision(&self.current[c].id);
            assert(current_ok(h.versions, h.current, c as int));
            assert(revision_ok(h.versions, h.current, t as int));
            let tip = &self.versions[t];
            let ghost tip_v = h.versions[t as int];
            let updated = Revision {
                id: tip.id.clone(),
                name: tip.name.clone(),
                version: tip.version,
                next: Some(id.clone()),
                prev: clone_opt(&tip.prev),
                created: tip.created,
                comment: tip.comment.clone(),
                filename: tip.filename.clone(),
            };
            let rev = Revision {
                id: id.clone(),
                name: name_s.clone(),
                version: tip.version + 1,
                next: None,
                prev: Some(tip.id.clone()),
                created,
                comment: String::new(),
                filename: id.clone(),
            };
            self.versions.set(t, updated);
            self.versions.push(rev);
            self.prev_index.push(t);
            self.current.set(c, CurrentReference { name: name_s, id });
            assert(self@.versions =~= h.versions.update(
                t as int,
                RevisionView { next: Some(id@), ..tip_v },
            ).push(fresh_revision(name@, id@, tip_v.version + 1, Some(tip_v.id), created)));
            assert(self@.current =~= h.current.update(c as int, (name@, id@)));
        }
        proof {
            lemma_appended_wf(h, self@, name@, id@, created);
            lemma_appended_keeps_index(h, self@, name@, id@, created);
            let vs2 = self@.versions;
            let n = h.versions.len();
            assert forall|i: int|
                0 <= i < vs2.len() && vs2[i].prev is Some implies #[trigger] self.prev_index@[i]
                == id_index(vs2, vs2[i].prev->0) by {
                if i < n {
                    assert(revision_ok(h.versions, h.current, i));
                    assert(vs2[i].prev == h.versions[i].prev);
                    assert(self.prev_index@[i] == old_index[i]);
                    assert(old_index[i] == id_index(h.versions, h.versions[i].prev->0));
                } else {
                    let c = name_index(h.current, name@);
                    lemma_id_index_bounds(h.versions, h.current[c].1);
                }
            }
        }
        Ok(())
    }

    /// Appends a revision of `name` with a fresh random identifier, stamped with
    /// the current time. Fails, changing nothing, only if the drawn identifier
    /// is already in use.
    pub fn add(&mut self, name: &str) -> (r: Result<(), HistoryError>)
        requires
            old(self).wf(),
            old(self)@.versions.len() < usize::MAX,
        ensures
            final(self).wf(),
            final(self).root_dir == old(self).root_dir,
            r is Err ==> r == Err::<(), HistoryError>(HistoryError::DuplicateId),
            r is Err ==> final(self)@ == old(self)@,
            old(self)@.versions.len() == 0 ==> r is Ok,
            r is Ok ==> exists|id: Seq<char>, created: Timestamp|
                fresh_id(old(self)@, id) && appended(old(self)@, final(self)@, name@, id, created),
    {
        let id = generate_random_string(ID_LEN);
        let created = now_utc();
        let ghost idv = id@;
        assert(idv.len() == ID_LEN);
        let r = self.add_with(name, id, created);
        assert(r is Ok ==> fresh_id(old(self)@, idv));
        assert(r != Err::<(), HistoryError>(HistoryError::InvalidId));
        assert(r is Ok ==> appended(old(self)@, self@, name@, idv, created));
        match r {
            Ok(()) => Ok(()),
            Err(_) => Err(HistoryError::DuplicateId),
        }
    }

    /// The newest revision of `name`, if `name` was ever added.
    pub fn resolve_current(&self, name: &str) -> (r: Option<&Revision>)
        requires
            self.wf(),
        ensures
            match r {
                Some(rev) => current_revision(self@, name@) == Some(rev@),
                None => current_revision(self@, name@) is None,
            },
    {
        let c = self.find_current(&String::from_str(name));
        proof {
            lemma_name_index_bounds(self@.current, name@);
        }
        if c == self.current.len() {
            return None;
        }
        let t = self.find_revision(&self.current[c].id);
        assert(current_ok(self@.versions, self@.current, c as int));
        Some(&self.versions[t])
    }

    /// The revision of `name` with version number `version`: found by walking
    /// `prev` links back from the current revision. There is one exactly when
    /// `name` was added and `1 <= version <=` its current version.
    pub fn resolve_at_version(&self, name: &str, version: usize) -> (r: Option<&Revision>)
        requires
            self.wf(),
        ensures
            r is Some <==> (current_revision(self@, name@) is Some && 1 <= version
                <= current_revision(self@, name@)->0.version),
            r matches Some(rev) ==> rev@.name == name@ && rev@.version == version
                && self@.versions.contains(rev@),
    {
        let ghost h = self@;
        let c = self.find_current(&String::from_str(name));
        proof {
            lemma_name_index_bounds(h.current, name@);
        }
        if c == self.current.len() {
            return None;
        }
        let mut i = self.find_revision(&self.current[c].id);
        assert(current_ok(h.versions, h.current, c as int));
        let ghost top = h.versions[i as int].version;
        loop
            invariant
                h == self@,
                chain_wf(h),
                links_ok(h, self.prev_index@),
                current_revision(h, name@) == Some(h.versions[id_index(h.versions, h.current[c as int].1)]),
                top == current_revision(h, name@)->0.version,
                0 <= i < h.versions.len(),
                h.versions[i as int].name == name@,
                h.versions[i as int].version <= top,
                version > h.versions[i as int].version ==> version > top,
            decreases h.versions[i as int].version,
        {
            assert(revision_ok(h.versions, h.current, i as int));
            if self.versions[i].version == version {
                assert(h.versions[i as int] == self.versions@[i as int]@);
                return Some(&self.versions[i]);
            }
            match &self.versions[i].prev {
                None => {
                    return None;
                },
                Some(p) => {
                    assert(self.prev_index@[i as int] == id_index(h.versions, h.versions[i as int].prev->0));
                    i = self.prev_index[i];
                },
            }
        }
    }

    /// `root_dir/ab/abcdef...` for a revision whose file name starts with `ab`.
    fn to_full_path(&self, rev: &Revision) -> (r: String)
        requires
            rev.filename@.len() >= 2,
        ensures
            r@ == storage_path(self.root_dir@, rev.filename@),
    {
        let f = chars_of(rev.filename.as_str());
        let mut p = self.root_dir.clone();
        push_char(&mut p, '/');
        push_char(&mut p, f[0]);
        push_char(&mut p, f[1]);
        push_char(&mut p, '/');
        p.append(rev.filename.as_str());
        assert(p@ =~= storage_path(self.root_dir@, rev.filename@));
        p
    }

    /// Where the current revision of `name` is stored, if `name` was ever added.
    pub fn get_file_path_by_name(&self, name: &str) -> (r: Option<String>)
        requires
            self.wf(),
        ensures
            match current_revision(self@, name@) {
                Some(rev) => r matches Some(p) && p@ == storage_path(self.root_dir@, rev.filename),
                None => r is None,
            },
    {
        match self.resolve_current(name) {
            Some(rev) => {
                proof {
                    lemma_name_index_bounds(self@.current, name@);
                    let c = name_index(self@.current, name@);
                    assert(current_ok(self@.versions, self@.current, c));
                    assert(revision_ok(self@.versions, self@.current, id_index(self@.versions, self@.current[c].1)));
                }
                Some(self.to_full_path(rev))
            },
            None => None,
        }
    }

    /// Where revision `version` of `name` is stored, if it exists.
    pub fn get_file_path_by_version(&self, name: &str, version: usize) -> (r: Option<String>)
        requires
            self.wf(),
        ensures
            r is Some <==> (current_revision(self@, name@) is Some && 1 <= version
                <= current_revision(self@, name@)->0.version),
            r matches Some(p) ==> exists|rev: RevisionView|
                self@.versions.contains(rev) && rev.name == name@ && rev.version == version
                    && p@ == storage_path(self.root_dir@, rev.filename),
    {
        match self.resolve_at_version(name, version) {
            Some(rev) => {
                proof {
                    let k = choose|k: int| 0 <= k < self@.versions.len() && self@.versions[k] == rev@;
                    assert(revision_ok(self@.versions, self@.current, k));
                }
                let p = self.to_full_path(rev);
                assert(self@.versions.contains(rev@));
                Some(p)
            },
            None => None,
        }
    }
}

/// An append leaves every earlier identifier where it was.
proof fn lemma_appended_keeps_index(
    h: HistoryView,
    h2: HistoryView,
    name: Seq<char>,
    id: Seq<char>,
    created: Timestamp,
)
    requires
        chain_wf(h),
        id_index(h.versions, id) == h.versions.len(),
        appended(h, h2, name, id, created),
    ensures
        forall|k: Seq<char>|
            id_index(h.versions, k) < h.versions.len() ==> #[trigger] id_index(h2.versions, k)
                == id_index(h.versions, k),
{
    let vs = h.versions;
    let cs = h.current;
    lemma_name_index_bounds(cs, name);
    let c = name_index(cs, name);
    if c < cs.len() {
        assert(current_ok(vs, cs, c));
        let t = id_index(vs, cs[c].1);
        let tip = vs[t];
        let vs1 = vs.update(t, RevisionView { next: Some(id), ..tip });
        let x = fresh_revision(name, id, tip.version + 1, Some(tip.id), created);
        assert(h2.versions == vs1.push(x));
        assert forall|k: Seq<char>| id_index(vs, k) < vs.len() implies #[trigger] id_index(
            h2.versions,
            k,
        ) == id_index(vs, k) by {
            lemma_id_index_same_ids(vs, vs1, k);
            lemma_id_index_push(vs1, x, k);
        }
    } else {
        let x = fresh_revision(name, id, 1, None, created);
        assert forall|k: Seq<char>| id_index(vs, k) < vs.len() implies #[trigger] id_index(
            h2.versions,
            k,
        ) == id_index(vs, k) by {
            lemma_id_index_push(vs, x, k);
        }
    }
}

/// After an append of `name` with identifier `id`, the current revision of
/// `name` is the new one. For a name never added before it has version 1 and no
/// `prev`; otherwise its version is one above the old current version, its
/// `prev` is the old current identifier, and the old current revision's `next`
/// is now `id`.
pub proof fn lemma_add_then_resolve(
    h: HistoryView,
    h2: HistoryView,
    name: Seq<char>,
    id: Seq<char>,
    created: Timestamp,
)
    requires
        chain_wf(h),
        id.len() == ID_LEN,
        id_index(h.versions, id) == h.versions.len(),
        appended(h, h2, name, id, created),
    ensures
        current_revision(h2, name) is Some,
        current_revision(h2, name)->0.id == id,
        current_revision(h2, name)->0.name == name,
        current_revision(h, name) is None ==> current_revision(h2, name)->0.version == 1
            && current_revision(h2, name)->0.prev is None,
        current_revision(h, name) is Some ==> {
            let before = current_revision(h, name)->0;
            let after = current_revision(h2, name)->0;
            &&& after.version == before.version + 1
            &&& after.prev == Some(before.id)
            &&& h2.versions[id_index(h2.versions, before.id)].id == before.id
            &&& h2.versions[id_index(h2.versions, before.id)].next == Some(id)
        },
{
    let vs = h.versions;
    let cs = h.current;
    let n = vs.len();
    lemma_id_index_bounds(vs, id);
    lemma_name_index_bounds(cs, name);
    let c = name_index(cs, name);
    if c < cs.len() {
        assert(current_ok(vs, cs, c));
        let t = id_index(vs, cs[c].1);
        let tip = vs[t];
        let vs1 = vs.update(t, RevisionView { next: Some(id), ..tip });
        let x = fresh_revision(name, id, tip.version + 1, Some(tip.id), created);
        lemma_id_index_same_ids(vs, vs1, id);
        lemma_id_index_push(vs1, x, id);
        lemma_id_index_bounds(vs, cs[c].1);
        lemma_id_index_of_member(vs, t);
        lemma_id_index_same_ids(vs, vs1, tip.id);
        lemma_id_index_push(vs1, x, tip.id);
        lemma_name_index_same_names(cs, h2.current, name);
        assert(h2.current[c] == (name, id));
    } else {
        let x = fresh_revision(name, id, 1, None, created);
        lemma_id_index_push(vs, x, id);
        lemma_name_index_push(cs, (name, id), name);
    }
}

fn opt_is(o: &Option<String>, s: &String) -> (r: bool)
    ensures
        r == (opt_view(*o) == Some(s@)),
{
    match o {
        Some(x) => *x == *s,
        None => false,
    }
}

impl History {
    /// Whether the revision at index `i` keeps its promises (see `revision_ok`).
    fn check_revision(&self, i: usize) -> (r: bool)
        requires
            i < self.versions@.len(),
        ensures
            r == revision_ok(self@.versions, self@.current, i as int),
    {
        let ghost vs = self@.versions;
        let ghost cs = self@.current;
        let n = self.versions.len();
        let rev = &self.versions[i];
        assert(vs[i as int] == rev@);
        if rev.id.as_str().unicode_len() != ID_LEN as usize {
            return false;
        }
        if rev.filename != rev.id {
            return false;
        }
        if rev.version < 1 || rev.version > n {
            return false;
        }
        match &rev.prev {
            None => {
                if rev.version != 1 {
                    return false;
                }
            },
            Some(p) => {
                if rev.version == 1 {
                    return false;
                }
                let j = self.find_revision(p);
                if j >= n {
                    return false;
                }
                let t = &self.versions[j];
                assert(vs[j as int] == t@);
                if t.name != rev.name || t.version != rev.version - 1 || !opt_is(&t.next, &rev.id) {
                    return false;
                }
            },
        }
        match &rev.next {
            None => {},
            Some(x) => {
                let j = self.find_revision(x);
                if j >= n {
                    return false;
                }
                let t = &self.versions[j];
                assert(vs[j as int] == t@);
                if t.name != rev.name || t.version == 0 || t.version - 1 != rev.version || !opt_is(
                    &t.prev,
                    &rev.id,
                ) {
                    return false;
                }
            },
        }
        self.find_current(&rev.name) < self.current.len()
    }

    /// Whether the current pointer at index `a` names a tip of its name.
    fn check_current(&self, a: usize) -> (r: bool)
        requires
            a < self.current@.len(),
        ensures
            r == current_ok(self@.versions, self@.current, a as int),
    {
        let j = self.find_revision(&self.current[a].id);
        if j >= self.versions.len() {
            return false;
        }
        assert(self@.versions[j as int] == self.versions@[j as int]@);
        self.versions[j].name == self.current[a].name && self.versions[j].next.is_none()
    }

    /// Whether the tables keep the chain invariants.
    pub fn is_well_formed(&self) -> (r: bool)
        ensures
            r == chain_wf(self@),
    {
        let ghost vs = self@.versions;
        let ghost cs = self@.current;
        let mut i: usize = 0;
        while i < self.versions.len()
            invariant
                vs == self@.versions,
                cs == self@.current,
                i <= vs.len(),
                forall|k: int| 0 <= k < i ==> id_index(vs, (#[trigger] vs[k]).id) == k,
                forall|k: int| 0 <= k < i ==> #[trigger] revision_ok(vs, cs, k),
            decreases vs.len() - i,
        {
            assert(vs[i as int] == self.versions@[i as int]@);
            if self.find_revision(&self.versions[i].id) != i {
                proof {
                    let id = vs[i as int].id;
                    lemma_id_index_bounds(vs, id);
                    let f = id_index(vs, id);
                    assert(f < i);
                    assert(vs[f].id == vs[i as int].id);
                }
                return false;
            }
            if !self.check_revision(i) {
                return false;
            }
            i = i + 1;
        }
        let mut a: usize = 0;
        while a < self.current.len()
            invariant
                vs == self@.versions,
                cs == self@.current,
                a <= cs.len(),
                forall|k: int| 0 <= k < vs.len() ==> id_index(vs, (#[trigger] vs[k]).id) == k,
                forall|k: int| 0 <= k < vs.len() ==> #[trigger] revision_ok(vs, cs, k),
                forall|k: int| 0 <= k < a ==> name_index(cs, (#[trigger] cs[k]).0) == k,
                forall|k: int| 0 <= k < a ==> #[trigger] current_ok(vs, cs, k),
            decreases cs.len() - a,
        {
            assert(cs[a as int] == (self.current@[a as int].name@, self.current@[a as int].id@));
            if self.find_current(&self.current[a].name) != a {
                proof {
                    let nm = cs[a as int].0;
                    lemma_name_index_bounds(cs, nm);
                    let f = name_index(cs, nm);
                    assert(f < a);
                    assert(cs[f].0 == cs[a as int].0);
                }
                return false;
            }
            if !self.check_current(a) {
                return false;
            }
            a = a + 1;
        }
        assert forall|x: int, y: int|
            0 <= x < vs.len() && 0 <= y < vs.len() && #[trigger] vs[x].id == #[trigger] vs[y].id
                implies x == y by {
            assert(id_index(vs, vs[x].id) == x);
            assert(id_index(vs, vs[y].id) == y);
        }
        assert forall|x: int, y: int|
            0 <= x < cs.len() && 0 <= y < cs.len() && #[trigger] cs[x].0 == #[trigger] cs[y].0
                implies x == y by {
            assert(name_index(cs, cs[x].0) == x);
            assert(name_index(cs, cs[y].0) == y);
        }
        true
    }

    /// A history made of loaded tables; `Malformed` when they break the chain
    /// invariants.
    pub fn from_tables(root_dir: String, versions: Vec<Revision>, current: Vec<CurrentReference>) -> (r:
        Result<History, HistoryError>)
        ensures
            match r {
                Ok(h) => h.wf() && h.root_dir == root_dir && h.versions == versions && h.current
                    == current,
                Err(e) => e == HistoryError::Malformed && !chain_wf(tables_view(versions@, current@)),
            },
    {
        let mut h = History { root_dir, versions, current, prev_index: Vec::new() };
        if !h.is_well_formed() {
            return Err(HistoryError::Malformed);
        }
        let ghost vs = h@.versions;
        let mut index: Vec<usize> = Vec::new();
        let mut i: usize = 0;
        while i < h.versions.len()
            invariant
                vs == h@.versions,
                i <= vs.len(),
                index@.len() == i,
                forall|j: int|
                    0 <= j < i && vs[j].prev is Some ==> #[trigger] index@[j] == id_index(
                        vs,
                        vs[j].prev->0,
                    ),
            decreases vs.len() - i,
        {
            assert(vs[i as int] == h.versions@[i as int]@);
            match &h.versions[i].prev {
                Some(p) => {
                    let k = h.find_revision(p);
                    index.push(k);
                },
                None => {
                    index.push(0);
                },
            }
            i = i + 1;
        }
        h.prev_index = index;
        Ok(h)
    }
}

} // verus!
