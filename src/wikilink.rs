//! Wiki links: parsing `[[namespace:]Kind:]name[?k=v&...][#fragment]` and
//! rendering a link back to its canonical text.
use vstd::prelude::*;
use vstd::utf8::encode_utf8;
use crate::text::{
    chars_equal, chars_of, contains_char, find_char, index_of, join, lemma_index_of_absent,
    lemma_index_of_bounds, lemma_split_absent, lemma_split_nonempty,
    lemma_split_prefix, push_char, push_joined, range_equals, slice_chars, split, split_range,
    string_of, views,
};

verus! {

pub const DEFAULT_NAMESPACE: &'static str = "Main";

pub const DEFAULT_NAME: &'static str = "Main";

pub open spec fn default_namespace() -> Seq<char> {
    seq!['M', 'a', 'i', 'n']
}

pub open spec fn default_name() -> Seq<char> {
    seq!['M', 'a', 'i', 'n']
}

#[derive(Clone, Copy, Debug, PartialEq, Eq, Structural)]
pub enum WikiType {
    Page,
    File,
    Category,
    Special,
}

/// The text form of each kind; parser and formatter both go through it.
pub open spec fn kind_name(k: WikiType) -> Seq<char> {
    match k {
        WikiType::Page => seq!['P', 'a', 'g', 'e'],
        WikiType::File => seq!['F', 'i', 'l', 'e'],
        WikiType::Category => seq!['C', 'a', 't', 'e', 'g', 'o', 'r', 'y'],
        WikiType::Special => seq!['S', 'p', 'e', 'c', 'i', 'a', 'l'],
    }
}

/// The kind whose text form is `t`, if any.
pub open spec fn kind_of(t: Seq<char>) -> Option<WikiType> {
    if t == kind_name(WikiType::Page) {
        Some(WikiType::Page)
    } else if t == kind_name(WikiType::File) {
        Some(WikiType::File)
    } else if t == kind_name(WikiType::Category) {
        Some(WikiType::Category)
    } else if t == kind_name(WikiType::Special) {
        Some(WikiType::Special)
    } else {
        None
    }
}

pub proof fn lemma_kind_of_name(k: WikiType)
    ensures
        kind_of(kind_name(k)) == Some(k),
        !contains_char(kind_name(k), ':'),
        !contains_char(kind_name(k), '?'),
        !contains_char(kind_name(k), '#'),
{
    let n = kind_name(k);
    assert(kind_name(WikiType::Page) != kind_name(WikiType::File)) by {
        assert(kind_name(WikiType::Page)[0] != kind_name(WikiType::File)[0]);
    }
    assert(kind_name(WikiType::Page).len() != kind_name(WikiType::Category).len());
    assert(kind_name(WikiType::Page).len() != kind_name(WikiType::Special).len());
    assert(kind_name(WikiType::File).len() != kind_name(WikiType::Category).len());
    assert(kind_name(WikiType::File).len() != kind_name(WikiType::Special).len());
    assert(kind_name(WikiType::Category).len() != kind_name(WikiType::Special).len());
    assert forall|j: int| 0 <= j < n.len() implies n[j] != ':' && n[j] != '?' && n[j] != '#' by {
        match k {
            WikiType::Page => {},
            WikiType::File => {},
            WikiType::Category => {},
            WikiType::Special => {},
        }
    }
}

impl WikiType {
    /// The text form of this kind.
    fn name_chars(&self) -> (r: Vec<char>)
        ensures
            r@ == kind_name(*self),
    {
        match self {
            WikiType::Page => vec!['P', 'a', 'g', 'e'],
            WikiType::File => vec!['F', 'i', 'l', 'e'],
            WikiType::Category => vec!['C', 'a', 't', 'e', 'g', 'o', 'r', 'y'],
            WikiType::Special => vec!['S', 'p', 'e', 'c', 'i', 'a', 'l'],
        }
    }

    /// The text form of this kind (`"Page"`, `"File"`, `"Category"`, `"Special"`).
    pub fn to_string(&self) -> (r: String)
        ensures
            r@ == kind_name(*self),
    {
        let v = self.name_chars();
        string_of(&v, 0, v.len())
    }

    /// The kind named by `s`; `Err` when `s` names none.
    pub fn from_str(s: &str) -> (r: Result<WikiType, ()>)
        ensures
            r == (match kind_of(s@) {
                Some(k) => Ok::<WikiType, ()>(k),
                None => Err(()),
            }),
    {
        let v = chars_of(s);
        match kind_of_range(&v, 0, v.len()) {
            Some(k) => {
                assert(v@.subrange(0, v@.len() as int) =~= s@);
                Ok(k)
            },
            None => {
                assert(v@.subrange(0, v@.len() as int) =~= s@);
                Err(())
            },
        }
    }
}

impl Default for WikiType {
    fn default() -> (r: Self)
        ensures
            r == WikiType::Page,
    {
        WikiType::Page
    }
}

/// The kind named by `v[lo..hi]`, if any.
fn kind_of_range(v: &Vec<char>, lo: usize, hi: usize) -> (r: Option<WikiType>)
    requires
        lo <= hi <= v@.len(),
    ensures
        r == kind_of(v@.subrange(lo as int, hi as int)),
{
    if range_equals(v, lo, hi, &WikiType::Page.name_chars()) {
        Some(WikiType::Page)
    } else if range_equals(v, lo, hi, &WikiType::File.name_chars()) {
        Some(WikiType::File)
    } else if range_equals(v, lo, hi, &WikiType::Category.name_chars()) {
        Some(WikiType::Category)
    } else if range_equals(v, lo, hi, &WikiType::Special.name_chars()) {
        Some(WikiType::Special)
    } else {
        None
    }
}

/// Index of the first token that names a kind, or `ts.len()` when none does.
pub open spec fn first_kind(ts: Seq<Seq<char>>) -> int
    decreases ts.len(),
{
    if ts.len() == 0 {
        0
    } else if kind_of(ts[0]) is Some {
        0
    } else {
        1 + first_kind(ts.drop_first())
    }
}

pub proof fn lemma_first_kind_is(ts: Seq<Seq<char>>, r: int)
    requires
        0 <= r <= ts.len(),
        r < ts.len() ==> kind_of(ts[r]) is Some,
        forall|j: int| 0 <= j < r ==> kind_of(#[trigger] ts[j]) is None,
    ensures
        first_kind(ts) == r,
    decreases ts.len(),
{
    if ts.len() > 0 && r > 0 {
        assert(kind_of(ts[0]) is None);
        assert forall|j: int| 0 <= j < r - 1 implies kind_of(#[trigger] ts.drop_first()[j]) is None by {
            assert(ts.drop_first()[j] == ts[j + 1]);
        }
        lemma_first_kind_is(ts.drop_first(), r - 1);
    }
}

/// Namespace, kind and name that the colon-separated tokens of a link's base denote.
pub open spec fn base_of_tokens(ts: Seq<Seq<char>>) -> (Seq<char>, WikiType, Seq<char>) {
    if ts.len() <= 1 {
        if ts.len() == 0 || ts[0].len() == 0 {
            (default_namespace(), WikiType::Page, default_name())
        } else {
            match kind_of(ts[0]) {
                Some(k) => (default_namespace(), k, default_name()),
                None => (default_namespace(), WikiType::Page, ts[0]),
            }
        }
    } else if ts.len() == 2 {
        match (kind_of(ts[0]), kind_of(ts[1])) {
            (Some(k), _) => (default_namespace(), k, ts[1]),
            (None, Some(k)) => (ts[0], k, default_name()),
            (None, None) => (ts[0], WikiType::Page, ts[1]),
        }
    } else {
        let i = first_kind(ts);
        if i >= ts.len() {
            (ts[0], WikiType::Page, join(ts.subrange(1, ts.len() as int), ':'))
        } else {
            let k = match kind_of(ts[i]) {
                Some(k) => k,
                None => WikiType::Page,
            };
            let ns = if i == 0 {
                default_namespace()
            } else {
                join(ts.subrange(0, i), ':')
            };
            let name = if i + 1 == ts.len() {
                default_name()
            } else {
                join(ts.subrange(i + 1, ts.len() as int), ':')
            };
            (ns, k, name)
        }
    }
}

/// The key of a query entry: what precedes its first `=`.
pub open spec fn entry_key(e: Seq<char>) -> Seq<char> {
    e.subrange(0, index_of(e, '='))
}

/// The value of a query entry: what follows its first `=`, or nothing.
pub open spec fn entry_value(e: Seq<char>) -> Seq<char> {
    let i = index_of(e, '=');
    if 0 <= i < e.len() {
        e.subrange(i + 1, e.len() as int)
    } else {
        Seq::empty()
    }
}

/// The query map of `&`-separated entries, read left to right: an entry with an
/// empty key is dropped, and a later entry replaces an earlier one with the same key.
pub open spec fn query_map(es: Seq<Seq<char>>) -> Map<Seq<char>, Seq<char>>
    decreases es.len(),
{
    if es.len() == 0 {
        Map::empty()
    } else {
        let m = query_map(es.drop_last());
        let e = es.last();
        if entry_key(e).len() == 0 {
            m
        } else {
            m.insert(entry_key(e), entry_value(e))
        }
    }
}

/// The mathematical value of a link.
pub struct WikiLinkView {
    pub namespace: Seq<char>,
    pub wiki_type: WikiType,
    pub name: Seq<char>,
    pub queries: Map<Seq<char>, Seq<char>>,
    pub fragment: Option<Seq<char>>,
}

impl WikiLinkView {
    /// The base text of this link.
    pub open spec fn base_text(self) -> Seq<char> {
        base_text(self.namespace, self.wiki_type, self.name)
    }
}

/// The link that the text `s` denotes.
pub open spec fn parse_spec(s: Seq<char>) -> WikiLinkView {
    let h = index_of(s, '#');
    let pre = s.subrange(0, h);
    let q = index_of(pre, '?');
    let base = base_of_tokens(split(pre.subrange(0, q), ':'));
    WikiLinkView {
        namespace: base.0,
        wiki_type: base.1,
        name: base.2,
        queries: if 0 <= q < pre.len() {
            query_map(split(pre.subrange(q + 1, pre.len() as int), '&'))
        } else {
            Map::empty()
        },
        fragment: if 0 <= h < s.len() {
            Some(s.subrange(h + 1, s.len() as int))
        } else {
            None
        },
    }
}

/// Strict order of character sequences by code point, which is also the byte
/// order of their UTF-8 encodings.
pub open spec fn lex_lt(a: Seq<char>, b: Seq<char>) -> bool
    decreases a.len(),
{
    if a.len() == 0 {
        b.len() > 0
    } else if b.len() == 0 {
        false
    } else if a[0] != b[0] {
        a[0] < b[0]
    } else {
        lex_lt(a.drop_first(), b.drop_first())
    }
}

pub proof fn lemma_lex_irreflexive(a: Seq<char>)
    ensures
        !lex_lt(a, a),
    decreases a.len(),
{
    if a.len() > 0 {
        lemma_lex_irreflexive(a.drop_first());
    }
}

pub proof fn lemma_lex_transitive(a: Seq<char>, b: Seq<char>, c: Seq<char>)
    requires
        lex_lt(a, b),
        lex_lt(b, c),
    ensures
        lex_lt(a, c),
    decreases a.len(),
{
    if a.len() > 0 && b.len() > 0 && c.len() > 0 && a[0] == b[0] && b[0] == c[0] {
        lemma_lex_transitive(a.drop_first(), b.drop_first(), c.drop_first());
    }
}

pub proof fn lemma_lex_total(a: Seq<char>, b: Seq<char>)
    requires
        a != b,
        !lex_lt(a, b),
    ensures
        lex_lt(b, a),
    decreases a.len(),
{
    if a.len() > 0 && b.len() > 0 && a[0] == b[0] {
        if a.drop_first() == b.drop_first() {
            assert(a =~= seq![a[0]] + a.drop_first());
            assert(b =~= seq![b[0]] + b.drop_first());
        }
        lemma_lex_total(a.drop_first(), b.drop_first());
    } else if a.len() == 0 && b.len() == 0 {
        assert(a =~= b);
    }
}

/// Query entries with strictly increasing keys.
pub open spec fn sorted_entries(es: Seq<(Seq<char>, Seq<char>)>) -> bool {
    forall|i: int, j: int| 0 <= i < j < es.len() ==> lex_lt(#[trigger] es[i].0, #[trigger] es[j].0)
}

/// The map that a list of entries denotes (a later key replaces an earlier one).
pub open spec fn entries_map(es: Seq<(Seq<char>, Seq<char>)>) -> Map<Seq<char>, Seq<char>>
    decreases es.len(),
{
    if es.len() == 0 {
        Map::empty()
    } else {
        entries_map(es.drop_last()).insert(es.last().0, es.last().1)
    }
}

/// With sorted keys, the map holds exactly the listed keys, each with its value.
pub proof fn lemma_entries_map(es: Seq<(Seq<char>, Seq<char>)>)
    requires
        sorted_entries(es),
    ensures
        forall|k: Seq<char>|
            entries_map(es).contains_key(k) <==> exists|i: int| 0 <= i < es.len() && es[i].0 == k,
        forall|i: int| 0 <= i < es.len() ==> entries_map(es)[#[trigger] es[i].0] == es[i].1,
    decreases es.len(),
{
    if es.len() > 0 {
        let d = es.drop_last();
        assert forall|i: int, j: int| 0 <= i < j < d.len() implies lex_lt(#[trigger] d[i].0, #[trigger] d[j].0) by {
            assert(d[i] == es[i] && d[j] == es[j]);
        }
        lemma_entries_map(d);
        let n = es.len() - 1;
        assert forall|k: Seq<char>|
            entries_map(es).contains_key(k) <==> exists|i: int| 0 <= i < es.len() && es[i].0 == k by {
            if entries_map(d).contains_key(k) {
                let i = choose|i: int| 0 <= i < d.len() && d[i].0 == k;
                assert(es[i].0 == k);
            }
            if exists|i: int| 0 <= i < es.len() && es[i].0 == k {
                let i = choose|i: int| 0 <= i < es.len() && es[i].0 == k;
                if i < n {
                    assert(d[i].0 == k);
                }
            }
        }
        assert forall|i: int| 0 <= i < es.len() implies entries_map(es)[#[trigger] es[i].0] == es[i].1 by {
            if i < n {
                assert(lex_lt(es[i].0, es[n].0));
                lemma_lex_irreflexive(es[i].0);
                assert(d[i] == es[i]);
            }
        }
    }
}

/// The upper-case hex digit of `d`, for `d < 16`.
pub open spec fn hex_upper(d: u8) -> char {
    if d < 10 {
        (('0' as u8) + d) as char
    } else {
        (('A' as u8) + d - 10) as char
    }
}

pub open spec fn is_ascii_alphanumeric(b: u8) -> bool {
    (0x30 <= b <= 0x39) || (0x41 <= b <= 0x5a) || (0x61 <= b <= 0x7a)
}

/// One byte of percent-encoded output: kept if an ASCII letter or digit.
pub open spec fn percent_byte(b: u8) -> Seq<char> {
    if is_ascii_alphanumeric(b) {
        seq![b as char]
    } else {
        seq!['%', hex_upper(b / 16), hex_upper(b % 16)]
    }
}

pub open spec fn percent_bytes(bs: Seq<u8>) -> Seq<char>
    decreases bs.len(),
{
    if bs.len() == 0 {
        Seq::empty()
    } else {
        percent_bytes(bs.drop_last()) + percent_byte(bs.last())
    }
}

/// `s` percent-encoded: every UTF-8 byte but ASCII letters and digits escaped.
pub open spec fn percent_encoded(s: Seq<char>) -> Seq<char> {
    percent_bytes(encode_utf8(s))
}

/// Relies on `percent_encoding::utf8_percent_encode` with `NON_ALPHANUMERIC`:
/// each UTF-8 byte of the input that is not an ASCII letter or digit becomes
/// `%` and two upper-case hex digits; the others are kept.
#[verifier::external_body]
fn utf8_encode(input: &str) -> (r: String)
    ensures
        r@ == percent_encoded(input@),
{
    percent_encoding::utf8_percent_encode(input, percent_encoding::NON_ALPHANUMERIC).to_string()
}

pub open spec fn mode_key() -> Seq<char> {
    seq!['m', 'o', 'd', 'e']
}

pub open spec fn read_value() -> Seq<char> {
    seq!['r', 'e', 'a', 'd']
}

/// The `key=value` items of a link's text, in entry order, `mode=read` left out.
pub open spec fn query_items(es: Seq<(Seq<char>, Seq<char>)>) -> Seq<Seq<char>>
    decreases es.len(),
{
    if es.len() == 0 {
        Seq::empty()
    } else {
        let rest = query_items(es.drop_last());
        let e = es.last();
        if e.0 == mode_key() && e.1 == read_value() {
            rest
        } else {
            rest.push(percent_encoded(e.0) + seq!['='] + percent_encoded(e.1))
        }
    }
}

/// The base of a link's text: `[namespace:][Kind:]name`, the namespace left out
/// when it is the default one and the kind when it is `Page`.
pub open spec fn base_text(ns: Seq<char>, k: WikiType, name: Seq<char>) -> Seq<char> {
    let b = if k != WikiType::Page {
        kind_name(k) + seq![':'] + name
    } else {
        name
    };
    if ns != default_namespace() {
        ns + seq![':'] + b
    } else {
        b
    }
}

/// The canonical text of a link: base, then `?` and the items joined by `&` if
/// there are any, then `#` and the encoded fragment if there is one.
pub open spec fn href_text(
    base: Seq<char>,
    es: Seq<(Seq<char>, Seq<char>)>,
    fragment: Option<Seq<char>>,
) -> Seq<char> {
    let items = query_items(es);
    let with_queries = if items.len() > 0 {
        base + seq!['?'] + join(items, '&')
    } else {
        base
    };
    match fragment {
        Some(f) => with_queries + seq!['#'] + percent_encoded(f),
        None => with_queries,
    }
}

/// Compares `a[i..]` with `b[i..]` in the order of `lex_lt`.
fn lex_less_from(a: &Vec<char>, b: &Vec<char>, i: usize) -> (r: bool)
    requires
        i <= a@.len(),
        i <= b@.len(),
    ensures
        r == lex_lt(a@.subrange(i as int, a@.len() as int), b@.subrange(i as int, b@.len() as int)),
    decreases a@.len() - i,
{
    let ghost sa = a@.subrange(i as int, a@.len() as int);
    let ghost sb = b@.subrange(i as int, b@.len() as int);
    if i == a.len() {
        i < b.len()
    } else if i == b.len() {
        false
    } else if a[i] != b[i] {
        assert(sa[0] == a@[i as int] && sb[0] == b@[i as int]);
        a[i] < b[i]
    } else {
        assert(sa.drop_first() =~= a@.subrange(i + 1, a@.len() as int));
        assert(sb.drop_first() =~= b@.subrange(i + 1, b@.len() as int));
        lex_less_from(a, b, i + 1)
    }
}

/// Whether `a` comes strictly before `b` in the order of `lex_lt`.
fn lex_less(a: &Vec<char>, b: &Vec<char>) -> (r: bool)
    ensures
        r == lex_lt(a@, b@),
{
    assert(a@.subrange(0, a@.len() as int) =~= a@);
    assert(b@.subrange(0, b@.len() as int) =~= b@);
    lex_less_from(a, b, 0)
}

/// The character sequences of a list of query entries.
pub open spec fn entries_of(qs: Seq<(Vec<char>, Vec<char>)>) -> Seq<(Seq<char>, Seq<char>)> {
    qs.map_values(|p: (Vec<char>, Vec<char>)| (p.0@, p.1@))
}

/// Sets `k` to `v` in a list of entries kept sorted by key.
fn insert_entry(qs: &mut Vec<(Vec<char>, Vec<char>)>, k: Vec<char>, v: Vec<char>)
    requires
        sorted_entries(entries_of(old(qs)@)),
    ensures
        sorted_entries(entries_of(final(qs)@)),
        entries_map(entries_of(final(qs)@)) == entries_map(entries_of(old(qs)@)).insert(k@, v@),
        old(qs)@.len() == 0 ==> entries_of(final(qs)@) == seq![(k@, v@)],
{
    let ghost old_es = entries_of(qs@);
    let mut i: usize = 0;
    while i < qs.len() && lex_less(&qs[i].0, &k)
        invariant
            i <= qs@.len(),
            qs@ == old(qs)@,
            old_es == entries_of(qs@),
            forall|j: int| 0 <= j < i ==> lex_lt(#[trigger] old_es[j].0, k@),
        decreases qs@.len() - i,
    {
        i = i + 1;
    }
    proof {
        lemma_entries_map(old_es);
    }
    let ghost kv = (k@, v@);
    if i < qs.len() && chars_equal(&qs[i].0, &k) {
        assert(old_es[i as int].0 == k@);
        qs.remove(i);
        qs.insert(i, (k, v));
        let ghost es = entries_of(qs@);
        assert(es =~= old_es.update(i as int, kv));
        assert(forall|j: int| 0 <= j < es.len() ==> es[j].0 == old_es[j].0);
        assert(sorted_entries(es)) by {
            assert forall|a: int, b: int| 0 <= a < b < es.len() implies lex_lt(#[trigger] es[a].0, #[trigger] es[b].0) by {
                assert(es[a].0 == old_es[a].0 && es[b].0 == old_es[b].0);
            }
        }
        proof {
            lemma_entries_map(es);
            let want = entries_map(old_es).insert(k@, v@);
            assert forall|x: Seq<char>| entries_map(es).contains_key(x) <==> want.contains_key(x) by {
                if exists|j: int| 0 <= j < es.len() && es[j].0 == x {
                    let j = choose|j: int| 0 <= j < es.len() && es[j].0 == x;
                    assert(old_es[j].0 == x);
                }
                if exists|j: int| 0 <= j < old_es.len() && old_es[j].0 == x {
                    let j = choose|j: int| 0 <= j < old_es.len() && old_es[j].0 == x;
                    assert(es[j].0 == x);
                }
            }
            assert forall|x: Seq<char>| entries_map(es).contains_key(x) implies entries_map(es)[x] == want[x] by {
                let j = choose|j: int| 0 <= j < es.len() && es[j].0 == x;
                assert(entries_map(es)[es[j].0] == es[j].1);
                if j != i {
                    assert(old_es[j] == es[j]);
                    lemma_lex_irreflexive(k@);
                    if j < i {
                        assert(lex_lt(old_es[j].0, old_es[i as int].0));
                    } else {
                        assert(lex_lt(old_es[i as int].0, old_es[j].0));
                    }
                    assert(entries_map(old_es)[old_es[j].0] == old_es[j].1);
                }
            }
            assert(entries_map(es) =~= want);
        }
    } else {
        qs.insert(i, (k, v));
        let ghost es = entries_of(qs@);
        assert(es =~= old_es.insert(i as int, kv));
        assert(old_es.len() == 0 ==> es =~= seq![kv]);
        proof {
            if i < old_es.len() {
                assert(old_es[i as int].0 != k@);
                lemma_lex_total(old_es[i as int].0, k@);
            }
        }
        assert(sorted_entries(es)) by {
            assert forall|a: int, b: int| 0 <= a < b < es.len() implies lex_lt(#[trigger] es[a].0, #[trigger] es[b].0) by {
                if b < i {
                    assert(es[a] == old_es[a] && es[b] == old_es[b]);
                } else if b == i {
                    assert(es[a] == old_es[a]);
                } else if a == i {
                    assert(es[b] == old_es[b - 1]);
                    if b - 1 > i {
                        lemma_lex_transitive(k@, old_es[i as int].0, old_es[b - 1].0);
                    }
                } else if a < i {
                    assert(es[a] == old_es[a] && es[b] == old_es[b - 1]);
                } else {
                    assert(es[a] == old_es[a - 1] && es[b] == old_es[b - 1]);
                }
            }
        }
        proof {
            lemma_entries_map(es);
            let want = entries_map(old_es).insert(k@, v@);
            assert forall|x: Seq<char>| entries_map(es).contains_key(x) <==> want.contains_key(x) by {
                if exists|j: int| 0 <= j < es.len() && es[j].0 == x {
                    let j = choose|j: int| 0 <= j < es.len() && es[j].0 == x;
                    if j < i {
                        assert(old_es[j].0 == x);
                    } else if j > i {
                        assert(old_es[j - 1].0 == x);
                    }
                }
                if exists|j: int| 0 <= j < old_es.len() && old_es[j].0 == x {
                    let j = choose|j: int| 0 <= j < old_es.len() && old_es[j].0 == x;
                    if j < i {
                        assert(es[j].0 == x);
                    } else {
                        assert(es[j + 1].0 == x);
                    }
                }
                if x == k@ {
                    assert(es[i as int].0 == x);
                }
            }
            assert forall|x: Seq<char>| entries_map(es).contains_key(x) implies entries_map(es)[x] == want[x] by {
                let j = choose|j: int| 0 <= j < es.len() && es[j].0 == x;
                assert(entries_map(es)[es[j].0] == es[j].1);
                if j < i {
                    assert(old_es[j] == es[j]);
                    lemma_lex_irreflexive(k@);
                } else if j > i {
                    assert(old_es[j - 1] == es[j]);
                    assert(lex_lt(es[i as int].0, es[j].0));
                    lemma_lex_irreflexive(k@);
                }
            }
            assert(entries_map(es) =~= want);
        }
    }
}

/// A link: where a piece of content lives, with optional query parameters and
/// fragment. The query entries are kept sorted by key, with distinct keys.
#[derive(Clone, Debug, PartialEq, Eq)]
pub struct WikiLink {
    pub namespace: String,
    pub wiki_type: WikiType,
    pub name: String,
    pub queries: Vec<(Vec<char>, Vec<char>)>,
    pub fragment: Option<String>,
}

impl WikiLink {
    /// The query entries in ascending key order.
    pub open spec fn query_entries(&self) -> Seq<(Seq<char>, Seq<char>)> {
        entries_of(self.queries@)
    }

    pub open spec fn fragment_view(&self) -> Option<Seq<char>> {
        match self.fragment {
            Some(f) => Some(f@),
            None => None,
        }
    }

    pub open spec fn wf(&self) -> bool {
        sorted_entries(self.query_entries())
    }
}

impl View for WikiLink {
    type V = WikiLinkView;

    open spec fn view(&self) -> WikiLinkView {
        WikiLinkView {
            namespace: self.namespace@,
            wiki_type: self.wiki_type,
            name: self.name@,
            queries: entries_map(self.query_entries()),
            fragment: self.fragment_view(),
        }
    }
}

/// A link with no queries and no fragment.
pub open spec fn plain_link(ns: Seq<char>, k: WikiType, name: Seq<char>) -> WikiLinkView {
    WikiLinkView { namespace: ns, wiki_type: k, name, queries: Map::empty(), fragment: None }
}

fn default_namespace_string() -> (r: String)
    ensures
        r@ == default_namespace(),
{
    let r = String::from_str(DEFAULT_NAMESPACE);
    proof {
        reveal_strlit("Main");
    }
    assert(r@ =~= default_namespace());
    r
}

fn default_name_string() -> (r: String)
    ensures
        r@ == default_name(),
{
    let r = String::from_str(DEFAULT_NAME);
    proof {
        reveal_strlit("Main");
    }
    assert(r@ =~= default_name());
    r
}

impl Default for WikiLink {
    fn default() -> (r: Self)
        ensures
            r.wf(),
            r@ == plain_link(default_namespace(), WikiType::Page, default_name()),
    {
        WikiLink::from_parts(default_namespace_string(), WikiType::Page, default_name_string())
    }
}

impl WikiLink {
    fn from_parts(namespace: String, wiki_type: WikiType, name: String) -> (r: Self)
        ensures
            r.wf(),
            r@ == plain_link(namespace@, wiki_type, name@),
            r.query_entries().len() == 0,
    {
        let r = WikiLink { namespace, wiki_type, name, queries: Vec::new(), fragment: None };
        assert(r.query_entries() =~= Seq::<(Seq<char>, Seq<char>)>::empty());
        assert(entries_map(r.query_entries()) =~= Map::empty());
        r
    }

    /// A link to `name` of kind `wiki_type` in `namespace`, without queries or fragment.
    pub fn new(namespace: &str, wiki_type: WikiType, name: &str) -> (r: Self)
        ensures
            r.wf(),
            r@ == plain_link(namespace@, wiki_type, name@),
            r.query_entries().len() == 0,
    {
        WikiLink::from_parts(String::from_str(namespace), wiki_type, String::from_str(name))
    }

    /// The same target as `wikilink`, without its queries and fragment.
    pub fn base_of(wikilink: &Self) -> (r: Self)
        ensures
            r.wf(),
            r@ == plain_link(wikilink@.namespace, wikilink@.wiki_type, wikilink@.name),
            r.query_entries().len() == 0,
    {
        WikiLink::from_parts(wikilink.namespace.clone(), wikilink.wiki_type, wikilink.name.clone())
    }

    /// The value of query parameter `key`, if the link has one.
    pub fn get_query(&self, key: &str) -> (r: Option<String>)
        requires
            self.wf(),
        ensures
            match r {
                Some(v) => self@.queries.contains_key(key@) && v@ == self@.queries[key@],
                None => !self@.queries.contains_key(key@),
            },
    {
        let k = chars_of(key);
        let ghost es = self.query_entries();
        proof {
            lemma_entries_map(es);
        }
        let mut i: usize = 0;
        while i < self.queries.len()
            invariant
                es == entries_of(self.queries@),
                es == self.query_entries(),
                sorted_entries(es),
                k@ == key@,
                i <= es.len(),
                forall|j: int| 0 <= j < i ==> (#[trigger] es[j]).0 != k@,
            decreases es.len() - i,
        {
            if chars_equal(&self.queries[i].0, &k) {
                let v = &self.queries[i].1;
                assert(es[i as int] == (self.queries@[i as int].0@, self.queries@[i as int].1@));
                assert(es[i as int].0 == key@);
                proof {
                    lemma_entries_map(es);
                }
                assert(v@.subrange(0, v@.len() as int) =~= v@);
                return Some(string_of(v, 0, v.len()));
            }
            i = i + 1;
        }
        assert forall|j: int| 0 <= j < es.len() implies es[j].0 != key@ by {}
        None
    }

    /// Sets query parameter `key` to `val`, replacing any earlier value.
    pub fn add_query(&mut self, key: &str, val: &str)
        requires
            old(self).wf(),
        ensures
            final(self).wf(),
            final(self)@ == (WikiLinkView {
                queries: old(self)@.queries.insert(key@, val@),
                ..old(self)@
            }),
            old(self).query_entries().len() == 0 ==> final(self).query_entries() == seq![(key@, val@)],
    {
        insert_entry(&mut self.queries, chars_of(key), chars_of(val));
    }

    /// Sets the fragment to `fragment`.
    pub fn set_fragment(&mut self, fragment: &str)
        requires
            old(self).wf(),
        ensures
            final(self).wf(),
            final(self)@ == (WikiLinkView { fragment: Some(fragment@), ..old(self)@ }),
    {
        self.fragment = Some(String::from_str(fragment));
    }

    /// `[namespace:][Kind:]name`: the namespace only when it is not the default
    /// one, the kind only when it is not `Page`.
    pub fn base(&self) -> (r: String)
        ensures
            r@ == base_text(self@.namespace, self@.wiki_type, self@.name),
    {
        let mut b = String::new();
        let is_default = self.namespace == default_namespace_string();
        if !is_default {
            b.append(self.namespace.as_str());
            push_char(&mut b, ':');
        }
        if self.wiki_type != WikiType::Page {
            let k = self.wiki_type.to_string();
            b.append(k.as_str());
            push_char(&mut b, ':');
        }
        b.append(self.name.as_str());
        assert(b@ =~= base_text(self@.namespace, self@.wiki_type, self@.name));
        b
    }

    /// The canonical text of the link: its base, then the query entries in
    /// ascending key order, percent-encoded and joined by `&` after a `?` (an
    /// entry `mode=read` left out), then `#` and the percent-encoded fragment.
    pub fn href(&self) -> (r: String)
        requires
            self.wf(),
        ensures
            r@ == href_text(
                base_text(self@.namespace, self@.wiki_type, self@.name),
                self.query_entries(),
                self@.fragment,
            ),
    {
        let mut href = self.base();
        let ghost es = self.query_entries();
        let mode = vec!['m', 'o', 'd', 'e'];
        let read = vec!['r', 'e', 'a', 'd'];
        let mut qs = String::new();
        let mut n: usize = 0;
        let mut i: usize = 0;
        assert(es.subrange(0, 0) =~= Seq::<(Seq<char>, Seq<char>)>::empty());
        assert(qs@ =~= join(query_items(es.subrange(0, 0)), '&'));
        while i < self.queries.len()
            invariant
                es == entries_of(self.queries@),
                i <= es.len(),
                n <= i,
                mode@ == mode_key(),
                read@ == read_value(),
                n == query_items(es.subrange(0, i as int)).len(),
                qs@ == join(query_items(es.subrange(0, i as int)), '&'),
            decreases es.len() - i,
        {
            let ghost sub = es.subrange(0, i as int + 1);
            assert(sub.drop_last() =~= es.subrange(0, i as int));
            assert(sub.last() == es[i as int]);
            let ghost items = query_items(es.subrange(0, i as int));
            let k = &self.queries[i].0;
            let v = &self.queries[i].1;
            if !(chars_equal(k, &mode) && chars_equal(v, &read)) {
                let ek = utf8_encode(string_of(k, 0, k.len()).as_str());
                let ev = utf8_encode(string_of(v, 0, v.len()).as_str());
                let ghost item = ek@ + seq!['='] + ev@;
                assert(k@.subrange(0, k@.len() as int) =~= k@);
                assert(v@.subrange(0, v@.len() as int) =~= v@);
                assert(query_items(sub) == items.push(item));
                assert(items.push(item).drop_last() =~= items);
                if n > 0 {
                    push_char(&mut qs, '&');
                }
                qs.append(ek.as_str());
                push_char(&mut qs, '=');
                qs.append(ev.as_str());
                assert(qs@ =~= join(items.push(item), '&'));
                n = n + 1;
            }
            i = i + 1;
        }
        assert(es.subrange(0, es.len() as int) =~= es);
        if n > 0 {
            push_char(&mut href, '?');
            href.append(qs.as_str());
        }
        match &self.fragment {
            Some(f) => {
                push_char(&mut href, '#');
                let e = utf8_encode(f.as_str());
                href.append(e.as_str());
            },
            None => {},
        }
        href
    }
}

/// Whether `t` names a kind.
fn is_kind(t: &Vec<char>) -> (r: bool)
    ensures
        r == (kind_of(t@) is Some),
{
    assert(t@.subrange(0, t@.len() as int) =~= t@);
    kind_of_range(t, 0, t.len()).is_some()
}

/// The kind that `t` names, if any.
fn kind_of_chars(t: &Vec<char>) -> (r: Option<WikiType>)
    ensures
        r == kind_of(t@),
{
    assert(t@.subrange(0, t@.len() as int) =~= t@);
    kind_of_range(t, 0, t.len())
}

fn whole_string(t: &Vec<char>) -> (r: String)
    ensures
        r@ == t@,
{
    assert(t@.subrange(0, t@.len() as int) =~= t@);
    string_of(t, 0, t.len())
}

/// Namespace, kind and name from the colon-separated tokens of a link's base.
fn base_from_tokens(toks: &Vec<Vec<char>>) -> (r: (String, WikiType, String))
    requires
        toks@.len() >= 1,
    ensures
        (r.0@, r.1, r.2@) == base_of_tokens(views(toks@)),
{
    let ghost ts = views(toks@);
    let n = toks.len();
    if n == 1 {
        let t = &toks[0];
        assert(ts[0] == t@);
        if t.len() == 0 {
            return (default_namespace_string(), WikiType::Page, default_name_string());
        }
        match kind_of_chars(t) {
            Some(k) => (default_namespace_string(), k, default_name_string()),
            None => (default_namespace_string(), WikiType::Page, whole_string(t)),
        }
    } else if n == 2 {
        let a = &toks[0];
        let b = &toks[1];
        assert(ts[0] == a@ && ts[1] == b@);
        match kind_of_chars(a) {
            Some(k) => (default_namespace_string(), k, whole_string(b)),
            None => match kind_of_chars(b) {
                Some(k) => (whole_string(a), k, default_name_string()),
                None => (whole_string(a), WikiType::Page, whole_string(b)),
            },
        }
    } else {
        let mut i: usize = 0;
        while i < n && !is_kind(&toks[i])
            invariant
                i <= n,
                n == ts.len(),
                ts == views(toks@),
                forall|j: int| 0 <= j < i ==> kind_of(#[trigger] ts[j]) is None,
            decreases n - i,
        {
            assert(ts[i as int] == toks@[i as int]@);
            i = i + 1;
        }
        proof {
            if i < n {
                assert(ts[i as int] == toks@[i as int]@);
            }
            lemma_first_kind_is(ts, i as int);
        }
        if i == n {
            let mut name = String::new();
            push_joined(&mut name, toks, 1, n, ':');
            assert(ts[0] == toks@[0]@);
            assert(name@ =~= join(ts.subrange(1, n as int), ':'));
            (whole_string(&toks[0]), WikiType::Page, name)
        } else {
            assert(ts[i as int] == toks@[i as int]@);
            let k = match kind_of_chars(&toks[i]) {
                Some(k) => k,
                None => WikiType::Page,
            };
            let namespace = if i == 0 {
                default_namespace_string()
            } else {
                let mut ns = String::new();
                push_joined(&mut ns, toks, 0, i, ':');
                assert(ns@ =~= join(ts.subrange(0, i as int), ':'));
                ns
            };
            let name = if i + 1 == n {
                default_name_string()
            } else {
                let mut nm = String::new();
                push_joined(&mut nm, toks, i + 1, n, ':');
                assert(nm@ =~= join(ts.subrange(i + 1, n as int), ':'));
                nm
            };
            (namespace, k, name)
        }
    }
}

/// The sorted query entries that the `&`-separated text `cs[lo..hi]` denotes.
fn queries_from(cs: &Vec<char>, lo: usize, hi: usize) -> (r: Vec<(Vec<char>, Vec<char>)>)
    requires
        lo <= hi <= cs@.len(),
    ensures
        sorted_entries(entries_of(r@)),
        entries_map(entries_of(r@)) == query_map(split(cs@.subrange(lo as int, hi as int), '&')),
{
    let es = split_range(cs, lo, hi, '&');
    let ghost ss = views(es@);
    let mut r: Vec<(Vec<char>, Vec<char>)> = Vec::new();
    assert(entries_map(entries_of(r@)) =~= query_map(ss.subrange(0, 0)));
    let mut i: usize = 0;
    while i < es.len()
        invariant
            i <= es@.len(),
            ss == views(es@),
            sorted_entries(entries_of(r@)),
            entries_map(entries_of(r@)) == query_map(ss.subrange(0, i as int)),
        decreases es@.len() - i,
    {
        let e = &es[i];
        let ghost sub = ss.subrange(0, i as int + 1);
        assert(sub.drop_last() =~= ss.subrange(0, i as int));
        assert(sub.last() == e@);
        let eq = find_char(e, 0, e.len(), '=');
        assert(e@.subrange(0, e@.len() as int) =~= e@);
        proof {
            lemma_index_of_bounds(e@, '=');
        }
        if eq > 0 {
            let key = slice_chars(e, 0, eq);
            let val = if eq < e.len() {
                slice_chars(e, eq + 1, e.len())
            } else {
                let empty: Vec<char> = Vec::new();
                assert(empty@ =~= entry_value(e@));
                empty
            };
            insert_entry(&mut r, key, val);
        }
        i = i + 1;
    }
    assert(ss.subrange(0, es@.len() as int) =~= ss);
    r
}

impl WikiLink {
    /// Reads a link from its text `base[?queries][#fragment]`. Never fails:
    /// every text denotes some link.
    pub fn parse(uri: &str) -> (r: WikiLink)
        ensures
            r.wf(),
            r@ == parse_spec(uri@),
    {
        let cs = chars_of(uri);
        let n = cs.len();
        let h = find_char(&cs, 0, n, '#');
        let q = find_char(&cs, 0, h, '?');
        let ghost s = uri@;
        let ghost pre = s.subrange(0, h as int);
        assert(cs@.subrange(0, n as int) =~= s);
        assert(cs@.subrange(0, h as int) =~= pre);
        let toks = split_range(&cs, 0, q, ':');
        assert(cs@.subrange(0, q as int) =~= pre.subrange(0, q as int));
        proof {
            lemma_split_nonempty(pre.subrange(0, q as int), ':');
        }
        let (namespace, wiki_type, name) = base_from_tokens(&toks);
        let queries = if q < h {
            assert(cs@.subrange(q + 1, h as int) =~= pre.subrange(q + 1, pre.len() as int));
            queries_from(&cs, q + 1, h)
        } else {
            let empty: Vec<(Vec<char>, Vec<char>)> = Vec::new();
            assert(entries_map(entries_of(empty@)) =~= Map::empty());
            empty
        };
        let fragment = if h < n {
            Some(string_of(&cs, h + 1, n))
        } else {
            None
        };
        WikiLink { namespace, wiki_type, name, queries, fragment }
    }
}

/// A namespace or name that reads back as itself: no `:`, `?` or `#` in it, and
/// not the text form of a kind.
pub open spec fn plain_segment(s: Seq<char>) -> bool {
    &&& !contains_char(s, ':')
    &&& !contains_char(s, '?')
    &&& !contains_char(s, '#')
    &&& kind_of(s) is None
}

proof fn lemma_concat_absent(a: Seq<char>, b: Seq<char>, c: char)
    requires
        !contains_char(a, c),
        !contains_char(b, c),
    ensures
        !contains_char(a + b, c),
{
    assert forall|j: int| 0 <= j < (a + b).len() implies (a + b)[j] != c by {
        if j < a.len() {
            assert((a + b)[j] == a[j]);
        } else {
            assert((a + b)[j] == b[j - a.len()]);
        }
    }
}

proof fn lemma_sep_absent(c: char, d: char)
    requires
        c != d,
    ensures
        !contains_char(seq![c], d),
{
    assert forall|j: int| 0 <= j < seq![c].len() implies seq![c][j] != d by {}
}

proof fn lemma_base_text_free(ns: Seq<char>, k: WikiType, name: Seq<char>, c: char)
    requires
        !contains_char(ns, c),
        !contains_char(name, c),
        !contains_char(kind_name(k), c),
        c != ':',
    ensures
        !contains_char(base_text(ns, k, name), c),
{
    lemma_sep_absent(':', c);
    lemma_concat_absent(kind_name(k), seq![':'], c);
    lemma_concat_absent(kind_name(k) + seq![':'], name, c);
    let b = if k != WikiType::Page {
        kind_name(k) + seq![':'] + name
    } else {
        name
    };
    lemma_concat_absent(ns, seq![':'], c);
    lemma_concat_absent(ns + seq![':'], b, c);
}

/// Round trip: the text of a link made from a namespace, a kind and a name
/// (no queries, no fragment) reads back as that namespace, kind and name,
/// provided namespace and name are plain segments and a `Page` in the default
/// namespace has a non-empty name.
pub proof fn lemma_parse_href_round_trip(ns: Seq<char>, k: WikiType, name: Seq<char>)
    requires
        plain_segment(ns),
        plain_segment(name),
        k == WikiType::Page && ns == default_namespace() ==> name.len() > 0,
    ensures
        ({
            let p = parse_spec(href_text(base_text(ns, k, name), Seq::empty(), None));
            p.namespace == ns && p.wiki_type == k && p.name == name
        }),
{
    let t = base_text(ns, k, name);
    assert(query_items(Seq::<(Seq<char>, Seq<char>)>::empty()) =~= Seq::<Seq<char>>::empty());
    assert(href_text(t, Seq::empty(), None) == t);
    lemma_kind_of_name(k);
    lemma_base_text_free(ns, k, name, '#');
    lemma_base_text_free(ns, k, name, '?');
    lemma_index_of_absent(t, '#');
    let pre = t.subrange(0, t.len() as int);
    assert(pre =~= t);
    lemma_index_of_absent(t, '?');
    let kn = kind_name(k);
    lemma_split_absent(name, ':');
    let ts = split(t, ':');
    if ns != default_namespace() {
        if k != WikiType::Page {
            lemma_split_prefix(kn, ':', name);
            lemma_split_prefix(ns, ':', kn + seq![':'] + name);
            assert(ts =~= seq![ns, kn, name]);
            lemma_first_kind_is(ts, 1);
            assert(ts.subrange(0, 1) =~= seq![ns]);
            assert(ts.subrange(2, 3) =~= seq![name]);
        } else {
            lemma_split_prefix(ns, ':', name);
            assert(ts =~= seq![ns, name]);
        }
    } else {
        if k != WikiType::Page {
            lemma_split_prefix(kn, ':', name);
            assert(ts =~= seq![kn, name]);
        } else {
            assert(ts =~= seq![name]);
        }
    }
}

} // verus!
