//! Character-sequence helpers shared by the link parser and formatter.
use vstd::prelude::*;

verus! {

/// Index of the first occurrence of `c` in `s`, or `s.len()` when absent.
pub open spec fn index_of(s: Seq<char>, c: char) -> int
    decreases s.len(),
{
    if s.len() == 0 {
        0
    } else if s[0] == c {
        0
    } else {
        1 + index_of(s.drop_first(), c)
    }
}

/// `s` cut at every `sep`; always at least one piece.
pub open spec fn split(s: Seq<char>, sep: char) -> Seq<Seq<char>>
    decreases s.len(),
{
    let i = index_of(s, sep);
    if 0 <= i < s.len() {
        seq![s.subrange(0, i)] + split(s.subrange(i + 1, s.len() as int), sep)
    } else {
        seq![s]
    }
}

/// The pieces of `parts` with `sep` between neighbours.
pub open spec fn join(parts: Seq<Seq<char>>, sep: char) -> Seq<char>
    decreases parts.len(),
{
    if parts.len() == 0 {
        Seq::empty()
    } else if parts.len() == 1 {
        parts[0]
    } else {
        join(parts.drop_last(), sep) + seq![sep] + parts.last()
    }
}

pub open spec fn contains_char(s: Seq<char>, c: char) -> bool {
    exists|j: int| 0 <= j < s.len() && s[j] == c
}

pub proof fn lemma_index_of_bounds(s: Seq<char>, c: char)
    ensures
        0 <= index_of(s, c) <= s.len(),
        index_of(s, c) < s.len() ==> s[index_of(s, c)] == c,
        forall|j: int| 0 <= j < index_of(s, c) ==> s[j] != c,
    decreases s.len(),
{
    if s.len() > 0 && s[0] != c {
        lemma_index_of_bounds(s.drop_first(), c);
        assert forall|j: int| 0 <= j < index_of(s, c) implies s[j] != c by {
            if j > 0 {
                assert(s[j] == s.drop_first()[j - 1]);
            }
        }
    }
}

pub proof fn lemma_index_of_is(s: Seq<char>, c: char, r: int)
    requires
        0 <= r <= s.len(),
        r < s.len() ==> s[r] == c,
        forall|j: int| 0 <= j < r ==> s[j] != c,
    ensures
        index_of(s, c) == r,
    decreases s.len(),
{
    if s.len() > 0 && r > 0 {
        assert(s[0] != c);
        lemma_index_of_is(s.drop_first(), c, r - 1);
    }
}

pub proof fn lemma_index_of_absent(s: Seq<char>, c: char)
    requires
        !contains_char(s, c),
    ensures
        index_of(s, c) == s.len(),
{
    lemma_index_of_is(s, c, s.len() as int);
}

pub proof fn lemma_split_absent(s: Seq<char>, sep: char)
    requires
        !contains_char(s, sep),
    ensures
        split(s, sep) == seq![s],
{
    lemma_index_of_absent(s, sep);
}

/// Splitting `a + [sep] + b`, where `a` holds no `sep`, yields `a` first.
pub proof fn lemma_split_prefix(a: Seq<char>, sep: char, b: Seq<char>)
    requires
        !contains_char(a, sep),
    ensures
        split(a + seq![sep] + b, sep) == seq![a] + split(b, sep),
{
    let s = a + seq![sep] + b;
    assert forall|j: int| 0 <= j < a.len() implies s[j] != sep by {
        assert(s[j] == a[j]);
    }
    lemma_index_of_is(s, sep, a.len() as int);
    assert(s.subrange(0, a.len() as int) =~= a);
    assert(s.subrange(a.len() as int + 1, s.len() as int) =~= b);
}

pub proof fn lemma_split_nonempty(s: Seq<char>, sep: char)
    ensures
        split(s, sep).len() >= 1,
    decreases s.len(),
{
    lemma_index_of_bounds(s, sep);
    let i = index_of(s, sep);
    if i < s.len() {
        lemma_split_nonempty(s.subrange(i + 1, s.len() as int), sep);
    }
}

/// The characters of `s`, one by one.
pub fn chars_of(s: &str) -> (r: Vec<char>)
    ensures
        r@ == s@,
{
    let n = s.unicode_len();
    let mut r: Vec<char> = Vec::new();
    let mut i: usize = 0;
    while i < n
        invariant
            n == s@.len(),
            i <= n,
            r@ == s@.subrange(0, i as int),
        decreases n - i,
    {
        r.push(s.get_char(i));
        i = i + 1;
        assert(r@ =~= s@.subrange(0, i as int));
    }
    assert(r@ =~= s@);
    r
}

/// Relies on `String::push`: appends one character.
#[verifier::external_body]
pub(crate) fn push_char(s: &mut String, c: char)
    ensures
        final(s)@ == old(s)@.push(c),
{
    s.push(c)
}

/// The characters `v[lo..hi]` appended to `s`.
pub fn push_range(s: &mut String, v: &Vec<char>, lo: usize, hi: usize)
    requires
        lo <= hi <= v@.len(),
    ensures
        final(s)@ == old(s)@ + v@.subrange(lo as int, hi as int),
{
    let ghost start = s@;
    let mut i: usize = lo;
    while i < hi
        invariant
            lo <= i <= hi <= v@.len(),
            s@ == start + v@.subrange(lo as int, i as int),
        decreases hi - i,
    {
        push_char(s, v[i]);
        i = i + 1;
        assert(s@ =~= start + v@.subrange(lo as int, i as int));
    }
}

/// A string holding the characters `v[lo..hi]`.
pub fn string_of(v: &Vec<char>, lo: usize, hi: usize) -> (r: String)
    requires
        lo <= hi <= v@.len(),
    ensures
        r@ == v@.subrange(lo as int, hi as int),
{
    let mut s = String::new();
    push_range(&mut s, v, lo, hi);
    assert(s@ =~= v@.subrange(lo as int, hi as int));
    s
}

/// Position of the first `c` in `v[lo..hi]`, or `hi`.
pub fn find_char(v: &Vec<char>, lo: usize, hi: usize, c: char) -> (r: usize)
    requires
        lo <= hi <= v@.len(),
    ensures
        lo <= r <= hi,
        r - lo == index_of(v@.subrange(lo as int, hi as int), c),
{
    let mut i: usize = lo;
    while i < hi && v[i] != c
        invariant
            lo <= i <= hi <= v@.len(),
            forall|j: int| lo <= j < i ==> v@[j] != c,
        decreases hi - i,
    {
        i = i + 1;
    }
    let ghost sub = v@.subrange(lo as int, hi as int);
    proof {
        assert forall|j: int| 0 <= j < i - lo implies sub[j] != c by {
            assert(sub[j] == v@[lo + j]);
        }
        lemma_index_of_is(sub, c, i - lo);
    }
    i
}

/// Whether `v[lo..hi]` holds exactly the characters of `t`.
pub fn range_equals(v: &Vec<char>, lo: usize, hi: usize, t: &Vec<char>) -> (r: bool)
    requires
        lo <= hi <= v@.len(),
    ensures
        r == (v@.subrange(lo as int, hi as int) == t@),
{
    if hi - lo != t.len() {
        assert(v@.subrange(lo as int, hi as int).len() != t@.len());
        return false;
    }
    let mut i: usize = 0;
    while i < t.len()
        invariant
            hi - lo == t@.len(),
            lo <= hi <= v@.len(),
            i <= t@.len(),
            forall|j: int| 0 <= j < i ==> v@[lo + j] == t@[j],
        decreases t@.len() - i,
    {
        if v[lo + i] != t[i] {
            assert(v@.subrange(lo as int, hi as int)[i as int] != t@[i as int]);
            return false;
        }
        i = i + 1;
    }
    assert(v@.subrange(lo as int, hi as int) =~= t@);
    true
}

/// Whether two character sequences are equal.
pub fn chars_equal(a: &Vec<char>, b: &Vec<char>) -> (r: bool)
    ensures
        r == (a@ == b@),
{
    let r = range_equals(a, 0, a.len(), b);
    assert(a@.subrange(0, a@.len() as int) =~= a@);
    r
}

/// The character sequences held by a vector of character vectors.
pub open spec fn views(v: Seq<Vec<char>>) -> Seq<Seq<char>> {
    v.map_values(|t: Vec<char>| t@)
}

/// A copy of `v[lo..hi]`.
pub fn slice_chars(v: &Vec<char>, lo: usize, hi: usize) -> (r: Vec<char>)
    requires
        lo <= hi <= v@.len(),
    ensures
        r@ == v@.subrange(lo as int, hi as int),
{
    let mut r: Vec<char> = Vec::new();
    let mut i: usize = lo;
    while i < hi
        invariant
            lo <= i <= hi <= v@.len(),
            r@ == v@.subrange(lo as int, i as int),
        decreases hi - i,
    {
        r.push(v[i]);
        i = i + 1;
        assert(r@ =~= v@.subrange(lo as int, i as int));
    }
    r
}

/// The pieces of `v[lo..hi]` between occurrences of `sep`.
pub fn split_range(v: &Vec<char>, lo: usize, hi: usize, sep: char) -> (r: Vec<Vec<char>>)
    requires
        lo <= hi <= v@.len(),
    ensures
        views(r@) == split(v@.subrange(lo as int, hi as int), sep),
{
    let mut r: Vec<Vec<char>> = Vec::new();
    let mut start: usize = lo;
    assert(views(r@) =~= Seq::<Seq<char>>::empty());
    loop
        invariant
            lo <= start <= hi <= v@.len(),
            views(r@) + split(v@.subrange(start as int, hi as int), sep) == split(
                v@.subrange(lo as int, hi as int),
                sep,
            ),
        decreases hi - start,
    {
        let i = find_char(v, start, hi, sep);
        let tok = slice_chars(v, start, i);
        let ghost s = v@.subrange(start as int, hi as int);
        let ghost before = views(r@);
        r.push(tok);
        assert(views(r@) =~= before.push(tok@));
        if i == hi {
            assert(tok@ =~= s);
            assert(views(r@) =~= before + split(s, sep));
            return r;
        }
        assert(s.subrange(0, i - start) =~= tok@);
        assert(s.subrange(i - start + 1, s.len() as int) =~= v@.subrange(i + 1, hi as int));
        assert(views(r@) + split(v@.subrange(i + 1, hi as int), sep) =~= before + split(s, sep));
        start = i + 1;
    }
}

/// Appends `parts[a..b]` to `s`, with `sep` between neighbours.
pub fn push_joined(s: &mut String, parts: &Vec<Vec<char>>, a: usize, b: usize, sep: char)
    requires
        a <= b <= parts@.len(),
    ensures
        final(s)@ == old(s)@ + join(views(parts@).subrange(a as int, b as int), sep),
{
    let ghost start = s@;
    let mut i: usize = a;
    assert(join(views(parts@).subrange(a as int, a as int), sep) =~= Seq::<char>::empty());
    assert(s@ =~= start + Seq::<char>::empty());
    while i < b
        invariant
            a <= i <= b <= parts@.len(),
            s@ == start + join(views(parts@).subrange(a as int, i as int), sep),
        decreases b - i,
    {
        let ghost prev = s@;
        let ghost sub = views(parts@).subrange(a as int, i as int + 1);
        assert(sub.drop_last() =~= views(parts@).subrange(a as int, i as int));
        assert(sub.last() == parts@[i as int]@);
        if i > a {
            push_char(s, sep);
        }
        push_range(s, &parts[i], 0, parts[i].len());
        assert(parts@[i as int]@.subrange(0, parts@[i as int]@.len() as int) =~= parts@[i as int]@);
        i = i + 1;
        assert(s@ =~= start + join(views(parts@).subrange(a as int, i as int), sep));
    }
}

} // verus!
