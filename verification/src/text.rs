//! Utilities over character sequences: views of collections, whitespace
//! trimming, splitting on a separator, and bridges between `&str`, `String`
//! and `Vec<char>`.

use vstd::prelude::*;

verus! {

/// The views of every element of a sequence of viewable values.
pub open spec fn views_of<T: View>(v: Seq<T>) -> Seq<T::V> {
    v.map_values(|t: T| t@)
}

pub proof fn lemma_views_of_push<T: View>(v: Seq<T>, x: T)
    ensures
        views_of(v.push(x)) == views_of(v).push(x@),
{
    assert(views_of(v.push(x)) =~= views_of(v).push(x@));
}

pub proof fn lemma_views_of_concat<T: View>(a: Seq<T>, b: Seq<T>)
    ensures
        views_of(a + b) == views_of(a) + views_of(b),
{
    assert(views_of(a + b) =~= views_of(a) + views_of(b));
}

pub open spec fn is_space(c: char) -> bool {
    c == ' ' || c == '\t' || c == '\r' || c == '\n'
}

pub open spec fn trim_start_spec(s: Seq<char>) -> Seq<char>
    decreases s.len(),
{
    if s.len() > 0 && is_space(s[0]) {
        trim_start_spec(s.skip(1))
    } else {
        s
    }
}

pub open spec fn trim_end_spec(s: Seq<char>) -> Seq<char>
    decreases s.len(),
{
    if s.len() > 0 && is_space(s.last()) {
        trim_end_spec(s.drop_last())
    } else {
        s
    }
}

/// The sequence with leading and trailing whitespace removed.
pub open spec fn trim_spec(s: Seq<char>) -> Seq<char> {
    trim_end_spec(trim_start_spec(s))
}

/// Index of the first occurrence of `d` in `s`, if any.
pub open spec fn first_occ(s: Seq<char>, d: char) -> Option<int>
    decreases s.len(),
{
    if s.len() == 0 {
        None
    } else if s[0] == d {
        Some(0int)
    } else {
        match first_occ(s.skip(1), d) {
            Some(i) => Some(i + 1),
            None => None,
        }
    }
}

pub proof fn lemma_first_occ(s: Seq<char>, d: char)
    ensures
        match first_occ(s, d) {
            Some(i) => 0 <= i < s.len() && s[i] == d && forall|j: int| 0 <= j < i ==> s[j] != d,
            None => forall|j: int| 0 <= j < s.len() ==> s[j] != d,
        },
    decreases s.len(),
{
    if s.len() > 0 && s[0] != d {
        lemma_first_occ(s.skip(1), d);
        assert(forall|j: int| 0 <= j < s.len() - 1 ==> s.skip(1)[j] == s[j + 1]);
        match first_occ(s.skip(1), d) {
            Some(i) => {
                assert(first_occ(s, d) == Some(i + 1));
                assert(s[i + 1] == s.skip(1)[i]);
                assert forall|j: int| 0 <= j < i + 1 implies s[j] != d by {
                    if j > 0 {
                        assert(s[j] == s.skip(1)[j - 1]);
                    }
                }
            },
            None => {
                assert forall|j: int| 0 <= j < s.len() implies s[j] != d by {
                    if j > 0 {
                        assert(s[j] == s.skip(1)[j - 1]);
                    }
                }
            },
        }
    }
}

/// Split `s` on every occurrence of `d`: n separators yield n + 1 parts.
pub open spec fn split_char(s: Seq<char>, d: char) -> Seq<Seq<char>>
    decreases s.len(),
{
    match first_occ(s, d) {
        None => seq![s],
        Some(i) => if 0 <= i && i < s.len() {
            seq![s.take(i)] + split_char(s.skip(i + 1), d)
        } else {
            seq![s]
        },
    }
}

/// A separator-free sequence is one whole part.
pub proof fn lemma_split_char_whole(s: Seq<char>, d: char)
    requires
        forall|j: int| 0 <= j < s.len() ==> s[j] != d,
    ensures
        split_char(s, d) == seq![s],
{
    lemma_first_occ(s, d);
    if first_occ(s, d) is Some {
        let i = first_occ(s, d)->0;
        assert(s[i] == d);
    }
}

/// Splitting a sequence that starts with a separator-free part `a` followed
/// by one separator yields `a` and then the split of the remainder.
pub proof fn lemma_split_char_step(a: Seq<char>, b: Seq<char>, d: char)
    requires
        forall|j: int| 0 <= j < a.len() ==> a[j] != d,
    ensures
        split_char(a + seq![d] + b, d) == seq![a] + split_char(b, d),
{
    let s = a + seq![d] + b;
    lemma_first_occ(s, d);
    assert(s[a.len() as int] == d);
    match first_occ(s, d) {
        None => {
            assert(false);
        },
        Some(i) => {
            if i < a.len() {
                assert(s[i] == a[i]);
                assert(false);
            }
            if i > a.len() {
                assert(s[a.len() as int] == d);
                assert(false);
            }
            assert(i == a.len());
            assert(s.take(i) =~= a);
            assert(s.skip(i + 1) =~= b);
        },
    }
}

/// Split a character vector on a single separator character.
pub fn split_on_char(s: &Vec<char>, d: char) -> (r: Vec<Vec<char>>)
    ensures
        views_of(r@) == split_char(s@, d),
{
    let mut r: Vec<Vec<char>> = Vec::new();
    let mut cur: Vec<char> = Vec::new();
    let n = s.len();
    assert(cur@ + s@.skip(0) =~= s@);
    assert(views_of(r@) + split_char(s@, d) =~= split_char(s@, d));
    for i in 0..n
        invariant
            n == s@.len(),
            forall|j: int| 0 <= j < cur@.len() ==> cur@[j] != d,
            split_char(s@, d) == views_of(r@) + split_char(cur@ + s@.skip(i as int), d),
    {
        let c = s[i];
        assert(cur@ + s@.skip(i as int) =~= (cur@ + s@.skip(i + 1)).insert(cur@.len() as int, s@[i as int]));
        if c == d {
            proof {
                assert(cur@ + seq![d] + s@.skip(i + 1) =~= cur@ + s@.skip(i as int));
                lemma_split_char_step(cur@, s@.skip(i + 1), d);
                lemma_views_of_push(r@, cur);
            }
            r.push(cur);
            cur = Vec::new();
            assert(cur@ + s@.skip(i + 1) =~= s@.skip(i + 1));
        } else {
            proof {
                assert((cur@ + s@.skip(i as int)).take(cur@.len() as int) =~= cur@);
            }
            let ghost old_cur = cur@;
            cur.push(c);
            assert(cur@ + s@.skip(i + 1) =~= old_cur + s@.skip(i as int));
        }
    }
    proof {
        assert(cur@ + s@.skip(n as int) =~= cur@);
        lemma_split_char_whole(cur@, d);
        lemma_views_of_push(r@, cur);
    }
    r.push(cur);
    r
}

/// Trim leading and trailing whitespace from a character vector.
pub fn trim(s: &Vec<char>) -> (r: Vec<char>)
    ensures
        r@ == trim_spec(s@),
{
    let n = s.len();
    let mut start: usize = 0;
    assert(s@.skip(0) =~= s@);
    while start < n && is_space_exec(s[start])
        invariant
            n == s@.len(),
            start <= n,
            trim_start_spec(s@) == trim_start_spec(s@.skip(start as int)),
        decreases n - start,
    {
        assert(s@.skip(start as int).skip(1) =~= s@.skip(start + 1));
        start = start + 1;
    }
    assert(trim_start_spec(s@) == s@.skip(start as int)) by {
        if start < n {
            assert(!is_space(s@.skip(start as int)[0]));
        }
    }
    let mut end: usize = n;
    while end > start && is_space_exec(s[end - 1])
        invariant
            n == s@.len(),
            start <= end <= n,
            trim_start_spec(s@) == s@.skip(start as int),
            trim_end_spec(s@.skip(start as int)) == trim_end_spec(s@.subrange(start as int, end as int)),
        decreases end,
    {
        assert(s@.subrange(start as int, end as int).drop_last() =~= s@.subrange(
            start as int,
            end - 1,
        ));
        assert(s@.subrange(start as int, end as int).last() == s@[end - 1]);
        end = end - 1;
    }
    assert(trim_end_spec(s@.subrange(start as int, end as int)) == s@.subrange(
        start as int,
        end as int,
    )) by {
        if end > start {
            assert(s@.subrange(start as int, end as int).last() == s@[end - 1]);
        }
    }
    let mut r: Vec<char> = Vec::new();
    for j in start..end
        invariant
            start <= end <= n,
            n == s@.len(),
            r@ == s@.subrange(start as int, j as int),
    {
        r.push(s[j]);
        assert(s@.subrange(start as int, j + 1) =~= s@.subrange(start as int, j as int).push(
            s@[j as int],
        ));
    }
    r
}

pub fn is_space_exec(c: char) -> (r: bool)
    ensures
        r == is_space(c),
{
    c == ' ' || c == '\t' || c == '\r' || c == '\n'
}

/// The characters of a string slice, as an indexable vector.
pub fn chars_of(s: &str) -> (r: Vec<char>)
    ensures
        r@ == s@,
{
    let n = s.unicode_len();
    let mut r: Vec<char> = Vec::new();
    for i in 0..n
        invariant
            n == s@.len(),
            r@ == s@.subrange(0, i as int),
    {
        r.push(s.get_char(i));
        assert(s@.subrange(0, i + 1) =~= s@.subrange(0, i as int).push(s@[i as int]));
    }
    assert(s@.subrange(0, n as int) =~= s@);
    r
}

/// Relies on `core::iter::Iterator::collect` for `String`: collecting the
/// characters of a slice builds the string of exactly those characters.
#[verifier::external_body]
pub(crate) fn string_from_chars(s: &[char]) -> (r: String)
    ensures
        r@ == s@,
{
    s.iter().collect()
}

/// Whether two string slices hold the same characters.
pub fn str_eq(a: &str, b: &str) -> (r: bool)
    ensures
        r == (a@ == b@),
{
    let n = a.unicode_len();
    if b.unicode_len() != n {
        assert(a@ != b@);
        return false;
    }
    for i in 0..n
        invariant
            n == a@.len() == b@.len(),
            forall|j: int| 0 <= j < i ==> a@[j] == b@[j],
    {
        if a.get_char(i) != b.get_char(i) {
            return false;
        }
    }
    assert(a@ =~= b@);
    true
}

/// Find the first occurrence of a character in a vector.
pub fn find_char(s: &Vec<char>, d: char) -> (r: Option<usize>)
    ensures
        match r {
            Some(i) => first_occ(s@, d) == Some(i as int),
            None => first_occ(s@, d) is None,
        },
{
    let n = s.len();
    for i in 0..n
        invariant
            n == s@.len(),
            forall|j: int| 0 <= j < i ==> s@[j] != d,
    {
        if s[i] == d {
            proof {
                lemma_first_occ(s@, d);
                match first_occ(s@, d) {
                    Some(k) => {
                        if k < i {
                            assert(s@[k] == d);
                        }
                        if k > i {
                            assert(s@[i as int] != d);
                        }
                    },
                    None => {
                        assert(s@[i as int] != d);
                    },
                }
            }
            return Some(i);
        }
    }
    proof {
        lemma_first_occ(s@, d);
        if first_occ(s@, d) is Some {
            let k = first_occ(s@, d)->0;
            assert(s@[k] == d);
        }
    }
    None
}

} // verus!
