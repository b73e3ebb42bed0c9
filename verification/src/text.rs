//! Character-level text primitives: substring occurrence predicates, a
//! verified first-occurrence search, and equality of string slices.
//!
//! File content and markers are modelled as sequences of characters
//! (`Seq<char>`, the view of `&str` and `String`); the executable code walks
//! them through vectors of characters.

use vstd::prelude::*;

verus! {

/// `pat` occurs in `text` starting at index `i`.
pub open spec fn occurs_at(text: Seq<char>, pat: Seq<char>, i: int) -> bool {
    &&& 0 <= i
    &&& i + pat.len() <= text.len()
    &&& forall|k: int| 0 <= k < pat.len() ==> text[i + k] == pat[k]
}

/// `pat` occurs somewhere in `text`.
pub open spec fn contains_pat(text: Seq<char>, pat: Seq<char>) -> bool {
    exists|i: int| occurs_at(text, pat, i)
}

/// `pat` occurs at `i`, and at no index of `[from, i)`.
pub open spec fn first_occurrence_from(text: Seq<char>, pat: Seq<char>, from: int, i: int) -> bool {
    &&& from <= i
    &&& occurs_at(text, pat, i)
    &&& forall|j: int| from <= j < i ==> !occurs_at(text, pat, j)
}

/// `i` is the first index at which `pat` occurs in `text`.
pub open spec fn first_occurrence(text: Seq<char>, pat: Seq<char>, i: int) -> bool {
    first_occurrence_from(text, pat, 0, i)
}

/// `pat` occurs somewhere at or after index `from`.
pub open spec fn contains_from(text: Seq<char>, pat: Seq<char>, from: int) -> bool {
    exists|i: int| from <= i && occurs_at(text, pat, i)
}

/// `pat` occurs at `i` and nowhere else in `text`.
pub open spec fn occurs_only_at(text: Seq<char>, pat: Seq<char>, i: int) -> bool {
    &&& occurs_at(text, pat, i)
    &&& forall|j: int| occurs_at(text, pat, j) ==> j == i
}

/// The character `c` appears nowhere in `s`.
pub open spec fn no_char(s: Seq<char>, c: char) -> bool {
    forall|k: int| 0 <= k < s.len() ==> s[k] != c
}

/// A non-empty token free of the marker lead character and of newlines:
/// safe to stand inside one line of the managed block.
pub open spec fn plain_token(s: Seq<char>) -> bool {
    s.len() > 0 && no_char(s, '#') && no_char(s, '\n')
}

/// An occurrence inside a suffix survives prepending, shifted by the prefix length.
pub proof fn lemma_occurs_in_suffix(a: Seq<char>, b: Seq<char>, pat: Seq<char>, i: int)
    requires
        occurs_at(b, pat, i),
    ensures
        occurs_at(a + b, pat, a.len() + i),
{
    assert forall|k: int| 0 <= k < pat.len() implies (a + b)[a.len() + i + k] == pat[k] by {
        assert((a + b)[a.len() + i + k] == b[i + k]);
    }
}

/// An occurrence in a concatenation lies in the prefix, lies in the suffix,
/// or straddles the boundary.
pub proof fn lemma_occurs_cases(a: Seq<char>, b: Seq<char>, pat: Seq<char>, i: int)
    requires
        occurs_at(a + b, pat, i),
    ensures
        (i + pat.len() <= a.len() && occurs_at(a, pat, i)) || (i >= a.len() && occurs_at(
            b,
            pat,
            i - a.len(),
        )) || (i < a.len() < i + pat.len()),
{
    if i + pat.len() <= a.len() {
        assert forall|k: int| 0 <= k < pat.len() implies a[i + k] == pat[k] by {
            assert((a + b)[i + k] == a[i + k]);
        }
    } else if i >= a.len() {
        assert forall|k: int| 0 <= k < pat.len() implies b[i - a.len() + k] == pat[k] by {
            assert((a + b)[i + k] == b[i - a.len() + k]);
        }
    }
}

/// When the suffix begins with a newline and the pattern holds none, no
/// occurrence straddles the boundary of the concatenation: it lies wholly in
/// the prefix, or wholly in the suffix past its first character.
pub proof fn lemma_no_straddle_newline(a: Seq<char>, b: Seq<char>, pat: Seq<char>, i: int)
    requires
        occurs_at(a + b, pat, i),
        no_char(pat, '\n'),
        b.len() > 0,
        b[0] == '\n',
        pat.len() > 0,
    ensures
        (i + pat.len() <= a.len() && occurs_at(a, pat, i)) || (i >= a.len() + 1 && occurs_at(
            b,
            pat,
            i - a.len(),
        )),
{
    lemma_occurs_cases(a, b, pat, i);
    if i <= a.len() < i + pat.len() {
        let k = a.len() - i;
        assert((a + b)[a.len() as int] == b[0]);
        assert(pat[k] == (a + b)[i + k]);
        assert(false);
    }
}

/// Builds the vector of characters of a string slice.
pub fn to_chars(s: &str) -> (v: Vec<char>)
    ensures
        v@ == s@,
{
    let n: usize = s.unicode_len();
    let mut v: Vec<char> = Vec::new();
    let mut i: usize = 0;
    while i < n
        invariant
            i <= n,
            n == s@.len(),
            v@ =~= s@.subrange(0, i as int),
        decreases n - i,
    {
        v.push(s.get_char(i));
        i = i + 1;
    }
    proof {
        assert(v@ =~= s@);
    }
    v
}

/// Whether `pat` matches `text` at position `i`.
pub fn match_at(text: &Vec<char>, pat: &Vec<char>, i: usize) -> (r: bool)
    requires
        i + pat@.len() <= text@.len(),
    ensures
        r == occurs_at(text@, pat@, i as int),
{
    let text_len: usize = text.len();
    proof {
        assert(text@.len() == text_len);
    }
    let mut j: usize = 0;
    while j < pat.len()
        invariant
            j <= pat@.len(),
            i + pat@.len() <= text@.len(),
            text@.len() <= usize::MAX,
            forall|k: int| 0 <= k < j ==> text@[i + k] == pat@[k],
        decreases pat@.len() - j,
    {
        if text[i + j] != pat[j] {
            return false;
        }
        j = j + 1;
    }
    true
}

/// First occurrence of `pat` in `text` at or after `from`, if any.
pub fn find_pat_from(text: &Vec<char>, pat: &Vec<char>, from: usize) -> (r: Option<usize>)
    ensures
        match r {
            Some(i) => first_occurrence_from(text@, pat@, from as int, i as int),
            None => !contains_from(text@, pat@, from as int),
        },
{
    if pat.len() > text.len() {
        return None;
    }
    let last: usize = text.len() - pat.len();
    if from > last {
        return None;
    }
    let mut i: usize = from;
    while i < last
        invariant
            from <= i <= last,
            pat@.len() <= text@.len(),
            text@.len() <= usize::MAX,
            last == text@.len() - pat@.len(),
            forall|j: int| from <= j < i ==> !occurs_at(text@, pat@, j),
        decreases last - i,
    {
        if match_at(text, pat, i) {
            return Some(i);
        }
        i = i + 1;
    }
    if match_at(text, pat, last) {
        Some(last)
    } else {
        None
    }
}

/// First occurrence of `pat` in `text`, if any.
pub fn find_pat(text: &Vec<char>, pat: &Vec<char>) -> (r: Option<usize>)
    ensures
        match r {
            Some(i) => first_occurrence(text@, pat@, i as int),
            None => !contains_pat(text@, pat@),
        },
{
    let r = find_pat_from(text, pat, 0);
    proof {
        if r is None {
            assert(forall|i: int| occurs_at(text@, pat@, i) ==> 0 <= i);
        }
    }
    r
}

/// Whether two string slices hold the same characters.
pub fn str_eq(a: &str, b: &str) -> (r: bool)
    ensures
        r == (a@ == b@),
{
    let na: usize = a.unicode_len();
    let nb: usize = b.unicode_len();
    if na != nb {
        return false;
    }
    let mut i: usize = 0;
    while i < na
        invariant
            i <= na,
            na == a@.len(),
            na == b@.len(),
            forall|k: int| 0 <= k < i ==> a@[k] == b@[k],
        decreases na - i,
    {
        if a.get_char(i) != b.get_char(i) {
            return false;
        }
        i = i + 1;
    }
    proof {
        assert(a@ =~= b@);
    }
    true
}


/// At most one index is the first occurrence at or after `from`.
pub proof fn lemma_first_occurrence_from_unique(
    text: Seq<char>,
    pat: Seq<char>,
    from: int,
    i: int,
    j: int,
)
    requires
        first_occurrence_from(text, pat, from, i),
        first_occurrence_from(text, pat, from, j),
    ensures
        i == j,
{
    if i < j {
        assert(!occurs_at(text, pat, i));
    }
    if j < i {
        assert(!occurs_at(text, pat, j));
    }
}

} // verus!
