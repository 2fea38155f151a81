//! Small operations on strings, each stated over the sequence of characters
//! that the string holds.

use vstd::prelude::*;

verus! {

/// Whether `s` begins with `prefix`.
pub fn starts_with(s: &str, prefix: &str) -> (b: bool)
    ensures
        b == prefix@.is_prefix_of(s@),
{
    let n: usize = prefix.unicode_len();
    let m: usize = s.unicode_len();
    if n > m {
        return false;
    }
    let mut i: usize = 0;
    while i < n
        invariant
            i <= n,
            n == prefix@.len(),
            m == s@.len(),
            n <= m,
            forall|j: int| 0 <= j < i ==> s@[j] == prefix@[j],
        decreases n - i,
    {
        if s.get_char(i) != prefix.get_char(i) {
            return false;
        }
        i += 1;
    }
    true
}

/// Whether `s` ends with `suffix`.
pub fn ends_with(s: &str, suffix: &str) -> (b: bool)
    ensures
        b == suffix@.is_suffix_of(s@),
{
    let n: usize = suffix.unicode_len();
    let m: usize = s.unicode_len();
    if n > m {
        return false;
    }
    let base: usize = m - n;
    let mut i: usize = 0;
    while i < n
        invariant
            i <= n,
            n == suffix@.len(),
            m == s@.len(),
            base == m - n,
            forall|j: int| 0 <= j < i ==> s@[base + j] == suffix@[j],
        decreases n - i,
    {
        if s.get_char(base + i) != suffix.get_char(i) {
            return false;
        }
        i += 1;
    }
    true
}

/// Whether two strings hold the same characters.
pub fn same(a: &str, b: &str) -> (r: bool)
    ensures
        r == (a@ == b@),
{
    let x: String = a.to_owned();
    let y: String = b.to_owned();
    x == y
}

/// The first position at or after `from` where `s` holds `c`; the length of
/// `s` where there is none.
pub open spec fn position_from(s: Seq<char>, c: char, from: int) -> int
    decreases s.len() - from,
{
    if from < 0 || from >= s.len() || s[from] == c {
        from
    } else {
        position_from(s, c, from + 1)
    }
}

/// What stands in `s` before the first `c`; all of `s` where `c` does not occur.
pub open spec fn before(s: Seq<char>, c: char) -> Seq<char> {
    s.subrange(0, position_from(s, c, 0))
}

/// `position_from` stays within the sequence and never moves backwards.
pub proof fn lemma_position_bounds(s: Seq<char>, c: char, from: int)
    requires
        0 <= from <= s.len(),
    ensures
        from <= position_from(s, c, from) <= s.len(),
        forall|j: int| from <= j < position_from(s, c, from) ==> s[j] != c,
        position_from(s, c, from) < s.len() ==> s[position_from(s, c, from)] == c,
    decreases s.len() - from,
{
    if from < s.len() && s[from] != c {
        lemma_position_bounds(s, c, from + 1);
    }
}

/// The first place from `from` on that holds `c`, or the end if none does,
/// is where `position_from` arrives.
pub proof fn lemma_position_is_first(s: Seq<char>, c: char, from: int, at: int)
    requires
        0 <= from <= at <= s.len(),
        forall|j: int| from <= j < at ==> s[j] != c,
        at == s.len() || s[at] == c,
    ensures
        position_from(s, c, from) == at,
    decreases at - from,
{
    if from < at {
        lemma_position_is_first(s, c, from + 1, at);
    }
}

/// The part of `s` before its first `c`, as a string of its own.
pub fn cut_before(s: &str, c: char) -> (r: String)
    ensures
        r@ == before(s@, c),
{
    let n: usize = s.unicode_len();
    let mut i: usize = 0;
    while i < n && s.get_char(i) != c
        invariant
            i <= n,
            n == s@.len(),
            position_from(s@, c, 0) == position_from(s@, c, i as int),
        decreases n - i,
    {
        i += 1;
    }
    s.substring_char(0, i).to_owned()
}

/// No string at all.
pub fn no_strings() -> (list: Vec<String>)
    ensures
        list.deep_view() == Seq::<Seq<char>>::empty(),
{
    Vec::new()
}

/// One string.
pub fn one_string(s: String) -> (list: Vec<String>)
    ensures
        list.deep_view() == seq![s@],
{
    let mut list: Vec<String> = Vec::new();
    list.push(s);
    list
}

/// Whether `list` holds a string equal to `s`.
pub fn holds(list: &Vec<String>, s: &str) -> (b: bool)
    ensures
        b == list.deep_view().contains(s@),
{
    let mut i: usize = 0;
    while i < list.len()
        invariant
            i <= list.len(),
            forall|j: int| 0 <= j < i ==> list.deep_view()[j] != s@,
        decreases list.len() - i,
    {
        if same(list[i].as_str(), s) {
            assert(list.deep_view()[i as int] == s@);
            return true;
        }
        i += 1;
    }
    false
}

/// A copy of `list` with `s` behind it.
pub fn with_string(list: &Vec<String>, s: String) -> (r: Vec<String>)
    ensures
        r.deep_view() == list.deep_view().push(s@),
{
    let mut r: Vec<String> = Vec::new();
    let mut i: usize = 0;
    while i < list.len()
        invariant
            i <= list.len(),
            r.len() == i,
            forall|j: int| 0 <= j < i ==> r[j]@ == list[j]@,
        decreases list.len() - i,
    {
        r.push(list[i].clone());
        i += 1;
    }
    r.push(s);
    r
}

/// Appends `more` to `list`.
pub fn extend(list: &mut Vec<String>, more: Vec<String>)
    ensures
        final(list).deep_view() == old(list).deep_view() + more.deep_view(),
{
    let mut more = more;
    list.append(&mut more);
}

/// A result with both sides seen as what they stand for.
pub open spec fn deep<T: DeepView, E: DeepView>(r: Result<T, E>) -> Result<T::V, E::V> {
    match r {
        Ok(t) => Ok(t.deep_view()),
        Err(e) => Err(e.deep_view()),
    }
}

} // verus!
