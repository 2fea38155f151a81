//! Finding every place where a pattern occurs in a text.
//!
//! The matching itself is the `regex` crate's: it says where each match and
//! each of its groups begins and ends. The text is then cut at those places
//! here, so that the stretches between the matches and the matches
//! themselves make up the text again.

use vstd::prelude::*;
use vstd::utf8::{
    decode_utf8,
    decode_utf8_encode_utf8,
    decode_utf8_split,
    encode_utf8,
    encode_utf8_decode_utf8,
    encode_utf8_valid_utf8,
    is_char_boundary,
    is_char_boundary_start_end_of_seq,
    valid_utf8_split,
};

verus! {

/// For each match of `pattern` in `text`, from left to right, where each
/// capture group of the pattern begins and ends, the whole match being
/// group 0. The places are counted in bytes of the text as UTF-8. `None`
/// where the crate does not accept `pattern`.
pub uninterp spec fn regex_spans(pattern: Seq<char>, text: Seq<char>) -> Option<
    Seq<Seq<Option<(usize, usize)>>>,
>;

/// `Regex::new` and `Regex::captures_iter`, each `Captures` written out
/// group by group with `Captures::iter`, `Match::start` and `Match::end`.
/// The result is what the crate finds, and nothing more is claimed of it.
#[verifier::external_body]
fn spans(pattern: &str, text: &str) -> (r: Option<Vec<Vec<Option<(usize, usize)>>>>)
    ensures
        r.deep_view() == regex_spans(pattern@, text@),
{
    let re = regex::Regex::new(pattern).ok()?;
    Some(
        re.captures_iter(text).map(
            |found| found.iter().map(|group| group.map(|m| (m.start(), m.end()))).collect(),
        ).collect(),
    )
}

/// The occurrences of a pattern in a text: `matches[i]` stands between
/// `gaps[i]` and `gaps[i + 1]`.
pub struct Occurrences {
    pub gaps: Seq<Seq<char>>,
    pub matches: Seq<Seq<Option<Seq<char>>>>,
}

impl Occurrences {
    /// One gap before the first match, and one after each.
    pub open spec fn wf(self) -> bool {
        self.gaps.len() == self.matches.len() + 1
    }
}

/// The occurrences of a pattern in a text, as strings.
#[derive(Debug, PartialEq, Eq)]
pub struct Scan {
    pub gaps: Vec<String>,
    pub matches: Vec<Vec<Option<String>>>,
}

impl DeepView for Scan {
    type V = Occurrences;

    open spec fn deep_view(&self) -> Occurrences {
        Occurrences { gaps: self.gaps.deep_view(), matches: self.matches.deep_view() }
    }
}

impl Scan {
    /// One gap before the first match, and one after each.
    pub open spec fn wf(&self) -> bool {
        self.deep_view().wf()
    }
}

/// `s` cut in two where byte `mid` of its UTF-8 form begins: there where
/// that is the beginning of a character, or the end of `s`.
pub open spec fn halves(s: Seq<char>, mid: int) -> Option<(Seq<char>, Seq<char>)> {
    let bytes = encode_utf8(s);
    if is_char_boundary(bytes, mid) {
        Some(
            (
                decode_utf8(bytes.subrange(0, mid)),
                decode_utf8(bytes.subrange(mid, bytes.len() as int)),
            ),
        )
    } else {
        None
    }
}

/// The two halves of a text make up the text, and the first is `mid` bytes
/// long.
pub proof fn lemma_halves(s: Seq<char>, mid: int)
    ensures
        match halves(s, mid) {
            Some((first, second)) => first + second == s && encode_utf8(first).len() == mid,
            None => true,
        },
{
    if halves(s, mid) is None {
        return ;
    }
    let bytes = encode_utf8(s);
    encode_utf8_valid_utf8(s);
    encode_utf8_decode_utf8(s);
    valid_utf8_split(bytes, mid);
    decode_utf8_split(bytes, mid);
    decode_utf8_encode_utf8(bytes.subrange(0, mid));
}

/// What a group took, cut out of the match `whole` that begins at byte
/// `start` of the text. The outer `None` says that the group does not lie
/// in the match, or not between characters.
pub open spec fn group_text(whole: Seq<char>, start: int, span: Option<(usize, usize)>) -> Option<
    Option<Seq<char>>,
> {
    match span {
        None => Some(None),
        Some((from, to)) => if start <= from <= to {
            match halves(whole, to - start) {
                None => None,
                Some((upto, _)) => match halves(upto, from - start) {
                    None => None,
                    Some((_, text)) => Some(Some(text)),
                },
            }
        } else {
            None
        },
    }
}

/// What the first `n` groups of a match took, if each can be cut out.
pub open spec fn group_texts(
    whole: Seq<char>,
    start: int,
    spans: Seq<Option<(usize, usize)>>,
    n: int,
) -> Option<Seq<Option<Seq<char>>>>
    decreases n,
{
    if n <= 0 {
        Some(Seq::empty())
    } else {
        match group_texts(whole, start, spans, n - 1) {
            None => None,
            Some(before) => match group_text(whole, start, spans[n - 1]) {
                None => None,
                Some(text) => Some(before.push(text)),
            },
        }
    }
}

/// A text cut up as far as some matches go: the gap before each of them,
/// what their groups took, what is `rest` behind the last of them, and `at`
/// which byte of the text that rest begins.
pub struct Layout {
    pub gaps: Seq<Seq<char>>,
    pub matches: Seq<Seq<Option<Seq<char>>>>,
    pub rest: Seq<char>,
    pub at: int,
}

/// What one more match cuts off a rest that begins at byte `at`: the gap
/// before the match, the texts of its groups, the rest behind it, and where
/// that begins. Not there unless the match lies in the rest, between
/// characters, with all its groups.
pub open spec fn cut_off(rest: Seq<char>, at: int, spans: Seq<Option<(usize, usize)>>) -> Option<
    (Seq<char>, Seq<Option<Seq<char>>>, Seq<char>, int),
> {
    if spans.len() == 0 {
        None
    } else {
        match spans[0] {
            None => None,
            Some((from, to)) => if at <= from <= to {
                match halves(rest, from - at) {
                    None => None,
                    Some((gap, tail)) => match halves(tail, to - from) {
                        None => None,
                        Some((whole, behind)) => match group_texts(
                            whole,
                            from as int,
                            spans,
                            spans.len() as int,
                        ) {
                            None => None,
                            Some(groups) => Some((gap, groups, behind, to as int)),
                        },
                    },
                }
            } else {
                None
            },
        }
    }
}

/// `text` cut up by the first `k` of the matches that `spans` describes, if
/// they follow one another in the text.
pub open spec fn laid_out(text: Seq<char>, spans: Seq<Seq<Option<(usize, usize)>>>, k: int)
    -> Option<Layout>
    decreases k,
{
    if k <= 0 {
        Some(Layout { gaps: Seq::empty(), matches: Seq::empty(), rest: text, at: 0 })
    } else {
        match laid_out(text, spans, k - 1) {
            None => None,
            Some(so_far) => match cut_off(so_far.rest, so_far.at, spans[k - 1]) {
                None => None,
                Some((gap, groups, behind, to)) => Some(
                    Layout {
                        gaps: so_far.gaps.push(gap),
                        matches: so_far.matches.push(groups),
                        rest: behind,
                        at: to,
                    },
                ),
            },
        }
    }
}

/// The occurrences of `pattern` in `text`: there where the pattern was
/// accepted and the text can be cut at every place that was found.
pub open spec fn occurrences(pattern: Seq<char>, text: Seq<char>) -> Option<Occurrences> {
    match regex_spans(pattern, text) {
        None => None,
        Some(spans) => match laid_out(text, spans, spans.len() as int) {
            None => None,
            Some(all) => Some(Occurrences { gaps: all.gaps.push(all.rest), matches: all.matches }),
        },
    }
}

/// What group `i` of a match took, if the match has such a group and it
/// took part.
pub open spec fn group_of(groups: Seq<Option<Seq<char>>>, i: int) -> Option<Seq<char>> {
    if 0 <= i < groups.len() {
        groups[i]
    } else {
        None
    }
}

/// Group `i` where it took part, else group `j`.
pub open spec fn either_group(groups: Seq<Option<Seq<char>>>, i: int, j: int) -> Option<Seq<char>> {
    match group_of(groups, i) {
        Some(text) => Some(text),
        None => group_of(groups, j),
    }
}

/// The whole text of each match.
pub open spec fn wholes(matches: Seq<Seq<Option<Seq<char>>>>) -> Seq<Seq<char>> {
    Seq::new(
        matches.len(),
        |i: int|
            match group_of(matches[i], 0) {
                Some(text) => text,
                None => Seq::empty(),
            },
    )
}

/// The first gap, then `k` times a fill and the gap behind it.
pub open spec fn woven(gaps: Seq<Seq<char>>, fills: Seq<Seq<char>>, k: int) -> Seq<char>
    decreases k,
{
    if k <= 0 {
        gaps[0]
    } else {
        woven(gaps, fills, k - 1) + fills[k - 1] + gaps[k]
    }
}

/// The first `k` gaps, each with the fill behind it.
spec fn covered(gaps: Seq<Seq<char>>, fills: Seq<Seq<char>>, k: int) -> Seq<char>
    decreases k,
{
    if k <= 0 {
        Seq::empty()
    } else {
        covered(gaps, fills, k - 1) + gaps[k - 1] + fills[k - 1]
    }
}

proof fn lemma_covered_agrees(
    gaps: Seq<Seq<char>>,
    fills: Seq<Seq<char>>,
    other_gaps: Seq<Seq<char>>,
    other_fills: Seq<Seq<char>>,
    k: int,
)
    requires
        forall|i: int| 0 <= i < k ==> gaps[i] == other_gaps[i] && fills[i] == other_fills[i],
    ensures
        covered(gaps, fills, k) == covered(other_gaps, other_fills, k),
    decreases k,
{
    if k > 0 {
        lemma_covered_agrees(gaps, fills, other_gaps, other_fills, k - 1);
    }
}

proof fn lemma_woven_is_covered(gaps: Seq<Seq<char>>, fills: Seq<Seq<char>>, k: int)
    ensures
        woven(gaps, fills, k) == covered(gaps, fills, k) + gaps[if k <= 0 {
            0
        } else {
            k
        }],
    decreases k,
{
    if k > 0 {
        lemma_woven_is_covered(gaps, fills, k - 1);
        assert(woven(gaps, fills, k) =~= covered(gaps, fills, k) + gaps[k]);
    } else {
        assert(woven(gaps, fills, k) =~= covered(gaps, fills, k) + gaps[0]);
    }
}

proof fn lemma_group_texts_each(
    whole: Seq<char>,
    start: int,
    spans: Seq<Option<(usize, usize)>>,
    n: int,
)
    requires
        0 <= n,
        group_texts(whole, start, spans, n) is Some,
    ensures
        group_texts(whole, start, spans, n)->0.len() == n,
        forall|i: int|
            0 <= i < n ==> group_text(whole, start, spans[i]) == Some(
                #[trigger] group_texts(whole, start, spans, n)->0[i],
            ),
    decreases n,
{
    if n > 0 {
        lemma_group_texts_each(whole, start, spans, n - 1);
    }
}

/// The group that spans a whole match is the match.
proof fn lemma_group_of_the_whole(whole: Seq<char>, span: (usize, usize))
    requires
        span.0 <= span.1,
        encode_utf8(whole).len() == span.1 - span.0,
    ensures
        group_text(whole, span.0 as int, Some(span)) == Some(Some(whole)),
{
    let bytes = encode_utf8(whole);
    let n = bytes.len() as int;
    encode_utf8_valid_utf8(whole);
    encode_utf8_decode_utf8(whole);
    is_char_boundary_start_end_of_seq(bytes);
    assert(bytes.subrange(0, n) =~= bytes);
    assert(halves(whole, n) is Some);
    let upto = decode_utf8(bytes.subrange(0, n));
    assert(upto == whole);
    assert(halves(whole, 0) is Some);
}

proof fn lemma_laid_out_covers(text: Seq<char>, spans: Seq<Seq<Option<(usize, usize)>>>, k: int)
    requires
        0 <= k,
        laid_out(text, spans, k) is Some,
    ensures
        ({
            let all = laid_out(text, spans, k)->0;
            &&& all.gaps.len() == k
            &&& all.matches.len() == k
            &&& covered(all.gaps, wholes(all.matches), k) + all.rest == text
            &&& forall|i: int| 0 <= i < k ==> group_of(#[trigger] all.matches[i], 0) is Some
        }),
    decreases k,
{
    if k > 0 {
        lemma_laid_out_covers(text, spans, k - 1);
        let so_far = laid_out(text, spans, k - 1)->0;
        let all = laid_out(text, spans, k)->0;
        let this = spans[k - 1];
        let span = this[0]->0;
        let from = span.0 as int;
        let to = span.1 as int;
        lemma_halves(so_far.rest, from - so_far.at);
        let (gap, tail) = halves(so_far.rest, from - so_far.at)->0;
        lemma_halves(tail, to - from);
        let (whole, behind) = halves(tail, to - from)->0;
        let groups = group_texts(whole, from, this, this.len() as int)->0;
        lemma_group_texts_each(whole, from, this, this.len() as int);
        lemma_group_of_the_whole(whole, span);
        assert(groups[0] == Some(whole));
        assert(all.matches[k - 1] == groups);
        assert(wholes(all.matches)[k - 1] == whole);
        lemma_covered_agrees(
            all.gaps,
            wholes(all.matches),
            so_far.gaps,
            wholes(so_far.matches),
            k - 1,
        );
        assert(covered(all.gaps, wholes(all.matches), k) + all.rest =~= covered(
            so_far.gaps,
            wholes(so_far.matches),
            k - 1,
        ) + so_far.rest);
    } else {
        assert(covered(Seq::empty(), wholes(Seq::empty()), 0) + text =~= text);
    }
}

/// What a scan cuts a text into makes up the text: the gaps and the
/// matches, taken in turn, are the text again, and every match has its
/// whole text as group 0.
pub proof fn lemma_scan_covers_text(pattern: Seq<char>, text: Seq<char>)
    ensures
        match occurrences(pattern, text) {
            Some(found) => {
                &&& found.wf()
                &&& woven(found.gaps, wholes(found.matches), found.matches.len() as int) == text
                &&& forall|i: int|
                    0 <= i < found.matches.len() ==> group_of(#[trigger] found.matches[i], 0)
                        is Some
            },
            None => true,
        },
{
    if occurrences(pattern, text) is Some {
        let spans = regex_spans(pattern, text)->0;
        let n = spans.len() as int;
        let all = laid_out(text, spans, n)->0;
        let found = occurrences(pattern, text)->0;
        lemma_laid_out_covers(text, spans, n);
        lemma_woven_is_covered(found.gaps, wholes(found.matches), n);
        lemma_covered_agrees(found.gaps, wholes(found.matches), all.gaps, wholes(all.matches), n);
    }
}

/// Cuts `s` in two where byte `mid` of its UTF-8 form begins.
pub fn halve<'a>(s: &'a str, mid: usize) -> (r: Option<(&'a str, &'a str)>)
    ensures
        r.deep_view() == halves(s@, mid as int),
{
    if s.is_char_boundary(mid) {
        let (first, second) = s.split_at(mid);
        proof {
            encode_utf8_decode_utf8(first@);
            encode_utf8_decode_utf8(second@);
        }
        Some((first, second))
    } else {
        None
    }
}

/// Once a group cannot be cut out, the groups behind it do not help.
proof fn lemma_group_stays_lost(
    whole: Seq<char>,
    start: int,
    spans: Seq<Option<(usize, usize)>>,
    k: int,
    n: int,
)
    requires
        0 <= k <= n,
        group_texts(whole, start, spans, k) is None,
    ensures
        group_texts(whole, start, spans, n) is None,
    decreases n - k,
{
    if k < n {
        lemma_group_stays_lost(whole, start, spans, k, n - 1);
    }
}

/// Once a match cannot be cut out, the matches behind it do not help.
proof fn lemma_stays_lost(text: Seq<char>, spans: Seq<Seq<Option<(usize, usize)>>>, k: int, n: int)
    requires
        0 <= k <= n,
        laid_out(text, spans, k) is None,
    ensures
        laid_out(text, spans, n) is None,
    decreases n - k,
{
    if k < n {
        lemma_stays_lost(text, spans, k, n - 1);
    }
}

/// Cuts what one group took out of the match `whole` that begins at byte
/// `start` of the text.
fn cut_group(whole: &str, start: usize, span: &Option<(usize, usize)>) -> (r: Option<Option<String>>)
    ensures
        r.deep_view() == group_text(whole@, start as int, span.deep_view()),
{
    match span {
        None => Some(None),
        Some((from, to)) => {
            if start <= *from && *from <= *to {
                match halve(whole, *to - start) {
                    None => None,
                    Some((upto, _)) => match halve(upto, *from - start) {
                        None => None,
                        Some((_, text)) => Some(Some(text.to_owned())),
                    },
                }
            } else {
                None
            }
        },
    }
}

/// Cuts what each group took out of the match `whole` that begins at byte
/// `start` of the text.
fn cut_groups(whole: &str, start: usize, spans: &Vec<Option<(usize, usize)>>) -> (r: Option<
    Vec<Option<String>>,
>)
    ensures
        r.deep_view() == group_texts(whole@, start as int, spans.deep_view(), spans.len() as int),
{
    let mut groups: Vec<Option<String>> = Vec::new();
    let n: usize = spans.len();
    let mut i: usize = 0;
    while i < n
        invariant
            i <= n,
            n == spans.len(),
            group_texts(whole@, start as int, spans.deep_view(), i as int) == Some(
                groups.deep_view(),
            ),
        decreases n - i,
    {
        let ghost before = groups.deep_view();
        match cut_group(whole, start, &spans[i]) {
            None => {
                proof {
                    lemma_group_stays_lost(
                        whole@,
                        start as int,
                        spans.deep_view(),
                        i + 1,
                        n as int,
                    );
                }
                return None;
            },
            Some(text) => {
                groups.push(text);
                assert(groups.deep_view() =~= before.push(text.deep_view()));
            },
        }
        i += 1;
    }
    Some(groups)
}

/// Cuts one more match off a rest that begins at byte `at` of the text.
fn cut_match<'a>(rest: &'a str, at: usize, spans: &Vec<Option<(usize, usize)>>) -> (r: Option<
    (String, Vec<Option<String>>, &'a str, usize),
>)
    ensures
        match r {
            Some((gap, groups, behind, to)) => cut_off(rest@, at as int, spans.deep_view())
                == Some((gap@, groups.deep_view(), behind@, to as int)),
            None => cut_off(rest@, at as int, spans.deep_view()) is None,
        },
{
    if spans.len() == 0 {
        return None;
    }
    let (from, to) = match &spans[0] {
        Some((from, to)) => (*from, *to),
        None => {
            return None;
        },
    };
    if !(at <= from && from <= to) {
        return None;
    }
    let (gap, tail) = match halve(rest, from - at) {
        Some(cut) => cut,
        None => {
            return None;
        },
    };
    let (whole, behind) = match halve(tail, to - from) {
        Some(cut) => cut,
        None => {
            return None;
        },
    };
    match cut_groups(whole, from, spans) {
        None => None,
        Some(groups) => Some((gap.to_owned(), groups, behind, to)),
    }
}

/// Scans `text` for `pattern`.
pub fn scan(pattern: &str, text: &str) -> (r: Option<Scan>)
    ensures
        r.deep_view() == occurrences(pattern@, text@),
        r matches Some(s) ==> s.wf(),
{
    let all: Vec<Vec<Option<(usize, usize)>>> = match spans(pattern, text) {
        Some(all) => all,
        None => {
            return None;
        },
    };
    let mut gaps: Vec<String> = Vec::new();
    let mut matches: Vec<Vec<Option<String>>> = Vec::new();
    let mut rest: &str = text;
    let mut at: usize = 0;
    let n: usize = all.len();
    let mut k: usize = 0;
    assert(gaps.deep_view() =~= Seq::<Seq<char>>::empty());
    assert(matches.deep_view() =~= Seq::<Seq<Option<Seq<char>>>>::empty());
    while k < n
        invariant
            k <= n,
            n == all.len(),
            gaps.len() == k,
            matches.len() == k,
            regex_spans(pattern@, text@) == Some(all.deep_view()),
            laid_out(text@, all.deep_view(), k as int) == Some(
                Layout {
                    gaps: gaps.deep_view(),
                    matches: matches.deep_view(),
                    rest: rest@,
                    at: at as int,
                },
            ),
        decreases n - k,
    {
        let ghost gaps_before = gaps.deep_view();
        let ghost matches_before = matches.deep_view();
        match cut_match(rest, at, &all[k]) {
            None => {
                proof {
                    assert(all.deep_view()[k as int] == all[k as int].deep_view());
                    assert(laid_out(text@, all.deep_view(), k + 1) is None);
                    lemma_stays_lost(text@, all.deep_view(), k + 1, n as int);
                }
                return None;
            },
            Some((gap, groups, behind, to)) => {
                gaps.push(gap);
                matches.push(groups);
                rest = behind;
                at = to;
                assert(gaps.deep_view() =~= gaps_before.push(gap@));
                assert(matches.deep_view() =~= matches_before.push(groups.deep_view()));
            },
        }
        k += 1;
    }
    let ghost gaps_before = gaps.deep_view();
    gaps.push(rest.to_owned());
    assert(gaps.deep_view() =~= gaps_before.push(rest@));
    Some(Scan { gaps, matches })
}

/// What group `i` of a match took.
pub fn group(groups: &Vec<Option<String>>, i: usize) -> (r: Option<&String>)
    ensures
        r.deep_view() == group_of(groups.deep_view(), i as int),
{
    if i < groups.len() {
        groups[i].as_ref()
    } else {
        None
    }
}

/// Group `i` where it took part, else group `j`.
pub fn either(groups: &Vec<Option<String>>, i: usize, j: usize) -> (r: Option<&String>)
    ensures
        r.deep_view() == either_group(groups.deep_view(), i as int, j as int),
{
    match group(groups, i) {
        Some(text) => Some(text),
        None => group(groups, j),
    }
}

} // verus!
