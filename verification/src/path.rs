//! Paths as plain strings, with `/` between their components.
//!
//! Nothing here looks at a disk, and nothing is normalised: `..` and `.`
//! stay where the document wrote them, so that a reported path can be read
//! back exactly as it was put together.

use vstd::prelude::*;

verus! {

/// Whether `p` opens with a component `.` of its own (`.` or `./...`).
pub open spec fn starts_with_cur_dir(p: Seq<char>) -> bool {
    p.len() >= 1 && p[0] == '.' && (p.len() == 1 || p[1] == '/')
}

/// How many characters stand before the body of `p`: one for a leading `/`
/// or a leading component `.`, none otherwise.
pub open spec fn body_start(p: Seq<char>) -> int {
    if p.len() > 0 && (p[0] == '/' || starts_with_cur_dir(p)) {
        1
    } else {
        0
    }
}

/// Where the component that ends at `end` begins, looking no further back
/// than `lo`.
pub open spec fn component_start(p: Seq<char>, lo: int, end: int) -> int
    decreases end - lo,
{
    if end <= lo {
        lo
    } else if p[end - 1] == '/' {
        end
    } else {
        component_start(p, lo, end - 1)
    }
}

/// Where the text before a component that begins at `start` ends: its
/// separator goes with the component.
pub open spec fn before_component(lo: int, start: int) -> int {
    if start > lo {
        start - 1
    } else {
        start
    }
}

/// Whether the characters from `start` to `end` are an empty component or `.`.
pub open spec fn skippable(p: Seq<char>, start: int, end: int) -> bool {
    end == start || (end == start + 1 && p[start] == '.')
}

/// `end` moved back over every trailing separator and every trailing
/// component `.`, but never below `lo`.
pub open spec fn trimmed_end(p: Seq<char>, lo: int, end: int) -> int
    decreases end - lo,
{
    if end <= lo {
        end
    } else {
        let s = component_start(p, lo, end);
        let next = before_component(lo, s);
        if skippable(p, s, end) && next < end {
            trimmed_end(p, lo, next)
        } else {
            end
        }
    }
}

/// The bounds of the last component of `p` that is neither empty nor `.`,
/// where the body of `p` has one.
pub open spec fn last_component(p: Seq<char>) -> Option<(int, int)> {
    let lo = body_start(p);
    let e = trimmed_end(p, lo, p.len() as int);
    if e <= lo {
        None
    } else {
        Some((component_start(p, lo, e), e))
    }
}

/// The directory that holds `p`: `p` without its last component and
/// without what separated the two. Empty where `p` has no last component
/// or no directory before it.
pub open spec fn parent_of(p: Seq<char>) -> Seq<char> {
    match last_component(p) {
        None => Seq::empty(),
        Some((s, e)) => {
            let lo = body_start(p);
            p.subrange(0, trimmed_end(p, lo, before_component(lo, s)))
        },
    }
}

/// The last component of `p`, unless there is none or it is `..`.
pub open spec fn file_name_of(p: Seq<char>) -> Option<Seq<char>> {
    match last_component(p) {
        None => None,
        Some((s, e)) => if e == s + 2 && p[s] == '.' && p[s + 1] == '.' {
            None
        } else {
            Some(p.subrange(s, e))
        },
    }
}

/// The file name of `p`, empty where it has none.
pub open spec fn name_of(p: Seq<char>) -> Seq<char> {
    match file_name_of(p) {
        Some(name) => name,
        None => Seq::empty(),
    }
}

/// The last position before `end` where `s` holds `c`; -1 where there is none.
pub open spec fn last_position(s: Seq<char>, c: char, end: int) -> int
    decreases end,
{
    if end <= 0 {
        -1
    } else if s[end - 1] == c {
        end - 1
    } else {
        last_position(s, c, end - 1)
    }
}

/// What follows the last `.` of the file name of `p`, where that `.` is
/// not the name's first character.
pub open spec fn extension_of(p: Seq<char>) -> Option<Seq<char>> {
    match file_name_of(p) {
        None => None,
        Some(name) => {
            let dot = last_position(name, '.', name.len() as int);
            if dot >= 1 {
                Some(name.subrange(dot + 1, name.len() as int))
            } else {
                None
            }
        },
    }
}

/// `reference` as seen from the directory `root`: the reference alone where
/// it starts at `/`, otherwise the two with exactly one `/` between them
/// (none after an empty `root`).
pub open spec fn joined(root: Seq<char>, reference: Seq<char>) -> Seq<char> {
    if reference.len() > 0 && reference[0] == '/' {
        reference
    } else if root.len() > 0 && root.last() != '/' {
        root + seq!['/'] + reference
    } else {
        root + reference
    }
}

fn leading(p: &str, n: usize) -> (lo: usize)
    requires
        n == p@.len(),
    ensures
        lo == body_start(p@),
        lo <= n,
{
    if n == 0 {
        return 0;
    }
    let first: char = p.get_char(0);
    if first == '/' {
        1
    } else if first == '.' && (n == 1 || p.get_char(1) == '/') {
        1
    } else {
        0
    }
}

fn start_of_component(p: &str, lo: usize, end: usize) -> (s: usize)
    requires
        lo <= end <= p@.len(),
    ensures
        s == component_start(p@, lo as int, end as int),
        lo <= s <= end,
{
    let mut i: usize = end;
    while i > lo && p.get_char(i - 1) != '/'
        invariant
            lo <= i <= end,
            end <= p@.len(),
            component_start(p@, lo as int, end as int) == component_start(p@, lo as int, i as int),
        decreases i,
    {
        i -= 1;
    }
    i
}

fn trim_end(p: &str, lo: usize, end: usize) -> (e: usize)
    requires
        lo <= end <= p@.len(),
    ensures
        e == trimmed_end(p@, lo as int, end as int),
        lo <= e <= end,
    decreases end - lo,
{
    if end <= lo {
        return end;
    }
    let s: usize = start_of_component(p, lo, end);
    if end == s || (end == s + 1 && p.get_char(s) == '.') {
        let next: usize = if s > lo {
            s - 1
        } else {
            s
        };
        trim_end(p, lo, next)
    } else {
        end
    }
}

/// The directory that holds `path`.
pub fn parent(path: &str) -> (r: String)
    ensures
        r@ == parent_of(path@),
{
    let n: usize = path.unicode_len();
    let lo: usize = leading(path, n);
    let e: usize = trim_end(path, lo, n);
    if e <= lo {
        return String::new();
    }
    let s: usize = start_of_component(path, lo, e);
    let next: usize = if s > lo {
        s - 1
    } else {
        s
    };
    let cut: usize = trim_end(path, lo, next);
    path.substring_char(0, cut).to_owned()
}

/// The last component of `path`, unless there is none or it is `..`.
pub fn file_name(path: &str) -> (r: Option<String>)
    ensures
        r.deep_view() == file_name_of(path@),
{
    let n: usize = path.unicode_len();
    let lo: usize = leading(path, n);
    let e: usize = trim_end(path, lo, n);
    if e <= lo {
        return None;
    }
    let s: usize = start_of_component(path, lo, e);
    if e - s == 2 && path.get_char(s) == '.' && path.get_char(s + 1) == '.' {
        return None;
    }
    Some(path.substring_char(s, e).to_owned())
}

/// The file name of `path`, empty where it has none.
pub fn name(path: &str) -> (r: String)
    ensures
        r@ == name_of(path@),
{
    match file_name(path) {
        Some(name) => name,
        None => String::new(),
    }
}

/// What follows the last `.` of the file name of `path`.
pub fn extension(path: &str) -> (r: Option<String>)
    ensures
        r.deep_view() == extension_of(path@),
{
    match file_name(path) {
        None => None,
        Some(name) => {
            let n: usize = name.as_str().unicode_len();
            let mut i: usize = n;
            while i > 0 && name.as_str().get_char(i - 1) != '.'
                invariant
                    i <= n,
                    n == name@.len(),
                    last_position(name@, '.', n as int) == last_position(name@, '.', i as int),
                decreases i,
            {
                i -= 1;
            }
            if i >= 2 {
                Some(name.as_str().substring_char(i, n).to_owned())
            } else {
                None
            }
        },
    }
}

/// `reference` as seen from the directory `root`.
pub fn join(root: &str, reference: &str) -> (r: String)
    ensures
        r@ == joined(root@, reference@),
{
    let n: usize = reference.unicode_len();
    if n > 0 && reference.get_char(0) == '/' {
        return reference.to_owned();
    }
    let m: usize = root.unicode_len();
    let mut r: String = root.to_owned();
    if m > 0 && root.get_char(m - 1) != '/' {
        proof {
            reveal_strlit("/");
        }
        r.append("/");
    }
    r.append(reference);
    r
}

} // verus!
