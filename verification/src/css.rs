//! Stylesheets: expanding `@import`, embedding what `url()` refers to, and
//! turning a `link` element into a `style` element.

use vstd::prelude::*;
use crate::embed::{data_uri, embed_by_name, mime_by_path};
use crate::error::{Error, Failure, Kind};
use crate::markup::{is_remote, remote, Change, Edit, Element, Tag};
use crate::files::{text_at, Files};
use crate::path::{join, joined, name, name_of, parent, parent_of};
use crate::scan::{
    either,
    either_group,
    group,
    group_of,
    lemma_scan_covers_text,
    occurrences,
    scan,
    wholes,
    woven,
    Occurrences,
    Scan,
};
use crate::text::{
    before,
    cut_before,
    deep,
    ends_with,
    extend,
    holds,
    lemma_position_bounds,
    lemma_position_is_first,
    no_strings,
    one_string,
    same,
    starts_with,
    with_string,
};

verus! {

/// An `@import` of a quoted path, up to its semicolon. The path ends at
/// the first quote that closes it, so that each statement is a match of
/// its own, also where several stand in one line.
pub const IMPORT_PATTERN: &'static str = r#"@import\s+("([^"]*)"|'([^']*)')\s*;"#;

/// A `url()` around a quoted path, with the `format()` that may follow it.
pub const URL_PATTERN: &'static str =
    r#"\burl\(("([^"]*)"|'([^']*)')\)(\s*format\(("([^"]*)"|'([^']*)')\))?"#;

/// What rewriting a stretch of a stylesheet gives: the new text, the files
/// that were embedded, and the files that were looked for in vain.
pub struct Pass {
    pub text: Seq<char>,
    pub deps: Seq<Seq<char>>,
    pub missing: Seq<Seq<char>>,
}

/// What rewriting a stretch of a stylesheet gives, as strings.
#[derive(Debug, PartialEq, Eq)]
pub struct Rewritten {
    pub text: String,
    pub deps: Vec<String>,
    pub missing: Vec<String>,
}

impl DeepView for Rewritten {
    type V = Pass;

    open spec fn deep_view(&self) -> Pass {
        Pass {
            text: self.text@,
            deps: self.deps.deep_view(),
            missing: self.missing.deep_view(),
        }
    }
}

/// Whether the body of a `url()` names something that is not a local file.
pub open spec fn excluded(body: Seq<char>) -> bool {
    "data:"@.is_prefix_of(body) || "http:"@.is_prefix_of(body) || "https:"@.is_prefix_of(body)
}

/// The path in the body of a `url()`: the body up to its first `?`, and of
/// that what stands before the first `#`.
pub open spec fn reference_path(body: Seq<char>) -> Seq<char> {
    before(before(body, '?'), '#')
}

/// The `format()` clause that goes back in behind a rewritten `url()`.
pub open spec fn format_clause(groups: Seq<Option<Seq<char>>>) -> Seq<char> {
    match either_group(groups, 6, 7) {
        Some(format) => " format(\""@ + format + "\")"@,
        None => Seq::empty(),
    }
}

/// What one match of [`URL_PATTERN`] becomes.
///
/// A body that is not a local file leaves the match as it was written. A
/// file that does not exist leaves nothing and is recorded as missing. A
/// file that exists is embedded and recorded as a dependency.
pub open spec fn url_rewrite(
    groups: Seq<Option<Seq<char>>>,
    root: Seq<char>,
    files: Map<Seq<char>, Seq<u8>>,
) -> Pass {
    let whole = match group_of(groups, 0) {
        Some(text) => text,
        None => Seq::empty(),
    };
    match either_group(groups, 2, 3) {
        None => Pass { text: whole, deps: Seq::empty(), missing: Seq::empty() },
        Some(body) => if excluded(body) {
            Pass { text: whole, deps: Seq::empty(), missing: Seq::empty() }
        } else {
            let path = joined(root, reference_path(body));
            if files.contains_key(path) {
                Pass {
                    text: "url(\""@ + data_uri(mime_by_path(path), files[path]) + "\")"@
                        + format_clause(groups),
                    deps: seq![path],
                    missing: Seq::empty(),
                }
            } else {
                Pass { text: Seq::empty(), deps: Seq::empty(), missing: seq![path] }
            }
        },
    }
}

/// The text up to and with the gap behind match `k - 1`, with the first `k`
/// matches rewritten, and what rewriting them recorded.
pub open spec fn url_pass(
    found: Occurrences,
    root: Seq<char>,
    files: Map<Seq<char>, Seq<u8>>,
    k: int,
) -> Pass
    decreases k,
{
    if k <= 0 {
        Pass { text: found.gaps[0], deps: Seq::empty(), missing: Seq::empty() }
    } else {
        let so_far = url_pass(found, root, files, k - 1);
        let this = url_rewrite(found.matches[k - 1], root, files);
        Pass {
            text: so_far.text + this.text + found.gaps[k],
            deps: so_far.deps + this.deps,
            missing: so_far.missing + this.missing,
        }
    }
}

/// How a pass ends: with the files that were missing, if any was, else
/// with the new text and its dependencies.
pub open spec fn concluded(pass: Pass) -> Result<(Seq<char>, Seq<Seq<char>>), Seq<Seq<char>>> {
    if pass.missing.len() > 0 {
        Err(pass.missing)
    } else {
        Ok((pass.text, pass.deps))
    }
}

/// A stylesheet with every local `url()` embedded.
///
/// Every match of [`URL_PATTERN`] is rewritten, each judged on its own: a
/// `url()` that points away from the local files spares no other. A
/// `url()` without quotes is no match and stays as it is.
pub open spec fn urls_inlined(css: Seq<char>, root: Seq<char>, files: Map<Seq<char>, Seq<u8>>)
    -> Result<(Seq<char>, Seq<Seq<char>>), Seq<Seq<char>>> {
    match occurrences(URL_PATTERN@, css) {
        None => Ok((css, Seq::empty())),
        Some(found) => concluded(url_pass(found, root, files, found.matches.len() as int)),
    }
}

/// Why the imports of a stylesheet could not all be expanded.
pub enum ImportFailure {
    /// Files that were imported and do not exist.
    Missing(Seq<Seq<char>>),
    /// A file that imports itself, directly or through others.
    Cyclic(Seq<char>),
    /// A file that exists and is no UTF-8 text.
    NotText(Seq<char>),
}

/// Why the imports of a stylesheet could not all be expanded, as strings.
#[derive(Debug, PartialEq, Eq)]
pub enum ImportError {
    /// Files that were imported and do not exist.
    Missing(Vec<String>),
    /// A file that imports itself, directly or through others.
    Cyclic(String),
    /// A file that exists and is no UTF-8 text.
    NotText(String),
}

impl DeepView for ImportError {
    type V = ImportFailure;

    open spec fn deep_view(&self) -> ImportFailure {
        match self {
            ImportError::Missing(paths) => ImportFailure::Missing(paths.deep_view()),
            ImportError::Cyclic(path) => ImportFailure::Cyclic(path@),
            ImportError::NotText(path) => ImportFailure::NotText(path@),
        }
    }
}

/// The files that are not being expanded: those of `files` that `chain`
/// does not name.
pub open spec fn unvisited(files: Map<Seq<char>, Seq<u8>>, chain: Seq<Seq<char>>) -> Set<
    Seq<char>,
> {
    Set::new(|path: Seq<char>| files.contains_key(path) && !chain.contains(path))
}

/// Taking up a file that was not being expanded leaves fewer such files.
pub proof fn lemma_unvisited_shrinks(
    files: Map<Seq<char>, Seq<u8>>,
    chain: Seq<Seq<char>>,
    path: Seq<char>,
)
    requires
        files.dom().finite(),
        files.contains_key(path),
        !chain.contains(path),
    ensures
        unvisited(files, chain).finite(),
        unvisited(files, chain.push(path)).len() < unvisited(files, chain).len(),
{
    let a = unvisited(files, chain);
    let b = unvisited(files, chain.push(path));
    vstd::set_lib::lemma_len_subset(a, files.dom());
    assert forall|p: Seq<char>| b.contains(p) == a.remove(path).contains(p) by {
        assert(chain.push(path)[chain.len() as int] == path);
        if chain.contains(p) {
            let i = choose|i: int| 0 <= i < chain.len() && chain[i] == p;
            assert(chain.push(path)[i] == p);
        }
    }
    assert(b =~= a.remove(path));
}

/// What one match of [`IMPORT_PATTERN`] becomes, while the stylesheets
/// named in `chain` are being expanded.
///
/// A file that does not exist leaves nothing and is recorded as missing. A
/// file that is already being expanded, or that is no text, ends the
/// expansion. Any other file is read, has its own `url()`s embedded and
/// then its own imports expanded, both from the directory that holds it,
/// and takes the place of the match. It is recorded as a dependency,
/// before what it embeds and imports.
pub open spec fn import_rewrite(
    groups: Seq<Option<Seq<char>>>,
    root: Seq<char>,
    files: Map<Seq<char>, Seq<u8>>,
    chain: Seq<Seq<char>>,
) -> Result<Pass, ImportFailure>
    decreases unvisited(files, chain).len(), 0int, 0int,
    when files.dom().finite()
{
    let whole = match group_of(groups, 0) {
        Some(text) => text,
        None => Seq::empty(),
    };
    match either_group(groups, 2, 3) {
        None => Ok(Pass { text: whole, deps: Seq::empty(), missing: Seq::empty() }),
        Some(target) => {
            let path = joined(root, target);
            if !files.contains_key(path) {
                Ok(Pass { text: Seq::empty(), deps: Seq::empty(), missing: seq![path] })
            } else if chain.contains(path) {
                Err(ImportFailure::Cyclic(path))
            } else {
                match text_at(files, path) {
                    None => Err(ImportFailure::NotText(path)),
                    Some(text) => {
                        let dir = parent_of(path);
                        match urls_inlined(text, dir, files) {
                            Err(missing) => Ok(
                                Pass { text: Seq::empty(), deps: seq![path], missing },
                            ),
                            Ok((with_urls, url_deps)) => {
                                proof {
                                    lemma_unvisited_shrinks(files, chain, path);
                                }
                                match imports_expanded(with_urls, dir, files, chain.push(path)) {
                                    Err(e) => Err(e),
                                    Ok(nested) => if nested.missing.len() > 0 {
                                        Ok(
                                            Pass {
                                                text: Seq::empty(),
                                                deps: seq![path] + url_deps,
                                                missing: nested.missing,
                                            },
                                        )
                                    } else {
                                        Ok(
                                            Pass {
                                                text: nested.text,
                                                deps: seq![path] + url_deps + nested.deps,
                                                missing: Seq::empty(),
                                            },
                                        )
                                    },
                                }
                            },
                        }
                    },
                }
            }
        },
    }
}

/// The text up to and with the gap behind match `k - 1`, with the first `k`
/// imports expanded, and what expanding them recorded; or what ended the
/// expansion.
pub open spec fn import_pass(
    found: Occurrences,
    root: Seq<char>,
    files: Map<Seq<char>, Seq<u8>>,
    chain: Seq<Seq<char>>,
    k: int,
) -> Result<Pass, ImportFailure>
    decreases unvisited(files, chain).len(), 1int, k,
    when files.dom().finite()
{
    if k <= 0 {
        Ok(Pass { text: found.gaps[0], deps: Seq::empty(), missing: Seq::empty() })
    } else {
        match import_pass(found, root, files, chain, k - 1) {
            Err(e) => Err(e),
            Ok(so_far) => match import_rewrite(found.matches[k - 1], root, files, chain) {
                Err(e) => Err(e),
                Ok(this) => Ok(
                    Pass {
                        text: so_far.text + this.text + found.gaps[k],
                        deps: so_far.deps + this.deps,
                        missing: so_far.missing + this.missing,
                    },
                ),
            },
        }
    }
}

/// A stylesheet with every match of [`IMPORT_PATTERN`] rewritten, while
/// the stylesheets named in `chain` are being expanded.
pub open spec fn imports_expanded(
    css: Seq<char>,
    root: Seq<char>,
    files: Map<Seq<char>, Seq<u8>>,
    chain: Seq<Seq<char>>,
) -> Result<Pass, ImportFailure>
    decreases unvisited(files, chain).len(), 2int, 0int,
    when files.dom().finite()
{
    match occurrences(IMPORT_PATTERN@, css) {
        None => Ok(Pass { text: css, deps: Seq::empty(), missing: Seq::empty() }),
        Some(found) => import_pass(found, root, files, chain, found.matches.len() as int),
    }
}

/// How an expansion ends: with what ended it, else with the files that
/// were missing, if any was, else with the new text and its dependencies.
pub open spec fn import_concluded(r: Result<Pass, ImportFailure>) -> Result<
    (Seq<char>, Seq<Seq<char>>),
    ImportFailure,
> {
    match r {
        Err(e) => Err(e),
        Ok(pass) => if pass.missing.len() > 0 {
            Err(ImportFailure::Missing(pass.missing))
        } else {
            Ok((pass.text, pass.deps))
        },
    }
}

/// A stylesheet with its imports expanded, all the way down.
pub open spec fn imports_inlined(
    css: Seq<char>,
    root: Seq<char>,
    files: Map<Seq<char>, Seq<u8>>,
    chain: Seq<Seq<char>>,
) -> Result<(Seq<char>, Seq<Seq<char>>), ImportFailure> {
    import_concluded(imports_expanded(css, root, files, chain))
}

/// Whether the body of a `url()` names something that is not a local file.
pub fn is_excluded(body: &str) -> (b: bool)
    ensures
        b == excluded(body@),
{
    starts_with(body, "data:") || starts_with(body, "http:") || starts_with(body, "https:")
}

/// Rewrites one match of [`URL_PATTERN`], given by its groups.
pub fn rewrite_url(groups: &Vec<Option<String>>, root: &str, files: &Files) -> (r: Rewritten)
    ensures
        r.deep_view() == url_rewrite(groups.deep_view(), root@, files@),
{
    let whole: String = match group(groups, 0) {
        Some(text) => text.clone(),
        None => String::new(),
    };
    let body: &String = match either(groups, 2, 3) {
        Some(body) => body,
        None => {
            return Rewritten { text: whole, deps: no_strings(), missing: no_strings() };
        },
    };
    if is_excluded(body.as_str()) {
        return Rewritten { text: whole, deps: no_strings(), missing: no_strings() };
    }
    let upto_query: String = cut_before(body.as_str(), '?');
    let reference: String = cut_before(upto_query.as_str(), '#');
    let path: String = join(root, reference.as_str());
    match files.get(path.as_str()) {
        None => Rewritten { text: String::new(), deps: no_strings(), missing: one_string(path) },
        Some(contents) => {
            let mut text: String = "url(\"".to_owned();
            let uri: String = embed_by_name(path.as_str(), contents);
            text.append(uri.as_str());
            text.append("\")");
            if let Some(format) = either(groups, 6, 7) {
                text.append(" format(\"");
                text.append(format.as_str());
                text.append("\")");
                assert(text@ =~= "url(\""@ + uri@ + "\")"@ + (" format(\""@ + format@ + "\")"@));
            }
            Rewritten { text, deps: one_string(path), missing: no_strings() }
        },
    }
}

/// Rewrites every match of a scan for [`URL_PATTERN`] and puts the text
/// back together.
pub fn expand_urls(found: &Scan, root: &str, files: &Files) -> (r: Result<
    (String, Vec<String>),
    Vec<String>,
>)
    requires
        found.wf(),
    ensures
        deep(r) == concluded(
            url_pass(found.deep_view(), root@, files@, found.matches.len() as int),
        ),
{
    let mut text: String = found.gaps[0].clone();
    let mut deps: Vec<String> = no_strings();
    let mut missing: Vec<String> = no_strings();
    let n: usize = found.matches.len();
    let mut k: usize = 0;
    while k < n
        invariant
            k <= n,
            n == found.matches.len(),
            found.wf(),
            text@ == url_pass(found.deep_view(), root@, files@, k as int).text,
            deps.deep_view() == url_pass(found.deep_view(), root@, files@, k as int).deps,
            missing.deep_view() == url_pass(found.deep_view(), root@, files@, k as int).missing,
        decreases n - k,
    {
        let this: Rewritten = rewrite_url(&found.matches[k], root, files);
        text.append(this.text.as_str());
        text.append(found.gaps[k + 1].as_str());
        extend(&mut deps, this.deps);
        extend(&mut missing, this.missing);
        k += 1;
    }
    if missing.len() > 0 {
        Err(missing)
    } else {
        Ok((text, deps))
    }
}

/// Embeds every local file that a `url()` of `css` refers to, resolving
/// references against `root`.
///
/// Gives the new text with the embedded files in the order of their
/// `url()`s, or, if any file is missing, all the missing paths.
pub fn inline_urls(css: String, root: &str, files: &Files) -> (r: Result<
    (String, Vec<String>),
    Vec<String>,
>)
    ensures
        deep(r) == urls_inlined(css@, root@, files@),
{
    match scan(URL_PATTERN, css.as_str()) {
        None => Ok((css, no_strings())),
        Some(found) => expand_urls(&found, root, files),
    }
}

/// Once an expansion has ended, the matches that follow change nothing.
proof fn lemma_halt_stays(
    found: Occurrences,
    root: Seq<char>,
    files: Map<Seq<char>, Seq<u8>>,
    chain: Seq<Seq<char>>,
    k: int,
    n: int,
)
    requires
        files.dom().finite(),
        0 <= k <= n,
        import_pass(found, root, files, chain, k) is Err,
    ensures
        import_pass(found, root, files, chain, n) == import_pass(found, root, files, chain, k),
    decreases n - k,
{
    if k < n {
        lemma_halt_stays(found, root, files, chain, k, n - 1);
    }
}

/// Rewrites one match of [`IMPORT_PATTERN`], given by its groups, while
/// the stylesheets named in `chain` are being expanded.
pub fn expand_import(
    groups: &Vec<Option<String>>,
    root: &str,
    files: &Files,
    chain: &Vec<String>,
) -> (r: Result<Rewritten, ImportError>)
    ensures
        deep(r) == import_rewrite(groups.deep_view(), root@, files@, chain.deep_view()),
    decreases unvisited(files@, chain.deep_view()).len(), 0int, 0int,
{
    proof {
        files.lemma_finite();
    }
    let whole: String = match group(groups, 0) {
        Some(text) => text.clone(),
        None => String::new(),
    };
    let target: &String = match either(groups, 2, 3) {
        Some(target) => target,
        None => {
            return Ok(Rewritten { text: whole, deps: no_strings(), missing: no_strings() });
        },
    };
    let path: String = join(root, target.as_str());
    if !files.contains(path.as_str()) {
        return Ok(
            Rewritten { text: String::new(), deps: no_strings(), missing: one_string(path) },
        );
    }
    if holds(chain, path.as_str()) {
        return Err(ImportError::Cyclic(path));
    }
    let text: String = match files.text(path.as_str()) {
        Some(text) => text,
        None => {
            return Err(ImportError::NotText(path));
        },
    };
    let dir: String = parent(path.as_str());
    match inline_urls(text, dir.as_str(), files) {
        Err(missing) => Ok(Rewritten { text: String::new(), deps: one_string(path), missing }),
        Ok((with_urls, url_deps)) => {
            let longer: Vec<String> = with_string(chain, path.clone());
            proof {
                lemma_unvisited_shrinks(files@, chain.deep_view(), path@);
            }
            match expand_stylesheet(with_urls, dir.as_str(), files, &longer) {
                Err(e) => Err(e),
                Ok(nested) => {
                    let mut deps: Vec<String> = one_string(path);
                    extend(&mut deps, url_deps);
                    if nested.missing.len() > 0 {
                        Ok(Rewritten { text: String::new(), deps, missing: nested.missing })
                    } else {
                        extend(&mut deps, nested.deps);
                        Ok(Rewritten { text: nested.text, deps, missing: no_strings() })
                    }
                },
            }
        },
    }
}

/// Rewrites every match of a scan for [`IMPORT_PATTERN`] and puts the text
/// back together, while the stylesheets named in `chain` are being
/// expanded.
pub fn expand_imports(found: &Scan, root: &str, files: &Files, chain: &Vec<String>) -> (r: Result<
    Rewritten,
    ImportError,
>)
    requires
        found.wf(),
    ensures
        deep(r) == import_pass(
            found.deep_view(),
            root@,
            files@,
            chain.deep_view(),
            found.matches.len() as int,
        ),
    decreases unvisited(files@, chain.deep_view()).len(), 1int, found.matches.len(),
{
    proof {
        files.lemma_finite();
    }
    let mut text: String = found.gaps[0].clone();
    let mut deps: Vec<String> = no_strings();
    let mut missing: Vec<String> = no_strings();
    let n: usize = found.matches.len();
    let mut k: usize = 0;
    while k < n
        invariant
            k <= n,
            n == found.matches.len(),
            found.wf(),
            files@.dom().finite(),
            import_pass(found.deep_view(), root@, files@, chain.deep_view(), k as int) == Ok::<
                Pass,
                ImportFailure,
            >(Pass { text: text@, deps: deps.deep_view(), missing: missing.deep_view() }),
        decreases n - k,
    {
        match expand_import(&found.matches[k], root, files, chain) {
            Err(e) => {
                proof {
                    lemma_halt_stays(
                        found.deep_view(),
                        root@,
                        files@,
                        chain.deep_view(),
                        k + 1,
                        n as int,
                    );
                }
                return Err(e);
            },
            Ok(this) => {
                text.append(this.text.as_str());
                text.append(found.gaps[k + 1].as_str());
                extend(&mut deps, this.deps);
                extend(&mut missing, this.missing);
            },
        }
        k += 1;
    }
    Ok(Rewritten { text, deps, missing })
}

/// Rewrites every `@import` of `css`, while the stylesheets named in
/// `chain` are being expanded.
pub fn expand_stylesheet(css: String, root: &str, files: &Files, chain: &Vec<String>) -> (r: Result<
    Rewritten,
    ImportError,
>)
    ensures
        deep(r) == imports_expanded(css@, root@, files@, chain.deep_view()),
    decreases unvisited(files@, chain.deep_view()).len(), 2int, 0int,
{
    proof {
        files.lemma_finite();
    }
    match scan(IMPORT_PATTERN, css.as_str()) {
        None => Ok(Rewritten { text: css, deps: no_strings(), missing: no_strings() }),
        Some(found) => expand_imports(&found, root, files, chain),
    }
}

/// Replaces every `@import` of `css` by the stylesheet it names, resolved
/// against `root`, with that stylesheet's own `url()`s embedded and its own
/// imports expanded in turn. `chain` names the stylesheets that are being
/// expanded already: none of them may be imported again.
///
/// Gives the new text with the files that went into it, depth first; or
/// all the missing paths, if any file is missing; or the file at which the
/// expansion had to end.
pub fn inline_imports(css: String, root: &str, files: &Files, chain: &Vec<String>) -> (r: Result<
    (String, Vec<String>),
    ImportError,
>)
    ensures
        deep(r) == imports_inlined(css@, root@, files@, chain.deep_view()),
{
    match expand_stylesheet(css, root, files, chain) {
        Err(e) => Err(e),
        Ok(pass) => if pass.missing.len() > 0 {
            Err(ImportError::Missing(pass.missing))
        } else {
            Ok((pass.text, pass.deps))
        },
    }
}

/// A `url()` whose body begins with `data:`, `http:` or `https:` is never
/// rewritten: it stays as it was written, is no dependency and is not
/// missing.
pub proof fn lemma_remote_url_untouched(
    groups: Seq<Option<Seq<char>>>,
    root: Seq<char>,
    files: Map<Seq<char>, Seq<u8>>,
)
    requires
        group_of(groups, 0) is Some,
        either_group(groups, 2, 3) matches Some(body) && excluded(body),
    ensures
        url_rewrite(groups, root, files).text == group_of(groups, 0)->0,
        url_rewrite(groups, root, files).deps == Seq::<Seq<char>>::empty(),
        url_rewrite(groups, root, files).missing == Seq::<Seq<char>>::empty(),
{
}

/// A stylesheet in which no `url()` names a local file embeds no file and
/// misses none.
pub proof fn lemma_remote_urls_leave_no_trace(
    found: Occurrences,
    root: Seq<char>,
    files: Map<Seq<char>, Seq<u8>>,
    k: int,
)
    requires
        found.wf(),
        0 <= k <= found.matches.len(),
        forall|i: int|
            0 <= i < found.matches.len() ==> (#[trigger] either_group(found.matches[i], 2, 3)
                matches Some(body) ==> excluded(body)),
    ensures
        url_pass(found, root, files, k).deps == Seq::<Seq<char>>::empty(),
        url_pass(found, root, files, k).missing == Seq::<Seq<char>>::empty(),
    decreases k,
{
    if k > 0 {
        lemma_remote_urls_leave_no_trace(found, root, files, k - 1);
        assert(either_group(found.matches[k - 1], 2, 3) matches Some(body) ==> excluded(body));
    }
}

/// Whether each of `paths` is a file of `files`.
pub open spec fn all_present(files: Map<Seq<char>, Seq<u8>>, paths: Seq<Seq<char>>) -> bool {
    forall|j: int| 0 <= j < paths.len() ==> files.contains_key(#[trigger] paths[j])
}

/// Whether none of `paths` is a file of `files`.
pub open spec fn none_present(files: Map<Seq<char>, Seq<u8>>, paths: Seq<Seq<char>>) -> bool {
    forall|j: int| 0 <= j < paths.len() ==> !files.contains_key(#[trigger] paths[j])
}

/// The path at which a `url()` looks for its file, where it names a local
/// file at all.
pub open spec fn url_target(groups: Seq<Option<Seq<char>>>, root: Seq<char>) -> Option<Seq<char>> {
    match either_group(groups, 2, 3) {
        None => None,
        Some(body) => if excluded(body) {
            None
        } else {
            Some(joined(root, reference_path(body)))
        },
    }
}

/// The paths at which the first `k` of the `url()`s look for their files,
/// in the order of the text, each as often as it is named.
pub open spec fn url_targets(found: Occurrences, root: Seq<char>, k: int) -> Seq<Seq<char>>
    decreases k,
{
    if k <= 0 {
        Seq::empty()
    } else {
        match url_target(found.matches[k - 1], root) {
            None => url_targets(found, root, k - 1),
            Some(path) => url_targets(found, root, k - 1).push(path),
        }
    }
}

/// What a pass over the `url()`s records is what there is. Every file that
/// it embedded exists, and no file that it reports missing does. Nothing
/// is missing exactly when every path that a `url()` looks up exists; the
/// files embedded are then those paths, in the order of the text, nothing
/// left out and nothing taken together.
pub proof fn lemma_url_files_recorded(
    found: Occurrences,
    root: Seq<char>,
    files: Map<Seq<char>, Seq<u8>>,
    k: int,
)
    requires
        0 <= k <= found.matches.len(),
    ensures
        all_present(files, url_pass(found, root, files, k).deps),
        none_present(files, url_pass(found, root, files, k).missing),
        url_pass(found, root, files, k).missing.len() == 0 <==> all_present(
            files,
            url_targets(found, root, k),
        ),
        url_pass(found, root, files, k).missing.len() == 0 ==> url_pass(found, root, files, k).deps
            == url_targets(found, root, k),
    decreases k,
{
    if k > 0 {
        lemma_url_files_recorded(found, root, files, k - 1);
        let so_far = url_pass(found, root, files, k - 1);
        let this = url_rewrite(found.matches[k - 1], root, files);
        let now = url_pass(found, root, files, k);
        let before = url_targets(found, root, k - 1);
        let targets = url_targets(found, root, k);
        assert forall|j: int| 0 <= j < now.deps.len() implies files.contains_key(
            #[trigger] now.deps[j],
        ) by {
            if j < so_far.deps.len() {
                assert(now.deps[j] == so_far.deps[j]);
            } else {
                assert(now.deps[j] == this.deps[j - so_far.deps.len()]);
            }
        }
        assert forall|j: int| 0 <= j < now.missing.len() implies !files.contains_key(
            #[trigger] now.missing[j],
        ) by {
            if j < so_far.missing.len() {
                assert(now.missing[j] == so_far.missing[j]);
            } else {
                assert(now.missing[j] == this.missing[j - so_far.missing.len()]);
            }
        }
        match url_target(found.matches[k - 1], root) {
            None => {
                assert(now.missing =~= so_far.missing);
                assert(now.deps =~= so_far.deps);
            },
            Some(path) => {
                assert(targets[before.len() as int] == path);
                if all_present(files, targets) {
                    assert(files.contains_key(targets[before.len() as int]));
                    assert forall|j: int| 0 <= j < before.len() implies files.contains_key(
                        #[trigger] before[j],
                    ) by {
                        assert(targets[j] == before[j]);
                    }
                }
                if files.contains_key(path) {
                    assert(now.missing =~= so_far.missing);
                    assert(now.deps =~= so_far.deps.push(path));
                } else {
                    assert(now.missing =~= so_far.missing.push(path));
                }
            },
        }
    }
}

/// What inlining the `url()`s of a stylesheet records is what there is:
/// every file embedded exists; where it fails, at least one file is
/// reported, and none of those reported exists. Where it succeeds, the
/// files embedded are the paths that the `url()`s look up against `root`,
/// in the order of the text.
pub proof fn lemma_urls_inlined_recorded(
    css: Seq<char>,
    root: Seq<char>,
    files: Map<Seq<char>, Seq<u8>>,
)
    ensures
        match urls_inlined(css, root, files) {
            Ok((_, deps)) => all_present(files, deps),
            Err(missing) => missing.len() > 0 && none_present(files, missing),
        },
        match occurrences(URL_PATTERN@, css) {
            Some(found) => urls_inlined(css, root, files) matches Ok((_, deps)) ==> deps
                == url_targets(found, root, found.matches.len() as int),
            None => true,
        },
{
    if occurrences(URL_PATTERN@, css) is Some {
        let found = occurrences(URL_PATTERN@, css)->0;
        lemma_url_files_recorded(found, root, files, found.matches.len() as int);
    }
}

/// What each `url()` of a scan becomes.
pub open spec fn url_fills(found: Occurrences, root: Seq<char>, files: Map<Seq<char>, Seq<u8>>)
    -> Seq<Seq<char>> {
    Seq::new(found.matches.len(), |i: int| url_rewrite(found.matches[i], root, files).text)
}

proof fn lemma_url_pass_text(
    found: Occurrences,
    root: Seq<char>,
    files: Map<Seq<char>, Seq<u8>>,
    k: int,
)
    requires
        0 <= k <= found.matches.len(),
    ensures
        url_pass(found, root, files, k).text == woven(
            found.gaps,
            url_fills(found, root, files),
            k,
        ),
    decreases k,
{
    if k > 0 {
        lemma_url_pass_text(found, root, files, k - 1);
    }
}

/// Outside its `url()`s a stylesheet stays as it is. The text is its gaps
/// and its `url()`s in turn, and what comes out is the same gaps with what
/// each `url()` became between them.
pub proof fn lemma_urls_rewritten_in_place(
    css: Seq<char>,
    root: Seq<char>,
    files: Map<Seq<char>, Seq<u8>>,
)
    ensures
        match occurrences(URL_PATTERN@, css) {
            Some(found) => {
                &&& css == woven(
                    found.gaps,
                    wholes(found.matches),
                    found.matches.len() as int,
                )
                &&& urls_inlined(css, root, files) matches Ok((text, _)) ==> text == woven(
                    found.gaps,
                    url_fills(found, root, files),
                    found.matches.len() as int,
                )
            },
            None => urls_inlined(css, root, files) == Ok::<
                (Seq<char>, Seq<Seq<char>>),
                Seq<Seq<char>>,
            >((css, Seq::empty())),
        },
{
    lemma_scan_covers_text(URL_PATTERN@, css);
    if occurrences(URL_PATTERN@, css) is Some {
        let found = occurrences(URL_PATTERN@, css)->0;
        lemma_url_pass_text(found, root, files, found.matches.len() as int);
    }
}

/// A stylesheet in which no `url()` names a local file comes back as it
/// is, with no file embedded. So what was embedded once is never embedded
/// again: a `data:` URI names no local file.
pub proof fn lemma_remote_stylesheet_unchanged(
    css: Seq<char>,
    root: Seq<char>,
    files: Map<Seq<char>, Seq<u8>>,
)
    requires
        occurrences(URL_PATTERN@, css) matches Some(found) ==> forall|i: int|
            0 <= i < found.matches.len() ==> (#[trigger] either_group(found.matches[i], 2, 3)
                matches Some(body) ==> excluded(body)),
    ensures
        urls_inlined(css, root, files) == Ok::<(Seq<char>, Seq<Seq<char>>), Seq<Seq<char>>>(
            (css, Seq::empty()),
        ),
{
    lemma_scan_covers_text(URL_PATTERN@, css);
    if occurrences(URL_PATTERN@, css) is Some {
        let found = occurrences(URL_PATTERN@, css)->0;
        let n = found.matches.len() as int;
        lemma_url_pass_text(found, root, files, n);
        lemma_remote_urls_leave_no_trace(found, root, files, n);
        assert forall|i: int| 0 <= i < n implies url_fills(found, root, files)[i] == wholes(
            found.matches,
        )[i] by {
            assert(group_of(found.matches[i], 0) is Some);
            assert(either_group(found.matches[i], 2, 3) matches Some(body) ==> excluded(body));
        }
        assert(url_fills(found, root, files) =~= wholes(found.matches));
    }
}

/// A `?query` or `#fragment` behind the path of a `url()` is discarded
/// before the file is looked up: only the path counts.
pub proof fn lemma_suffix_discarded(path: Seq<char>, suffix: Seq<char>)
    requires
        forall|j: int| 0 <= j < path.len() ==> path[j] != '?' && path[j] != '#',
        suffix.len() > 0,
        suffix[0] == '?' || suffix[0] == '#',
    ensures
        reference_path(path + suffix) == path,
{
    let body = path + suffix;
    let n = path.len() as int;
    lemma_position_bounds(body, '?', 0);
    if suffix[0] == '?' {
        lemma_position_is_first(body, '?', 0, n);
        assert(before(body, '?') =~= path);
        lemma_position_is_first(path, '#', 0, n);
    } else {
        let upto = before(body, '?');
        assert(upto.len() > n && upto[n] == '#');
        lemma_position_is_first(upto, '#', 0, n);
    }
}

/// The file that a `url()` stands for is found by the path alone: with a
/// `?query` or `#fragment` behind the path, the same file is embedded or
/// reported missing as without.
pub proof fn lemma_lookup_ignores_suffix(
    groups: Seq<Option<Seq<char>>>,
    root: Seq<char>,
    files: Map<Seq<char>, Seq<u8>>,
    path: Seq<char>,
    suffix: Seq<char>,
)
    requires
        forall|j: int| 0 <= j < path.len() ==> path[j] != '?' && path[j] != '#',
        suffix.len() > 0,
        suffix[0] == '?' || suffix[0] == '#',
        either_group(groups, 2, 3) == Some(path + suffix),
        !excluded(path + suffix),
    ensures
        files.contains_key(joined(root, path)) ==> url_rewrite(groups, root, files).deps == seq![
            joined(root, path),
        ] && url_rewrite(groups, root, files).missing == Seq::<Seq<char>>::empty(),
        !files.contains_key(joined(root, path)) ==> url_rewrite(groups, root, files).missing
            == seq![joined(root, path)] && url_rewrite(groups, root, files).deps == Seq::<
            Seq<char>,
        >::empty(),
{
    lemma_suffix_discarded(path, suffix);
}

/// What each `@import` of a scan becomes, where it can be expanded.
pub open spec fn import_fills(
    found: Occurrences,
    root: Seq<char>,
    files: Map<Seq<char>, Seq<u8>>,
    chain: Seq<Seq<char>>,
) -> Seq<Seq<char>> {
    Seq::new(
        found.matches.len(),
        |i: int|
            match import_rewrite(found.matches[i], root, files, chain) {
                Ok(pass) => pass.text,
                Err(_) => Seq::empty(),
            },
    )
}

proof fn lemma_import_pass_text(
    found: Occurrences,
    root: Seq<char>,
    files: Map<Seq<char>, Seq<u8>>,
    chain: Seq<Seq<char>>,
    k: int,
)
    requires
        files.dom().finite(),
        0 <= k <= found.matches.len(),
        import_pass(found, root, files, chain, k) is Ok,
    ensures
        import_pass(found, root, files, chain, k)->Ok_0.text == woven(
            found.gaps,
            import_fills(found, root, files, chain),
            k,
        ),
    decreases k,
{
    if k > 0 {
        lemma_import_pass_text(found, root, files, chain, k - 1);
    }
}

/// Outside its `@import`s a stylesheet stays as it is. The text is its
/// gaps and its `@import`s in turn, and what comes out is the same gaps
/// with what each `@import` became between them. A stylesheet without an
/// `@import` comes back as it is.
pub proof fn lemma_imports_expanded_in_place(
    css: Seq<char>,
    root: Seq<char>,
    files: Map<Seq<char>, Seq<u8>>,
    chain: Seq<Seq<char>>,
)
    requires
        files.dom().finite(),
    ensures
        match occurrences(IMPORT_PATTERN@, css) {
            Some(found) => {
                &&& css == woven(
                    found.gaps,
                    wholes(found.matches),
                    found.matches.len() as int,
                )
                &&& imports_expanded(css, root, files, chain) matches Ok(pass) ==> pass.text
                    == woven(
                    found.gaps,
                    import_fills(found, root, files, chain),
                    found.matches.len() as int,
                )
                &&& found.matches.len() == 0 ==> imports_inlined(css, root, files, chain) == Ok::<
                    (Seq<char>, Seq<Seq<char>>),
                    ImportFailure,
                >((css, Seq::empty()))
            },
            None => imports_inlined(css, root, files, chain) == Ok::<
                (Seq<char>, Seq<Seq<char>>),
                ImportFailure,
            >((css, Seq::empty())),
        },
{
    lemma_scan_covers_text(IMPORT_PATTERN@, css);
    if occurrences(IMPORT_PATTERN@, css) is Some {
        let found = occurrences(IMPORT_PATTERN@, css)->0;
        if imports_expanded(css, root, files, chain) is Ok {
            lemma_import_pass_text(found, root, files, chain, found.matches.len() as int);
        }
    }
}

/// Whether what an expansion of imports gave fits the files: every file
/// that went in exists, no file reported missing does, and a file at which
/// the expansion ended exists.
pub open spec fn fits(files: Map<Seq<char>, Seq<u8>>, r: Result<Pass, ImportFailure>) -> bool {
    match r {
        Ok(pass) => all_present(files, pass.deps) && none_present(files, pass.missing),
        Err(ImportFailure::Cyclic(path)) => files.contains_key(path),
        Err(ImportFailure::NotText(path)) => files.contains_key(path) && text_at(files, path)
            is None,
        Err(ImportFailure::Missing(_)) => false,
    }
}

proof fn lemma_import_rewrite_fits(
    groups: Seq<Option<Seq<char>>>,
    root: Seq<char>,
    files: Map<Seq<char>, Seq<u8>>,
    chain: Seq<Seq<char>>,
)
    requires
        files.dom().finite(),
    ensures
        fits(files, import_rewrite(groups, root, files, chain)),
    decreases unvisited(files, chain).len(), 0int, 0int,
{
    match either_group(groups, 2, 3) {
        None => {},
        Some(target) => {
            let path = joined(root, target);
            if files.contains_key(path) && !chain.contains(path) && text_at(files, path) is Some {
                let dir = parent_of(path);
                let text = text_at(files, path)->0;
                lemma_urls_inlined_recorded(text, dir, files);
                match urls_inlined(text, dir, files) {
                    Err(missing) => {},
                    Ok((with_urls, url_deps)) => {
                        lemma_unvisited_shrinks(files, chain, path);
                        lemma_imports_expanded_fits(with_urls, dir, files, chain.push(path));
                        match imports_expanded(with_urls, dir, files, chain.push(path)) {
                            Err(e) => {},
                            Ok(nested) => {
                                let first = seq![path] + url_deps;
                                assert(all_present(files, first)) by {
                                    assert forall|j: int| 0 <= j < first.len() implies files.contains_key(
                                        #[trigger] first[j],
                                    ) by {
                                        if j > 0 {
                                            assert(first[j] == url_deps[j - 1]);
                                        }
                                    }
                                }
                                let all = first + nested.deps;
                                assert(all_present(files, all)) by {
                                    assert forall|j: int| 0 <= j < all.len() implies files.contains_key(
                                        #[trigger] all[j],
                                    ) by {
                                        if j < first.len() {
                                            assert(all[j] == first[j]);
                                        } else {
                                            assert(all[j] == nested.deps[j - first.len()]);
                                        }
                                    }
                                }
                            },
                        }
                    },
                }
            }
        },
    }
}

proof fn lemma_import_pass_fits(
    found: Occurrences,
    root: Seq<char>,
    files: Map<Seq<char>, Seq<u8>>,
    chain: Seq<Seq<char>>,
    k: int,
)
    requires
        files.dom().finite(),
        0 <= k <= found.matches.len(),
    ensures
        fits(files, import_pass(found, root, files, chain, k)),
    decreases unvisited(files, chain).len(), 1int, k,
{
    if k > 0 {
        lemma_import_pass_fits(found, root, files, chain, k - 1);
        lemma_import_rewrite_fits(found.matches[k - 1], root, files, chain);
        match import_pass(found, root, files, chain, k - 1) {
            Err(e) => {},
            Ok(so_far) => match import_rewrite(found.matches[k - 1], root, files, chain) {
                Err(e) => {},
                Ok(this) => {
                    let deps = so_far.deps + this.deps;
                    let missing = so_far.missing + this.missing;
                    assert forall|j: int| 0 <= j < deps.len() implies files.contains_key(
                        #[trigger] deps[j],
                    ) by {
                        if j < so_far.deps.len() {
                            assert(deps[j] == so_far.deps[j]);
                        } else {
                            assert(deps[j] == this.deps[j - so_far.deps.len()]);
                        }
                    }
                    assert forall|j: int| 0 <= j < missing.len() implies !files.contains_key(
                        #[trigger] missing[j],
                    ) by {
                        if j < so_far.missing.len() {
                            assert(missing[j] == so_far.missing[j]);
                        } else {
                            assert(missing[j] == this.missing[j - so_far.missing.len()]);
                        }
                    }
                },
            },
        }
    }
}

proof fn lemma_imports_expanded_fits(
    css: Seq<char>,
    root: Seq<char>,
    files: Map<Seq<char>, Seq<u8>>,
    chain: Seq<Seq<char>>,
)
    requires
        files.dom().finite(),
    ensures
        fits(files, imports_expanded(css, root, files, chain)),
    decreases unvisited(files, chain).len(), 2int, 0int,
{
    match occurrences(IMPORT_PATTERN@, css) {
        None => {},
        Some(found) => {
            lemma_import_pass_fits(found, root, files, chain, found.matches.len() as int);
        },
    }
}

/// What expanding the imports of a stylesheet records is what there is,
/// however deep the imports go. Every file that went in exists. Where files
/// are missing, at least one is reported and none of those reported
/// exists. A file at which the expansion ended exists: one that is being
/// expanded already, or one that is no text.
pub proof fn lemma_import_files_recorded(
    css: Seq<char>,
    root: Seq<char>,
    files: Map<Seq<char>, Seq<u8>>,
    chain: Seq<Seq<char>>,
)
    requires
        files.dom().finite(),
    ensures
        match imports_inlined(css, root, files, chain) {
            Ok((_, deps)) => all_present(files, deps),
            Err(ImportFailure::Missing(missing)) => missing.len() > 0 && none_present(
                files,
                missing,
            ),
            Err(ImportFailure::Cyclic(path)) => files.contains_key(path),
            Err(ImportFailure::NotText(path)) => files.contains_key(path) && text_at(files, path)
                is None,
        },
{
    lemma_imports_expanded_fits(css, root, files, chain);
}

/// The files that one `@import` brings in where nothing is missing: the
/// imported stylesheet, then what its own `url()`s embed, then what its
/// own imports bring in, the last two resolved against the directory that
/// holds the imported stylesheet.
pub open spec fn import_brings(
    groups: Seq<Option<Seq<char>>>,
    root: Seq<char>,
    files: Map<Seq<char>, Seq<u8>>,
    chain: Seq<Seq<char>>,
) -> Seq<Seq<char>> {
    match either_group(groups, 2, 3) {
        None => Seq::empty(),
        Some(target) => {
            let path = joined(root, target);
            let dir = parent_of(path);
            match text_at(files, path) {
                None => Seq::empty(),
                Some(text) => match urls_inlined(text, dir, files) {
                    Err(_) => Seq::empty(),
                    Ok((with_urls, embedded)) => match imports_inlined(
                        with_urls,
                        dir,
                        files,
                        chain.push(path),
                    ) {
                        Err(_) => Seq::empty(),
                        Ok((_, inner)) => seq![path] + embedded + inner,
                    },
                },
            }
        },
    }
}

/// What the first `k` imports of a scan bring in, one after the other.
pub open spec fn imports_bring(
    found: Occurrences,
    root: Seq<char>,
    files: Map<Seq<char>, Seq<u8>>,
    chain: Seq<Seq<char>>,
    k: int,
) -> Seq<Seq<char>>
    decreases k,
{
    if k <= 0 {
        Seq::empty()
    } else {
        imports_bring(found, root, files, chain, k - 1) + import_brings(
            found.matches[k - 1],
            root,
            files,
            chain,
        )
    }
}

proof fn lemma_import_pass_order(
    found: Occurrences,
    root: Seq<char>,
    files: Map<Seq<char>, Seq<u8>>,
    chain: Seq<Seq<char>>,
    k: int,
)
    requires
        files.dom().finite(),
        0 <= k <= found.matches.len(),
        import_pass(found, root, files, chain, k) is Ok,
        import_pass(found, root, files, chain, k)->Ok_0.missing.len() == 0,
    ensures
        import_pass(found, root, files, chain, k)->Ok_0.deps == imports_bring(
            found,
            root,
            files,
            chain,
            k,
        ),
    decreases k,
{
    if k > 0 {
        let so_far = import_pass(found, root, files, chain, k - 1)->Ok_0;
        let this = import_rewrite(found.matches[k - 1], root, files, chain)->Ok_0;
        assert(so_far.missing.len() == 0 && this.missing.len() == 0) by {
            assert((so_far.missing + this.missing).len() == 0);
        }
        lemma_import_pass_order(found, root, files, chain, k - 1);
        let groups = found.matches[k - 1];
        match either_group(groups, 2, 3) {
            None => {},
            Some(target) => {
                let path = joined(root, target);
                let dir = parent_of(path);
                lemma_urls_inlined_recorded(text_at(files, path)->0, dir, files);
            },
        }
        assert(this.deps == import_brings(groups, root, files, chain));
    }
}

/// The files that went into a stylesheet with all its imports expanded
/// come depth first, in the order of the text: for each `@import` in turn
/// the imported stylesheet, then what its `url()`s embed, then what its own
/// imports bring in. Nothing is left out, taken together or put in order.
pub proof fn lemma_imports_depth_first(
    css: Seq<char>,
    root: Seq<char>,
    files: Map<Seq<char>, Seq<u8>>,
    chain: Seq<Seq<char>>,
)
    requires
        files.dom().finite(),
    ensures
        match occurrences(IMPORT_PATTERN@, css) {
            Some(found) => imports_inlined(css, root, files, chain) matches Ok((_, deps))
                ==> deps == imports_bring(found, root, files, chain, found.matches.len() as int),
            None => true,
        },
{
    if occurrences(IMPORT_PATTERN@, css) is Some && imports_inlined(css, root, files, chain)
        is Ok {
        let found = occurrences(IMPORT_PATTERN@, css)->0;
        lemma_import_pass_order(found, root, files, chain, found.matches.len() as int);
    }
}

proof fn lemma_absent_import_in_pass(
    found: Occurrences,
    root: Seq<char>,
    files: Map<Seq<char>, Seq<u8>>,
    chain: Seq<Seq<char>>,
    k: int,
    i: int,
)
    requires
        files.dom().finite(),
        0 <= i < k <= found.matches.len(),
        import_pass(found, root, files, chain, k) is Ok,
        either_group(found.matches[i], 2, 3) is Some,
        !files.contains_key(joined(root, either_group(found.matches[i], 2, 3)->0)),
    ensures
        import_pass(found, root, files, chain, k)->Ok_0.missing.contains(
            joined(root, either_group(found.matches[i], 2, 3)->0),
        ),
    decreases k,
{
    let path = joined(root, either_group(found.matches[i], 2, 3)->0);
    let so_far = import_pass(found, root, files, chain, k - 1)->Ok_0;
    let this = import_rewrite(found.matches[k - 1], root, files, chain)->Ok_0;
    let missing = so_far.missing + this.missing;
    if i < k - 1 {
        lemma_absent_import_in_pass(found, root, files, chain, k - 1, i);
        let j = choose|j: int| 0 <= j < so_far.missing.len() && so_far.missing[j] == path;
        assert(missing[j] == path);
    } else {
        assert(this.missing == seq![path]);
        assert(missing[so_far.missing.len() as int] == path);
    }
}

/// An `@import` of a file that does not exist is never passed over. Unless
/// the expansion ends at a file that is being expanded already or that is
/// no text, it fails and reports that file among the missing ones.
pub proof fn lemma_absent_import_reported(
    css: Seq<char>,
    root: Seq<char>,
    files: Map<Seq<char>, Seq<u8>>,
    chain: Seq<Seq<char>>,
    i: int,
)
    requires
        files.dom().finite(),
        occurrences(IMPORT_PATTERN@, css) is Some,
        0 <= i < occurrences(IMPORT_PATTERN@, css)->0.matches.len(),
        either_group(occurrences(IMPORT_PATTERN@, css)->0.matches[i], 2, 3) is Some,
        !files.contains_key(
            joined(root, either_group(occurrences(IMPORT_PATTERN@, css)->0.matches[i], 2, 3)->0),
        ),
    ensures
        match imports_inlined(css, root, files, chain) {
            Ok(_) => false,
            Err(ImportFailure::Missing(missing)) => missing.contains(
                joined(
                    root,
                    either_group(occurrences(IMPORT_PATTERN@, css)->0.matches[i], 2, 3)->0,
                ),
            ),
            Err(_) => true,
        },
{
    let found = occurrences(IMPORT_PATTERN@, css)->0;
    if imports_expanded(css, root, files, chain) is Ok {
        lemma_absent_import_in_pass(found, root, files, chain, found.matches.len() as int, i);
    } else {
        lemma_imports_expanded_fits(css, root, files, chain);
    }
}

/// An imported stylesheet is expanded where it lies. Its own `url()`s and
/// its own imports are resolved against the directory that holds it, not
/// against the directory of the stylesheet that imports it; and it is
/// recorded before the files that its `url()`s embed, which come before the
/// files that its imports bring in.
pub proof fn lemma_import_depth_first(
    groups: Seq<Option<Seq<char>>>,
    root: Seq<char>,
    files: Map<Seq<char>, Seq<u8>>,
    chain: Seq<Seq<char>>,
)
    requires
        files.dom().finite(),
        either_group(groups, 2, 3) is Some,
        files.contains_key(joined(root, either_group(groups, 2, 3)->0)),
        !chain.contains(joined(root, either_group(groups, 2, 3)->0)),
        text_at(files, joined(root, either_group(groups, 2, 3)->0)) is Some,
    ensures
        ({
            let path = joined(root, either_group(groups, 2, 3)->0);
            let dir = parent_of(path);
            match urls_inlined(text_at(files, path)->0, dir, files) {
                Ok((with_urls, embedded)) => match imports_expanded(
                    with_urls,
                    dir,
                    files,
                    chain.push(path),
                ) {
                    Ok(inner) => inner.missing.len() == 0 ==> import_rewrite(
                        groups,
                        root,
                        files,
                        chain,
                    ) == Ok::<Pass, ImportFailure>(
                        Pass {
                            text: inner.text,
                            deps: seq![path] + embedded + inner.deps,
                            missing: Seq::empty(),
                        },
                    ),
                    Err(_) => true,
                },
                Err(_) => true,
            }
        }),
{
}

/// When several imports of one stylesheet are missing, every one of them
/// is recorded, in the order of the imports.
pub proof fn lemma_every_missing_import_recorded(
    found: Occurrences,
    root: Seq<char>,
    files: Map<Seq<char>, Seq<u8>>,
    chain: Seq<Seq<char>>,
    k: int,
)
    requires
        files.dom().finite(),
        found.wf(),
        0 <= k <= found.matches.len(),
        forall|i: int|
            0 <= i < found.matches.len() ==> (#[trigger] either_group(found.matches[i], 2, 3)
                matches Some(target) && !files.contains_key(joined(root, target))),
    ensures
        import_pass(found, root, files, chain, k) matches Ok(pass) && pass.missing == Seq::new(
            k as nat,
            |i: int| joined(root, either_group(found.matches[i], 2, 3)->0),
        ),
    decreases k,
{
    if k > 0 {
        lemma_every_missing_import_recorded(found, root, files, chain, k - 1);
        let so_far = import_pass(found, root, files, chain, k - 1)->Ok_0;
        let this = import_rewrite(found.matches[k - 1], root, files, chain)->Ok_0;
        assert(this.missing == seq![joined(root, either_group(found.matches[k - 1], 2, 3)->0)]);
        assert(so_far.missing + this.missing =~= Seq::new(
            k as nat,
            |i: int| joined(root, either_group(found.matches[i], 2, 3)->0),
        ));
    } else {
        assert(Seq::<Seq<char>>::empty() =~= Seq::new(
            0 as nat,
            |i: int| joined(root, either_group(found.matches[i], 2, 3)->0),
        ));
    }
}

/// Whether a `link` element stands for a local stylesheet: its `rel`, where
/// it has one, is `stylesheet`; its `type`, where it has one, is `text/css`;
/// and it has an `href` that ends in `.css` and points at a local file.
pub open spec fn is_stylesheet_link(tag: Tag) -> bool {
    &&& tag.attribute("rel"@) matches Some(rel) ==> rel == "stylesheet"@
    &&& tag.attribute("type"@) matches Some(kind) ==> kind == "text/css"@
    &&& tag.attribute("href"@) matches Some(href) && ".css"@.is_suffix_of(href) && !remote(href)
}

/// A stylesheet inside the `@media` block that the `media` attribute of its
/// `link` asks for.
pub open spec fn in_media(media: Option<Seq<char>>, css: Seq<char>) -> Seq<char> {
    match media {
        Some(query) => "@media "@ + query + " { "@ + css + " }"@,
        None => css,
    }
}

/// The `style` element that holds `css`.
pub open spec fn style_element(css: Seq<char>) -> Seq<char> {
    "<style type=\"text/css\">"@ + css + "</style>"@
}

/// What a failed expansion of imports means for the document.
pub open spec fn import_failure(document: Seq<char>, e: ImportFailure) -> Failure {
    match e {
        ImportFailure::Missing(paths) => Failure::MissingImports { document, paths },
        ImportFailure::Cyclic(path) => Failure::CyclicImport { document, path },
        ImportFailure::NotText(path) => Failure::NotText { path },
    }
}

/// What becomes of a `link` element of the document at `file`, whose
/// references start from `root`, and which files that embeds.
///
/// A link that is no local stylesheet stays. Otherwise the stylesheet is
/// read, wrapped in its `@media` block if the link has a `media`, its
/// imports are expanded and then its `url()`s embedded, both from the
/// directory that holds the stylesheet, and a `style` element with the
/// result takes the place of the link. The files are the stylesheet, then
/// what its imports brought, then what its own `url()`s brought.
pub open spec fn stylesheet_change(
    file: Seq<char>,
    root: Seq<char>,
    tag: Tag,
    files: Map<Seq<char>, Seq<u8>>,
) -> Result<(Change, Seq<Seq<char>>), Failure> {
    if !is_stylesheet_link(tag) {
        Ok((Change::Keep, Seq::empty()))
    } else {
        let href = tag.attribute("href"@)->0;
        let path = joined(root, href);
        if !files.contains_key(path) {
            Err(
                Failure::NotFound {
                    kind: Kind::Stylesheet,
                    document: name_of(file),
                    reference: href,
                    path,
                },
            )
        } else {
            match text_at(files, path) {
                None => Err(Failure::NotText { path }),
                Some(text) => {
                    let css = in_media(tag.attribute("media"@), text);
                    let dir = parent_of(path);
                    match imports_inlined(css, dir, files, seq![path]) {
                        Err(e) => Err(import_failure(name_of(file), e)),
                        Ok((expanded, imported)) => match urls_inlined(expanded, dir, files) {
                            Err(paths) => Err(
                                Failure::MissingUrls { document: name_of(file), paths },
                            ),
                            Ok((css, embedded)) => Ok(
                                (
                                    Change::Replace { html: style_element(css) },
                                    seq![path] + imported + embedded,
                                ),
                            ),
                        },
                    }
                },
            }
        }
    }
}

/// Every file that went into the `style` element of a `link` exists.
pub proof fn lemma_stylesheet_files_exist(
    file: Seq<char>,
    root: Seq<char>,
    tag: Tag,
    files: Map<Seq<char>, Seq<u8>>,
)
    requires
        files.dom().finite(),
    ensures
        stylesheet_change(file, root, tag, files) matches Ok((_, used)) ==> all_present(
            files,
            used,
        ),
{
    if is_stylesheet_link(tag) {
        let href = tag.attribute("href"@)->0;
        let path = joined(root, href);
        if files.contains_key(path) && text_at(files, path) is Some {
            let css = in_media(tag.attribute("media"@), text_at(files, path)->0);
            let dir = parent_of(path);
            lemma_import_files_recorded(css, dir, files, seq![path]);
            match imports_inlined(css, dir, files, seq![path]) {
                Err(e) => {},
                Ok((expanded, imported)) => {
                    lemma_urls_inlined_recorded(expanded, dir, files);
                    match urls_inlined(expanded, dir, files) {
                        Err(paths) => {},
                        Ok((text, embedded)) => {
                            let first = seq![path] + imported;
                            let used = first + embedded;
                            assert forall|j: int| 0 <= j < used.len() implies files.contains_key(
                                #[trigger] used[j],
                            ) by {
                                if j == 0 {
                                    assert(used[j] == path);
                                } else if j < first.len() {
                                    assert(used[j] == imported[j - 1]);
                                } else {
                                    assert(used[j] == embedded[j - first.len()]);
                                }
                            }
                        },
                    }
                },
            }
        }
    }
}

/// What becomes of a `link` element of the document at `file`, whose
/// references start from `root`, and which files that embeds.
pub fn stylesheet_edit(file: &str, root: &str, el: &Element, files: &Files) -> (r: Result<
    (Edit, Vec<String>),
    Error,
>)
    ensures
        deep(r) == stylesheet_change(file@, root@, el.deep_view(), files@),
{
    if let Some(rel) = el.get_attribute("rel") {
        if !same(rel.as_str(), "stylesheet") {
            return Ok((Edit::Keep, no_strings()));
        }
    }
    if let Some(kind) = el.get_attribute("type") {
        if !same(kind.as_str(), "text/css") {
            return Ok((Edit::Keep, no_strings()));
        }
    }
    let href: &String = match el.get_attribute("href") {
        Some(href) => href,
        None => {
            return Ok((Edit::Keep, no_strings()));
        },
    };
    if !ends_with(href.as_str(), ".css") || is_remote(href.as_str()) {
        return Ok((Edit::Keep, no_strings()));
    }
    let path: String = join(root, href.as_str());
    if !files.contains(path.as_str()) {
        return Err(
            Error::NotFound {
                kind: Kind::Stylesheet,
                document: name(file),
                reference: href.clone(),
                path,
            },
        );
    }
    let text: String = match files.text(path.as_str()) {
        Some(text) => text,
        None => {
            return Err(Error::NotText { path });
        },
    };
    let css: String = match el.get_attribute("media") {
        Some(query) => {
            let mut css: String = "@media ".to_owned();
            css.append(query.as_str());
            css.append(" { ");
            css.append(text.as_str());
            css.append(" }");
            css
        },
        None => text,
    };
    let dir: String = parent(path.as_str());
    let chain: Vec<String> = one_string(path.clone());
    let (expanded, imported) = match inline_imports(css, dir.as_str(), files, &chain) {
        Ok(done) => done,
        Err(ImportError::Missing(paths)) => {
            return Err(Error::MissingImports { document: name(file), paths });
        },
        Err(ImportError::Cyclic(path)) => {
            return Err(Error::CyclicImport { document: name(file), path });
        },
        Err(ImportError::NotText(path)) => {
            return Err(Error::NotText { path });
        },
    };
    let (css, embedded) = match inline_urls(expanded, dir.as_str(), files) {
        Ok(done) => done,
        Err(paths) => {
            return Err(Error::MissingUrls { document: name(file), paths });
        },
    };
    let mut html: String = "<style type=\"text/css\">".to_owned();
    html.append(css.as_str());
    html.append("</style>");
    let mut deps: Vec<String> = one_string(path);
    extend(&mut deps, imported);
    extend(&mut deps, embedded);
    Ok((Edit::Replace { html }, deps))
}

/// What inlines the stylesheets of one document.
pub struct Css {
    file: String,
    root: String,
}

impl Css {
    /// The path of the document whose stylesheets are inlined.
    pub closed spec fn file(&self) -> Seq<char> {
        self.file@
    }

    /// The directory against which the document's references are resolved.
    pub closed spec fn root(&self) -> Seq<char> {
        self.root@
    }

    /// For the document at `file`, whose references start from `root`.
    pub fn new(file: &str, root: &str) -> (css: Css)
        ensures
            css.file() == file@,
            css.root() == root@,
    {
        Css { file: file.to_owned(), root: root.to_owned() }
    }

    /// The path of the document whose stylesheets are inlined.
    pub fn document(&self) -> (file: &str)
        ensures
            file@ == self.file(),
    {
        self.file.as_str()
    }

    /// The directory against which the document's references are resolved.
    pub fn base(&self) -> (root: &str)
        ensures
            root@ == self.root(),
    {
        self.root.as_str()
    }

    /// Decides what becomes of the `link` element `el`, and adds the files
    /// that went into it to `deps`. On an error `deps` stays as it was.
    pub fn handle(&self, el: &Element, files: &Files, deps: &mut Vec<String>) -> (r: Result<
        Edit,
        Error,
    >)
        ensures
            match r {
                Ok(edit) => {
                    &&& stylesheet_change(self.file(), self.root(), el.deep_view(), files@)
                        matches Ok((change, used))
                    &&& change == edit.deep_view()
                    &&& final(deps).deep_view() == old(deps).deep_view() + used
                },
                Err(e) => {
                    &&& stylesheet_change(self.file(), self.root(), el.deep_view(), files@)
                        == Err::<(Change, Seq<Seq<char>>), Failure>(e.deep_view())
                    &&& final(deps).deep_view() == old(deps).deep_view()
                },
            },
    {
        match stylesheet_edit(self.file.as_str(), self.root.as_str(), el, files) {
            Ok((edit, used)) => {
                extend(deps, used);
                Ok(edit)
            },
            Err(e) => Err(e),
        }
    }
}

} // verus!
