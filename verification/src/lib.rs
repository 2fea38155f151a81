//! Turns an HTML document that refers to local images, stylesheets, scripts
//! and HTML fragments into one self-contained document, and reports every
//! file that went into it.
//!
//! The library never touches the disk: the files a document can see are
//! handed in as a [`files::Files`] value.

pub mod css;
pub mod embed;
pub mod error;
pub mod files;
pub mod markup;
pub mod path;
pub mod scan;
pub mod text;

use vstd::prelude::*;
use crate::css::{all_present, excluded, lemma_stylesheet_files_exist, stylesheet_change, Css};
use crate::embed::{data_uri, image_mime, image_mime_of, is_image, is_image_mime, to_base64};
use crate::error::{Error, Failure, Kind};
use crate::files::{text_at, Files};
use crate::markup::{apply, is_remote, remote, rewritten, select, selected, Change, Edit, Element, Tag};
use crate::path::{join, joined, name, name_of, parent, parent_of};
use crate::text::{deep, extend, no_strings, one_string, same};

verus! {

/// The elements that inlining looks at.
pub const SELECTOR: &'static str = "img, link, include, script";

/// A document with everything inlined, and the files that went into it.
#[derive(Debug, PartialEq, Eq)]
pub struct InlineResult {
    /// The rewritten document.
    pub html: String,
    /// The path of every file that was embedded, once per embedding, in
    /// the order in which the document reached them.
    pub files: Vec<String>,
}

impl DeepView for InlineResult {
    type V = (Seq<char>, Seq<Seq<char>>);

    open spec fn deep_view(&self) -> (Seq<char>, Seq<Seq<char>>) {
        (self.html@, self.files.deep_view())
    }
}

/// An element that stays as it is and embeds nothing.
pub open spec fn kept() -> Result<(Change, Seq<Seq<char>>), Failure> {
    Ok((Change::Keep, Seq::empty()))
}

/// What becomes of an `img` element of the document at `file`, whose
/// references start from `root`, and which files that embeds.
///
/// Without a `src`, or with one that points away from the local files, the
/// element stays. Otherwise the file must exist and must be an image; its
/// `data:` URI becomes the new `src`.
pub open spec fn image_change(
    file: Seq<char>,
    root: Seq<char>,
    tag: Tag,
    files: Map<Seq<char>, Seq<u8>>,
) -> Result<(Change, Seq<Seq<char>>), Failure> {
    match tag.attribute("src"@) {
        None => kept(),
        Some(src) => if remote(src) {
            kept()
        } else {
            let path = joined(root, src);
            if !files.contains_key(path) {
                Err(
                    Failure::NotFound {
                        kind: Kind::Image,
                        document: name_of(file),
                        reference: src,
                        path,
                    },
                )
            } else {
                let mime = image_mime_of(path, files[path]);
                if !is_image_mime(mime) {
                    Err(Failure::NotImage { reference: src })
                } else {
                    Ok(
                        (
                            Change::SetAttribute {
                                name: "src"@,
                                value: data_uri(mime, files[path]),
                            },
                            seq![path],
                        ),
                    )
                }
            }
        },
    }
}

/// What becomes of an `include` element: the text of the file that its
/// `src` names takes its place, as markup.
pub open spec fn include_change(
    file: Seq<char>,
    root: Seq<char>,
    tag: Tag,
    files: Map<Seq<char>, Seq<u8>>,
) -> Result<(Change, Seq<Seq<char>>), Failure> {
    match tag.attribute("src"@) {
        None => kept(),
        Some(src) => if remote(src) {
            kept()
        } else {
            let path = joined(root, src);
            if !files.contains_key(path) {
                Err(
                    Failure::NotFound {
                        kind: Kind::Include,
                        document: name_of(file),
                        reference: src,
                        path,
                    },
                )
            } else {
                match text_at(files, path) {
                    None => Err(Failure::NotText { path }),
                    Some(text) => Ok((Change::Replace { html: text }, seq![path])),
                }
            }
        },
    }
}

/// The `script` element that holds `js`.
pub open spec fn script_element(js: Seq<char>) -> Seq<char> {
    "<script>"@ + js + "</script>"@
}

/// What becomes of a `script` element.
///
/// It stays if it has a `type` other than `text/javascript`, no `src`, or a
/// `src` that points away from the local files. With a `base64` attribute
/// the file becomes a `data:` URI in `src`; without, a `script` element
/// that holds the file's text takes the place of the element.
pub open spec fn script_change(
    file: Seq<char>,
    root: Seq<char>,
    tag: Tag,
    files: Map<Seq<char>, Seq<u8>>,
) -> Result<(Change, Seq<Seq<char>>), Failure> {
    if tag.attribute("type"@) matches Some(kind) && kind != "text/javascript"@ {
        kept()
    } else {
        match tag.attribute("src"@) {
            None => kept(),
            Some(src) => if remote(src) {
                kept()
            } else {
                let path = joined(root, src);
                if !files.contains_key(path) {
                    Err(
                        Failure::NotFound {
                            kind: Kind::Script,
                            document: name_of(file),
                            reference: src,
                            path,
                        },
                    )
                } else if tag.attribute("base64"@) is Some {
                    Ok(
                        (
                            Change::SetAttribute {
                                name: "src"@,
                                value: data_uri("application/javascript"@, files[path]),
                            },
                            seq![path],
                        ),
                    )
                } else {
                    match text_at(files, path) {
                        None => Err(Failure::NotText { path }),
                        Some(text) => Ok(
                            (Change::Replace { html: script_element(text) }, seq![path]),
                        ),
                    }
                }
            },
        }
    }
}

/// What becomes of an element, by its tag: `img`, `link`, `include` and
/// `script` have their rules, every other element stays.
pub open spec fn element_change(
    file: Seq<char>,
    root: Seq<char>,
    tag: Tag,
    files: Map<Seq<char>, Seq<u8>>,
) -> Result<(Change, Seq<Seq<char>>), Failure> {
    if tag.tag == "img"@ {
        image_change(file, root, tag, files)
    } else if tag.tag == "link"@ {
        stylesheet_change(file, root, tag, files)
    } else if tag.tag == "include"@ {
        include_change(file, root, tag, files)
    } else if tag.tag == "script"@ {
        script_change(file, root, tag, files)
    } else {
        kept()
    }
}

/// The changes to the first `k` of `tags`, in their order, with the files
/// they embed one after the other; or the failure of the first element
/// that fails.
pub open spec fn changes(
    file: Seq<char>,
    root: Seq<char>,
    tags: Seq<Tag>,
    files: Map<Seq<char>, Seq<u8>>,
    k: int,
) -> Result<(Seq<Change>, Seq<Seq<char>>), Failure>
    decreases k,
{
    if k <= 0 {
        Ok((Seq::empty(), Seq::empty()))
    } else {
        match changes(file, root, tags, files, k - 1) {
            Err(e) => Err(e),
            Ok((done, deps)) => match element_change(file, root, tags[k - 1], files) {
                Err(e) => Err(e),
                Ok((change, used)) => Ok((done.push(change), deps + used)),
            },
        }
    }
}

/// What changing the elements that were found means for the document:
/// the failure of an element comes first; then a document that could not be
/// read to its end, or not be written, is a failure of its own.
pub open spec fn finished(
    html: Seq<char>,
    complete: bool,
    outcome: Result<(Seq<Change>, Seq<Seq<char>>), Failure>,
) -> Result<(Seq<char>, Seq<Seq<char>>), Failure> {
    match outcome {
        Err(e) => Err(e),
        Ok((done, deps)) => if !complete {
            Err(Failure::Markup)
        } else {
            match rewritten(SELECTOR@, html, done) {
                None => Err(Failure::Markup),
                Some(out) => Ok((out, deps)),
            }
        },
    }
}

/// The document `html`, read from `file`, with its local references
/// inlined from `files`, and the files that went into it.
pub open spec fn inlined(file: Seq<char>, html: Seq<char>, files: Map<Seq<char>, Seq<u8>>)
    -> Result<(Seq<char>, Seq<Seq<char>>), Failure> {
    let (tags, complete) = selected(SELECTOR@, html);
    finished(html, complete, changes(file, parent_of(file), tags, files, tags.len() as int))
}

/// Once an element has failed, the elements that follow change nothing.
pub proof fn lemma_failure_stays(
    file: Seq<char>,
    root: Seq<char>,
    tags: Seq<Tag>,
    files: Map<Seq<char>, Seq<u8>>,
    k: int,
    n: int,
)
    requires
        0 <= k <= n,
        changes(file, root, tags, files, k) is Err,
    ensures
        changes(file, root, tags, files, n) == changes(file, root, tags, files, k),
    decreases n - k,
{
    if k < n {
        lemma_failure_stays(file, root, tags, files, k, n - 1);
    }
}

/// An `img` that refers to a local file that does not exist makes the run
/// fail, so that there is no output. Where no element before it fails, the
/// failure is that the file was not found, and it names the reference.
pub proof fn lemma_missing_image_fails(
    file: Seq<char>,
    html: Seq<char>,
    files: Map<Seq<char>, Seq<u8>>,
    i: int,
)
    requires
        0 <= i < selected(SELECTOR@, html).0.len(),
        selected(SELECTOR@, html).0[i].tag == "img"@,
        selected(SELECTOR@, html).0[i].attribute("src"@) matches Some(src) && !remote(src)
            && !files.contains_key(joined(parent_of(file), src)),
    ensures
        inlined(file, html, files) is Err,
        changes(file, parent_of(file), selected(SELECTOR@, html).0, files, i) is Ok ==> inlined(
            file,
            html,
            files,
        ) == Err::<(Seq<char>, Seq<Seq<char>>), Failure>(
            Failure::NotFound {
                kind: Kind::Image,
                document: name_of(file),
                reference: selected(SELECTOR@, html).0[i].attribute("src"@)->0,
                path: joined(parent_of(file), selected(SELECTOR@, html).0[i].attribute("src"@)->0),
            },
        ),
{
    let tags = selected(SELECTOR@, html).0;
    let root = parent_of(file);
    let n = tags.len() as int;
    if changes(file, root, tags, files, i) is Err {
        lemma_failure_stays(file, root, tags, files, i, n);
    } else {
        lemma_failure_stays(file, root, tags, files, i + 1, n);
    }
}

/// The `data:` URI that stands for an embedded file points away from the
/// local files, for an element as for a `url()`.
pub proof fn lemma_data_uri_points_away(mime: Seq<char>, bytes: Seq<u8>)
    ensures
        remote(data_uri(mime, bytes)),
        excluded(data_uri(mime, bytes)),
{
}

/// An element whose reference points away from the local files stays as it
/// is and embeds nothing. With the law before, embedding is final: what
/// was inlined once is never taken up again.
pub proof fn lemma_remote_reference_kept(
    file: Seq<char>,
    root: Seq<char>,
    tag: Tag,
    files: Map<Seq<char>, Seq<u8>>,
)
    requires
        tag.tag == "link"@ ==> (tag.attribute("href"@) matches Some(href) && remote(href)),
        tag.tag != "link"@ ==> (tag.attribute("src"@) matches Some(src) && remote(src)),
    ensures
        element_change(file, root, tag, files) == kept(),
{
    reveal_strlit("img");
    reveal_strlit("link");
    reveal_strlit("include");
    reveal_strlit("script");
    assert("img"@.len() == 3 && "link"@.len() == 4 && "include"@.len() == 7 && "script"@.len() == 6);
}

/// A document in which no element has anything to inline comes out with
/// every element kept and with no file recorded.
pub proof fn lemma_nothing_to_inline(
    file: Seq<char>,
    root: Seq<char>,
    tags: Seq<Tag>,
    files: Map<Seq<char>, Seq<u8>>,
    k: int,
)
    requires
        0 <= k <= tags.len(),
        forall|i: int| 0 <= i < tags.len() ==> #[trigger] element_change(file, root, tags[i], files) == kept(),
    ensures
        changes(file, root, tags, files, k) == Ok::<(Seq<Change>, Seq<Seq<char>>), Failure>(
            (Seq::new(k as nat, |i: int| Change::Keep), Seq::empty()),
        ),
    decreases k,
{
    if k > 0 {
        lemma_nothing_to_inline(file, root, tags, files, k - 1);
        let before = Seq::new((k - 1) as nat, |i: int| Change::Keep);
        assert(before.push(Change::Keep) =~= Seq::new(k as nat, |i: int| Change::Keep));
    } else {
        assert(Seq::<Change>::empty() =~= Seq::new(0 as nat, |i: int| Change::Keep));
    }
}

/// Every file that an element embeds exists.
pub proof fn lemma_element_files_exist(
    file: Seq<char>,
    root: Seq<char>,
    tag: Tag,
    files: Map<Seq<char>, Seq<u8>>,
)
    requires
        files.dom().finite(),
    ensures
        element_change(file, root, tag, files) matches Ok((_, used)) ==> all_present(files, used),
{
    lemma_stylesheet_files_exist(file, root, tag, files);
}

proof fn lemma_changes_files_exist(
    file: Seq<char>,
    root: Seq<char>,
    tags: Seq<Tag>,
    files: Map<Seq<char>, Seq<u8>>,
    k: int,
)
    requires
        files.dom().finite(),
        0 <= k <= tags.len(),
    ensures
        changes(file, root, tags, files, k) matches Ok((_, deps)) ==> all_present(files, deps),
    decreases k,
{
    if k > 0 {
        lemma_changes_files_exist(file, root, tags, files, k - 1);
        lemma_element_files_exist(file, root, tags[k - 1], files);
        match changes(file, root, tags, files, k - 1) {
            Err(e) => {},
            Ok((done, deps)) => match element_change(file, root, tags[k - 1], files) {
                Err(e) => {},
                Ok((change, used)) => {
                    let all = deps + used;
                    assert forall|j: int| 0 <= j < all.len() implies files.contains_key(
                        #[trigger] all[j],
                    ) by {
                        if j < deps.len() {
                            assert(all[j] == deps[j]);
                        } else {
                            assert(all[j] == used[j - deps.len()]);
                        }
                    }
                },
            },
        }
    }
}

/// Every file that a run reports as a dependency exists.
pub proof fn lemma_dependencies_exist(
    file: Seq<char>,
    html: Seq<char>,
    files: Map<Seq<char>, Seq<u8>>,
)
    requires
        files.dom().finite(),
    ensures
        inlined(file, html, files) matches Ok((_, deps)) ==> all_present(files, deps),
{
    let tags = selected(SELECTOR@, html).0;
    lemma_changes_files_exist(file, parent_of(file), tags, files, tags.len() as int);
}

/// Decides what becomes of the `img` element `el`.
pub fn image_edit(file: &str, root: &str, el: &Element, files: &Files) -> (r: Result<
    (Edit, Vec<String>),
    Error,
>)
    ensures
        deep(r) == image_change(file@, root@, el.deep_view(), files@),
{
    let src: &String = match el.get_attribute("src") {
        Some(src) => src,
        None => {
            return Ok((Edit::Keep, no_strings()));
        },
    };
    if is_remote(src.as_str()) {
        return Ok((Edit::Keep, no_strings()));
    }
    let path: String = join(root, src.as_str());
    let contents: &Vec<u8> = match files.get(path.as_str()) {
        Some(contents) => contents,
        None => {
            return Err(
                Error::NotFound {
                    kind: Kind::Image,
                    document: name(file),
                    reference: src.clone(),
                    path,
                },
            );
        },
    };
    let mime: String = image_mime(path.as_str(), contents);
    if !is_image(mime.as_str()) {
        return Err(Error::NotImage { reference: src.clone() });
    }
    let value: String = to_base64(contents, mime.as_str());
    Ok((Edit::SetAttribute { name: "src".to_owned(), value }, one_string(path)))
}

/// Decides what becomes of the `include` element `el`.
pub fn include_edit(file: &str, root: &str, el: &Element, files: &Files) -> (r: Result<
    (Edit, Vec<String>),
    Error,
>)
    ensures
        deep(r) == include_change(file@, root@, el.deep_view(), files@),
{
    let src: &String = match el.get_attribute("src") {
        Some(src) => src,
        None => {
            return Ok((Edit::Keep, no_strings()));
        },
    };
    if is_remote(src.as_str()) {
        return Ok((Edit::Keep, no_strings()));
    }
    let path: String = join(root, src.as_str());
    if !files.contains(path.as_str()) {
        return Err(
            Error::NotFound {
                kind: Kind::Include,
                document: name(file),
                reference: src.clone(),
                path,
            },
        );
    }
    match files.text(path.as_str()) {
        None => Err(Error::NotText { path }),
        Some(html) => Ok((Edit::Replace { html }, one_string(path))),
    }
}

/// Decides what becomes of the `script` element `el`.
pub fn script_edit(file: &str, root: &str, el: &Element, files: &Files) -> (r: Result<
    (Edit, Vec<String>),
    Error,
>)
    ensures
        deep(r) == script_change(file@, root@, el.deep_view(), files@),
{
    if let Some(kind) = el.get_attribute("type") {
        if !same(kind.as_str(), "text/javascript") {
            return Ok((Edit::Keep, no_strings()));
        }
    }
    let src: &String = match el.get_attribute("src") {
        Some(src) => src,
        None => {
            return Ok((Edit::Keep, no_strings()));
        },
    };
    if is_remote(src.as_str()) {
        return Ok((Edit::Keep, no_strings()));
    }
    let path: String = join(root, src.as_str());
    let contents: &Vec<u8> = match files.get(path.as_str()) {
        Some(contents) => contents,
        None => {
            return Err(
                Error::NotFound {
                    kind: Kind::Script,
                    document: name(file),
                    reference: src.clone(),
                    path,
                },
            );
        },
    };
    if el.get_attribute("base64").is_some() {
        let value: String = to_base64(contents, "application/javascript");
        return Ok((Edit::SetAttribute { name: "src".to_owned(), value }, one_string(path)));
    }
    match files.text(path.as_str()) {
        None => Err(Error::NotText { path }),
        Some(js) => {
            let mut html: String = "<script>".to_owned();
            html.append(js.as_str());
            html.append("</script>");
            Ok((Edit::Replace { html }, one_string(path)))
        },
    }
}

/// Decides what becomes of the element `el` of the document that `css`
/// was made for, and adds the files that went into it to `deps`. On an
/// error `deps` stays as it was.
pub fn edit_element(css: &Css, el: &Element, files: &Files, deps: &mut Vec<String>) -> (r: Result<
    Edit,
    Error,
>)
    ensures
        match r {
            Ok(edit) => {
                &&& element_change(css.file(), css.root(), el.deep_view(), files@) matches Ok(
                    (change, used),
                )
                &&& change == edit.deep_view()
                &&& final(deps).deep_view() == old(deps).deep_view() + used
            },
            Err(e) => {
                &&& element_change(css.file(), css.root(), el.deep_view(), files@) == Err::<
                    (Change, Seq<Seq<char>>),
                    Failure,
                >(e.deep_view())
                &&& final(deps).deep_view() == old(deps).deep_view()
            },
        },
{
    let file: &str = css.document();
    let root: &str = css.base();
    let found: Result<(Edit, Vec<String>), Error> = if same(el.tag.as_str(), "img") {
        image_edit(file, root, el, files)
    } else if same(el.tag.as_str(), "link") {
        return css.handle(el, files, deps);
    } else if same(el.tag.as_str(), "include") {
        include_edit(file, root, el, files)
    } else if same(el.tag.as_str(), "script") {
        script_edit(file, root, el, files)
    } else {
        return Ok(Edit::Keep);
    };
    match found {
        Ok((edit, used)) => {
            extend(deps, used);
            Ok(edit)
        },
        Err(e) => Err(e),
    }
}

/// Decides what becomes of each of `elements`, in their order, for the
/// document at `file` whose references start from `root`.
///
/// Gives one edit for each element and the files that went into them; or
/// the error of the first element that fails.
pub fn visit(elements: &Vec<Element>, file: &str, root: &str, files: &Files) -> (r: Result<
    (Vec<Edit>, Vec<String>),
    Error,
>)
    ensures
        deep(r) == changes(file@, root@, elements.deep_view(), files@, elements.len() as int),
{
    let css: Css = Css::new(file, root);
    let mut edits: Vec<Edit> = Vec::new();
    let mut deps: Vec<String> = no_strings();
    let n: usize = elements.len();
    let mut k: usize = 0;
    assert(edits.deep_view() =~= Seq::<Change>::empty());
    while k < n
        invariant
            k <= n,
            n == elements.len(),
            css.file() == file@,
            css.root() == root@,
            changes(file@, root@, elements.deep_view(), files@, k as int) == Ok::<
                (Seq<Change>, Seq<Seq<char>>),
                Failure,
            >((edits.deep_view(), deps.deep_view())),
        decreases n - k,
    {
        let ghost done = edits.deep_view();
        match edit_element(&css, &elements[k], files, &mut deps) {
            Err(e) => {
                proof {
                    lemma_failure_stays(
                        file@,
                        root@,
                        elements.deep_view(),
                        files@,
                        k + 1,
                        n as int,
                    );
                }
                return Err(e);
            },
            Ok(edit) => {
                edits.push(edit);
                assert(edits.deep_view() =~= done.push(edit.deep_view()));
            },
        }
        k += 1;
    }
    Ok((edits, deps))
}

/// Inlines the document `html`, which was read from `file`: every local
/// image, stylesheet, script and HTML fragment that it refers to is taken
/// from `files` and embedded.
///
/// References are resolved against the directory that holds `file`.
pub fn inline(file: &str, html: &str, files: &Files) -> (r: Result<InlineResult, Error>)
    ensures
        deep(r) == inlined(file@, html@, files@),
{
    let root: String = parent(file);
    let (elements, complete) = select(SELECTOR, html);
    match visit(&elements, file, root.as_str(), files) {
        Err(e) => Err(e),
        Ok((edits, deps)) => {
            if !complete {
                return Err(Error::Markup);
            }
            match apply(SELECTOR, html, &edits) {
                None => Err(Error::Markup),
                Some(html) => Ok(InlineResult { html, files: deps }),
            }
        },
    }
}

} // verus!
