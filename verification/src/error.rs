//! Why a document could not be inlined.

use vstd::prelude::*;
use crate::text::{no_strings, one_string, with_string};

verus! {

/// What was being inlined when a file was not found.
#[derive(Clone, Copy, Debug, PartialEq, Eq)]
pub enum Kind {
    Image,
    Stylesheet,
    Script,
    Include,
}

/// Why a document could not be inlined.
#[derive(Debug, PartialEq, Eq)]
pub enum Error {
    /// An element refers to a file that does not exist.
    NotFound {
        kind: Kind,
        /// The file name of the document.
        document: String,
        /// The reference as the document wrote it.
        reference: String,
        /// The path at which the file was looked for.
        path: String,
    },
    /// A stylesheet imports files that do not exist: all of them.
    MissingImports { document: String, paths: Vec<String> },
    /// A stylesheet has `url()`s of files that do not exist: all of them.
    MissingUrls { document: String, paths: Vec<String> },
    /// A stylesheet imports itself, directly or through others.
    CyclicImport { document: String, path: String },
    /// A file that had to be read as text is no UTF-8.
    NotText { path: String },
    /// An `img` refers to a file that is no image.
    NotImage { reference: String },
    /// The document itself could not be rewritten.
    Markup,
}

/// An [`Error`], with its texts as sequences of characters.
pub enum Failure {
    NotFound { kind: Kind, document: Seq<char>, reference: Seq<char>, path: Seq<char> },
    MissingImports { document: Seq<char>, paths: Seq<Seq<char>> },
    MissingUrls { document: Seq<char>, paths: Seq<Seq<char>> },
    CyclicImport { document: Seq<char>, path: Seq<char> },
    NotText { path: Seq<char> },
    NotImage { reference: Seq<char> },
    Markup,
}

impl DeepView for Error {
    type V = Failure;

    open spec fn deep_view(&self) -> Failure {
        match self {
            Error::NotFound { kind, document, reference, path } => Failure::NotFound {
                kind: *kind,
                document: document@,
                reference: reference@,
                path: path@,
            },
            Error::MissingImports { document, paths } => Failure::MissingImports {
                document: document@,
                paths: paths.deep_view(),
            },
            Error::MissingUrls { document, paths } => Failure::MissingUrls {
                document: document@,
                paths: paths.deep_view(),
            },
            Error::CyclicImport { document, path } => Failure::CyclicImport {
                document: document@,
                path: path@,
            },
            Error::NotText { path } => Failure::NotText { path: path@ },
            Error::NotImage { reference } => Failure::NotImage { reference: reference@ },
            Error::Markup => Failure::Markup,
        }
    }
}

/// The paths that a failure says do not exist.
pub open spec fn absent(failure: Failure) -> Seq<Seq<char>> {
    match failure {
        Failure::NotFound { path, .. } => seq![path],
        Failure::MissingImports { paths, .. } => paths,
        Failure::MissingUrls { paths, .. } => paths,
        _ => Seq::empty(),
    }
}

impl Error {
    /// The paths that this error says do not exist.
    pub fn absent(&self) -> (paths: Vec<String>)
        ensures
            paths.deep_view() == absent(self.deep_view()),
    {
        match self {
            Error::NotFound { path, .. } => one_string(path.clone()),
            Error::MissingImports { paths, .. } => copy_of(paths),
            Error::MissingUrls { paths, .. } => copy_of(paths),
            _ => no_strings(),
        }
    }
}

fn copy_of(list: &Vec<String>) -> (r: Vec<String>)
    ensures
        r.deep_view() == list.deep_view(),
{
    let mut r: Vec<String> = no_strings();
    let mut i: usize = 0;
    while i < list.len()
        invariant
            i <= list.len(),
            r.deep_view() == list.deep_view().subrange(0, i as int),
        decreases list.len() - i,
    {
        r = with_string(&r, list[i].clone());
        i += 1;
    }
    r
}

} // verus!
