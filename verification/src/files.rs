//! The files a document can see, held in memory.
//!
//! A path exists exactly when the collection holds it. Paths are compared
//! character by character: `a/./b` and `a/b` are two different entries.

use vstd::prelude::*;
use vstd::utf8::{decode_utf8, valid_utf8};
use crate::text::same;

verus! {

/// One file: the path it is known by and what it holds.
struct FileEntry {
    path: String,
    bytes: Vec<u8>,
}

/// A set of files, each known by its path.
pub struct Files {
    entries: Vec<FileEntry>,
}

/// The files that a list of entries stands for. A later entry replaces an
/// earlier one of the same path.
spec fn listing(entries: Seq<FileEntry>) -> Map<Seq<char>, Seq<u8>>
    decreases entries.len(),
{
    if entries.len() == 0 {
        Map::empty()
    } else {
        listing(entries.drop_last()).insert(entries.last().path@, entries.last().bytes@)
    }
}

proof fn lemma_listing_hit(entries: Seq<FileEntry>, i: int, path: Seq<char>)
    requires
        0 <= i < entries.len(),
        entries[i].path@ == path,
        forall|j: int| i < j < entries.len() ==> entries[j].path@ != path,
    ensures
        listing(entries).contains_key(path),
        listing(entries)[path] == entries[i].bytes@,
    decreases entries.len(),
{
    if i < entries.len() - 1 {
        lemma_listing_hit(entries.drop_last(), i, path);
    }
}

proof fn lemma_listing_miss(entries: Seq<FileEntry>, path: Seq<char>)
    requires
        forall|j: int| 0 <= j < entries.len() ==> entries[j].path@ != path,
    ensures
        !listing(entries).contains_key(path),
    decreases entries.len(),
{
    if entries.len() > 0 {
        lemma_listing_miss(entries.drop_last(), path);
    }
}

proof fn lemma_listing_finite(entries: Seq<FileEntry>)
    ensures
        listing(entries).dom().finite(),
    decreases entries.len(),
{
    if entries.len() > 0 {
        lemma_listing_finite(entries.drop_last());
    }
}

impl View for Files {
    type V = Map<Seq<char>, Seq<u8>>;

    closed spec fn view(&self) -> Map<Seq<char>, Seq<u8>> {
        listing(self.entries@)
    }
}

impl Files {
    /// No file at all.
    pub fn new() -> (files: Files)
        ensures
            files@ == Map::<Seq<char>, Seq<u8>>::empty(),
    {
        Files { entries: Vec::new() }
    }

    /// Adds a file, or replaces the one that `path` stood for.
    pub fn insert(&mut self, path: String, bytes: Vec<u8>)
        ensures
            final(self)@ == old(self)@.insert(path@, bytes@),
    {
        let ghost before = self.entries@;
        let entry = FileEntry { path, bytes };
        self.entries.push(entry);
        assert(self.entries@.drop_last() =~= before);
    }

    /// Whether `path` exists.
    pub fn contains(&self, path: &str) -> (b: bool)
        ensures
            b == self@.contains_key(path@),
    {
        self.get(path).is_some()
    }

    /// What the file at `path` holds, where it exists.
    pub fn get(&self, path: &str) -> (r: Option<&Vec<u8>>)
        ensures
            r is Some <==> self@.contains_key(path@),
            r matches Some(bytes) ==> bytes@ == self@[path@],
    {
        let mut i: usize = self.entries.len();
        while i > 0
            invariant
                i <= self.entries.len(),
                forall|j: int| i <= j < self.entries.len() ==> self.entries[j].path@ != path@,
            decreases i,
        {
            i -= 1;
            if same(self.entries[i].path.as_str(), path) {
                proof {
                    lemma_listing_hit(self.entries@, i as int, path@);
                }
                return Some(&self.entries[i].bytes);
            }
        }
        proof {
            lemma_listing_miss(self.entries@, path@);
        }
        None
    }

    /// What the file at `path` holds, read as UTF-8 text.
    pub fn text(&self, path: &str) -> (r: Option<String>)
        ensures
            r.deep_view() == text_at(self@, path@),
    {
        match self.get(path) {
            None => None,
            Some(bytes) => decode(bytes),
        }
    }

    /// However it was built, a collection holds finitely many files.
    pub proof fn lemma_finite(&self)
        ensures
            self@.dom().finite(),
    {
        lemma_listing_finite(self.entries@);
    }
}

/// The text of the file at `path`: there where the file exists and its
/// bytes are well-formed UTF-8.
pub open spec fn text_at(files: Map<Seq<char>, Seq<u8>>, path: Seq<char>) -> Option<Seq<char>> {
    if files.contains_key(path) && valid_utf8(files[path]) {
        Some(decode_utf8(files[path]))
    } else {
        None
    }
}

/// `String::from_utf8` of the standard library: the text is there exactly
/// when the bytes are well-formed UTF-8, and it is then their decoding.
#[verifier::external_body]
fn decode(bytes: &Vec<u8>) -> (r: Option<String>)
    ensures
        r is Some <==> valid_utf8(bytes@),
        r matches Some(s) ==> s@ == decode_utf8(bytes@),
{
    String::from_utf8(bytes.clone()).ok()
}

} // verus!
