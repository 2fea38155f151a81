//! Embedding a file as a `data:` URI: which media type it gets, and how its
//! bytes are written down.

use vstd::prelude::*;
use crate::path::{extension, extension_of};
use crate::text::{same, starts_with};

verus! {

/// The base64 text of `bytes`, standard alphabet, padded: what the `base64`
/// crate writes for them.
pub uninterp spec fn base64_text(bytes: Seq<u8>) -> Seq<char>;

/// The media type that the `infer` crate reads off the first bytes of a
/// file, where it recognises them.
pub uninterp spec fn sniffed_mime(bytes: Seq<u8>) -> Option<Seq<char>>;

/// The media type that the `mime_guess` crate has for a file extension;
/// its fallback where it knows none.
pub uninterp spec fn extension_mime(ext: Seq<char>) -> Seq<char>;

/// `base64::encode`: the result is the base64 text of the bytes.
#[verifier::external_body]
#[allow(deprecated)]
fn encode_base64(bytes: &Vec<u8>) -> (r: String)
    ensures
        r@ == base64_text(bytes@),
{
    base64::encode(bytes)
}

/// `infer::get`, and `mime_type` on the kind it found: the media type
/// that the crate's signatures give to these bytes, if any matches.
#[verifier::external_body]
fn sniff(bytes: &Vec<u8>) -> (r: Option<String>)
    ensures
        r.deep_view() == sniffed_mime(bytes@),
{
    infer::get(bytes).map(|kind| kind.mime_type().to_string())
}

/// `mime_guess::from_ext` followed by `first_or_octet_stream`: the first
/// media type of the crate's table for this extension, written out. For
/// the empty extension the crate looks nothing up and falls back to
/// `application/octet-stream`.
#[verifier::external_body]
fn guess(ext: &str) -> (r: String)
    ensures
        r@ == extension_mime(ext@),
        ext@.len() == 0 ==> r@ == "application/octet-stream"@,
{
    mime_guess::from_ext(ext).first_or_octet_stream().to_string()
}

/// The `data:` URI of media type `mime` around a base64 `payload`.
pub open spec fn data_uri_around(mime: Seq<char>, payload: Seq<char>) -> Seq<char> {
    "data:"@ + mime + ";base64,"@ + payload
}

/// The `data:` URI that embeds `bytes` under the media type `mime`.
pub open spec fn data_uri(mime: Seq<char>, bytes: Seq<u8>) -> Seq<char> {
    data_uri_around(mime, base64_text(bytes))
}

/// Whether a media type is that of an image.
pub open spec fn is_image_mime(mime: Seq<char>) -> bool {
    "image/"@.is_prefix_of(mime)
}

/// The media type of an image with the given extension, of which `sniffed`
/// was read off its first bytes and `guessed` goes with its name:
/// `image/svg+xml` for the extension `svg`, else what was sniffed, else
/// what was guessed.
pub open spec fn image_mime_among(
    extension: Option<Seq<char>>,
    sniffed: Option<Seq<char>>,
    guessed: Seq<char>,
) -> Seq<char> {
    if extension == Some("svg"@) {
        "image/svg+xml"@
    } else {
        match sniffed {
            Some(mime) => mime,
            None => guessed,
        }
    }
}

/// The extension of `path`, empty where it has none.
pub open spec fn extension_or_empty(path: Seq<char>) -> Seq<char> {
    match extension_of(path) {
        Some(ext) => ext,
        None => Seq::empty(),
    }
}

/// The media type of a file judged by its name alone.
pub open spec fn mime_by_path(path: Seq<char>) -> Seq<char> {
    extension_mime(extension_or_empty(path))
}

/// The media type of an image: `image/svg+xml` for the extension `svg`,
/// else what the first bytes give away, else what the name suggests.
pub open spec fn image_mime_of(path: Seq<char>, bytes: Seq<u8>) -> Seq<char> {
    image_mime_among(extension_of(path), sniffed_mime(bytes), mime_by_path(path))
}

/// Puts a `data:` URI of media type `mime` around a base64 `payload`.
pub fn data_uri_text(mime: &str, payload: &str) -> (r: String)
    ensures
        r@ == data_uri_around(mime@, payload@),
{
    let mut r: String = "data:".to_owned();
    r.append(mime);
    r.append(";base64,");
    r.append(payload);
    r
}

/// Writes `contents` as a `data:` URI of media type `mime`.
pub fn to_base64(contents: &Vec<u8>, mime: &str) -> (r: String)
    ensures
        r@ == data_uri(mime@, contents@),
{
    let payload: String = encode_base64(contents);
    data_uri_text(mime, payload.as_str())
}

/// Whether a media type is that of an image.
pub fn is_image(mime: &str) -> (b: bool)
    ensures
        b == is_image_mime(mime@),
{
    starts_with(mime, "image/")
}

/// The media type of the file at `path`, judged by its name alone. A file
/// without an extension is `application/octet-stream`.
pub fn path_mime(path: &str) -> (r: String)
    ensures
        r@ == mime_by_path(path@),
        extension_of(path@) is None ==> r@ == "application/octet-stream"@,
{
    match extension(path) {
        Some(ext) => guess(ext.as_str()),
        None => guess(String::new().as_str()),
    }
}

/// Chooses the media type of an image with the given extension, of which
/// `sniffed` was read off its first bytes and `guessed` goes with its name.
pub fn image_mime_from(extension: Option<&String>, sniffed: Option<String>, guessed: String) -> (r:
    String)
    ensures
        r@ == image_mime_among(extension.deep_view(), sniffed.deep_view(), guessed@),
{
    let is_svg: bool = match extension {
        Some(e) => same(e.as_str(), "svg"),
        None => false,
    };
    if is_svg {
        return "image/svg+xml".to_owned();
    }
    match sniffed {
        Some(mime) => mime,
        None => guessed,
    }
}

/// The media type under which an image at `path` holding `contents` is
/// embedded.
pub fn image_mime(path: &str, contents: &Vec<u8>) -> (r: String)
    ensures
        r@ == image_mime_of(path@, contents@),
{
    let ext: Option<String> = extension(path);
    let guessed: String = path_mime(path);
    let sniffed: Option<String> = sniff(contents);
    image_mime_from(ext.as_ref(), sniffed, guessed)
}

/// The `data:` URI that embeds the file at `path` under the media type
/// its name suggests.
pub fn embed_by_name(path: &str, contents: &Vec<u8>) -> (r: String)
    ensures
        r@ == data_uri(mime_by_path(path@), contents@),
{
    let mime: String = path_mime(path);
    to_base64(contents, mime.as_str())
}

} // verus!
