//! Content type of an object, guessed from its extension.

use vstd::prelude::*;
use vstd::string::StringExecFns;
use crate::text::{ascii_lower, ascii_lower_chars, chars_of, ends_with, has_suffix};

verus! {

/// The content type for a path whose letters are already lowercase.
pub open spec fn content_type_for(lower: Seq<char>) -> Seq<char> {
    if has_suffix(lower, ".zip"@) {
        "application/zip"@
    } else if has_suffix(lower, ".tar.gz"@) || has_suffix(lower, ".tgz"@) {
        "application/gzip"@
    } else if has_suffix(lower, ".tar"@) {
        "application/x-tar"@
    } else if has_suffix(lower, ".gz"@) {
        "application/gzip"@
    } else if has_suffix(lower, ".json"@) {
        "application/json"@
    } else if has_suffix(lower, ".xml"@) {
        "application/xml"@
    } else if has_suffix(lower, ".html"@) || has_suffix(lower, ".htm"@) {
        "text/html"@
    } else if has_suffix(lower, ".css"@) {
        "text/css"@
    } else if has_suffix(lower, ".js"@) {
        "application/javascript"@
    } else if has_suffix(lower, ".png"@) {
        "image/png"@
    } else if has_suffix(lower, ".jpg"@) || has_suffix(lower, ".jpeg"@) {
        "image/jpeg"@
    } else if has_suffix(lower, ".gif"@) {
        "image/gif"@
    } else if has_suffix(lower, ".svg"@) {
        "image/svg+xml"@
    } else if has_suffix(lower, ".pdf"@) {
        "application/pdf"@
    } else if has_suffix(lower, ".exe"@) {
        "application/x-msdownload"@
    } else if has_suffix(lower, ".dmg"@) {
        "application/x-apple-diskimage"@
    } else if has_suffix(lower, ".deb"@) {
        "application/x-debian-package"@
    } else if has_suffix(lower, ".rpm"@) {
        "application/x-rpm"@
    } else {
        "application/octet-stream"@
    }
}

fn suffix(lower: &Vec<char>, ext: &str) -> (r: bool)
    ensures
        r == has_suffix(lower@, ext@),
{
    let e = chars_of(ext);
    ends_with(lower, &e)
}

/// Guesses the MIME type of a path from its extension, ignoring case.
///
/// Only ASCII letters are folded: among the characters whose lowercase form
/// differs from their ASCII folding, none lowercases to a string ending in
/// one of the extensions below, so full Unicode lowercasing gives the same
/// answer.
pub fn guess_content_type(path: &str) -> (r: String)
    ensures
        r@ == content_type_for(ascii_lower(path@)),
{
    let cs = chars_of(path);
    let lower = ascii_lower_chars(&cs);
    let t = if suffix(&lower, ".zip") {
        "application/zip"
    } else if suffix(&lower, ".tar.gz") || suffix(&lower, ".tgz") {
        "application/gzip"
    } else if suffix(&lower, ".tar") {
        "application/x-tar"
    } else if suffix(&lower, ".gz") {
        "application/gzip"
    } else if suffix(&lower, ".json") {
        "application/json"
    } else if suffix(&lower, ".xml") {
        "application/xml"
    } else if suffix(&lower, ".html") || suffix(&lower, ".htm") {
        "text/html"
    } else if suffix(&lower, ".css") {
        "text/css"
    } else if suffix(&lower, ".js") {
        "application/javascript"
    } else if suffix(&lower, ".png") {
        "image/png"
    } else if suffix(&lower, ".jpg") || suffix(&lower, ".jpeg") {
        "image/jpeg"
    } else if suffix(&lower, ".gif") {
        "image/gif"
    } else if suffix(&lower, ".svg") {
        "image/svg+xml"
    } else if suffix(&lower, ".pdf") {
        "application/pdf"
    } else if suffix(&lower, ".exe") {
        "application/x-msdownload"
    } else if suffix(&lower, ".dmg") {
        "application/x-apple-diskimage"
    } else if suffix(&lower, ".deb") {
        "application/x-debian-package"
    } else if suffix(&lower, ".rpm") {
        "application/x-rpm"
    } else {
        "application/octet-stream"
    };
    String::from_str(t)
}

} // verus!

verus! {

/// The guess ignores ASCII case: lowercasing a path first does not change it,
/// and two paths that differ only in the case of ASCII letters get the same
/// content type.
pub proof fn lemma_content_type_ignores_case(a: Seq<char>, b: Seq<char>)
    requires
        ascii_lower(a) == ascii_lower(b),
    ensures
        content_type_for(ascii_lower(a)) == content_type_for(ascii_lower(b)),
        content_type_for(ascii_lower(ascii_lower(a))) == content_type_for(ascii_lower(a)),
{
    assert(ascii_lower(ascii_lower(a)) =~= ascii_lower(a));
}

} // verus!

verus! {

/// The content type listed for an extension (written in lowercase, with its
/// leading dot); none for an extension that is not listed.
pub open spec fn listed_type(ext: Seq<char>) -> Option<Seq<char>> {
    if ext == ".zip"@ {
        Some("application/zip"@)
    } else if ext == ".tar.gz"@ || ext == ".tgz"@ || ext == ".gz"@ {
        Some("application/gzip"@)
    } else if ext == ".tar"@ {
        Some("application/x-tar"@)
    } else if ext == ".json"@ {
        Some("application/json"@)
    } else if ext == ".xml"@ {
        Some("application/xml"@)
    } else if ext == ".html"@ || ext == ".htm"@ {
        Some("text/html"@)
    } else if ext == ".css"@ {
        Some("text/css"@)
    } else if ext == ".js"@ {
        Some("application/javascript"@)
    } else if ext == ".png"@ {
        Some("image/png"@)
    } else if ext == ".jpg"@ || ext == ".jpeg"@ {
        Some("image/jpeg"@)
    } else if ext == ".gif"@ {
        Some("image/gif"@)
    } else if ext == ".svg"@ {
        Some("image/svg+xml"@)
    } else if ext == ".pdf"@ {
        Some("application/pdf"@)
    } else if ext == ".exe"@ {
        Some("application/x-msdownload"@)
    } else if ext == ".dmg"@ {
        Some("application/x-apple-diskimage"@)
    } else if ext == ".deb"@ {
        Some("application/x-debian-package"@)
    } else if ext == ".rpm"@ {
        Some("application/x-rpm"@)
    } else {
        None
    }
}

/// A suffix of at least three characters agrees with the string on its last
/// three characters.
proof fn lemma_suffix_last_three(t: Seq<char>, f: Seq<char>)
    requires
        f.len() >= 3,
        has_suffix(t, f),
    ensures
        t[t.len() - 1] == f[f.len() - 1],
        t[t.len() - 2] == f[f.len() - 2],
        t[t.len() - 3] == f[f.len() - 3],
{
    let sub = t.subrange(t.len() - f.len(), t.len() as int);
    assert(sub[f.len() - 1] == t[t.len() - 1]);
    assert(sub[f.len() - 2] == t[t.len() - 2]);
    assert(sub[f.len() - 3] == t[t.len() - 3]);
}

/// The type depends only on the extension: a path that ends, in any letter
/// case, with a listed extension gets that extension's type, whatever comes
/// before it.
pub proof fn lemma_content_type_by_extension(stem: Seq<char>, ext: Seq<char>)
    requires
        listed_type(ascii_lower(ext)) is Some,
    ensures
        content_type_for(ascii_lower(stem + ext)) == listed_type(ascii_lower(ext))->0,
{
    reveal_strlit(".zip");
    reveal_strlit(".tar.gz");
    reveal_strlit(".tgz");
    reveal_strlit(".tar");
    reveal_strlit(".gz");
    reveal_strlit(".json");
    reveal_strlit(".xml");
    reveal_strlit(".html");
    reveal_strlit(".htm");
    reveal_strlit(".css");
    reveal_strlit(".js");
    reveal_strlit(".png");
    reveal_strlit(".jpg");
    reveal_strlit(".jpeg");
    reveal_strlit(".gif");
    reveal_strlit(".svg");
    reveal_strlit(".pdf");
    reveal_strlit(".exe");
    reveal_strlit(".dmg");
    reveal_strlit(".deb");
    reveal_strlit(".rpm");
    let e = ascii_lower(ext);
    let t = ascii_lower(stem + ext);
    assert(t =~= ascii_lower(stem) + e);
    assert(e.len() >= 3);
    assert(t.subrange(t.len() - e.len(), t.len() as int) =~= e);
    assert(has_suffix(t, e));
    assert(t[t.len() - 1] == e[e.len() - 1]);
    assert(t[t.len() - 2] == e[e.len() - 2]);
    assert(t[t.len() - 3] == e[e.len() - 3]);
    if has_suffix(t, ".zip"@) { lemma_suffix_last_three(t, ".zip"@); }
    if has_suffix(t, ".tar.gz"@) { lemma_suffix_last_three(t, ".tar.gz"@); }
    if has_suffix(t, ".tgz"@) { lemma_suffix_last_three(t, ".tgz"@); }
    if has_suffix(t, ".tar"@) { lemma_suffix_last_three(t, ".tar"@); }
    if has_suffix(t, ".gz"@) { lemma_suffix_last_three(t, ".gz"@); }
    if has_suffix(t, ".json"@) { lemma_suffix_last_three(t, ".json"@); }
    if has_suffix(t, ".xml"@) { lemma_suffix_last_three(t, ".xml"@); }
    if has_suffix(t, ".html"@) { lemma_suffix_last_three(t, ".html"@); }
    if has_suffix(t, ".htm"@) { lemma_suffix_last_three(t, ".htm"@); }
    if has_suffix(t, ".css"@) { lemma_suffix_last_three(t, ".css"@); }
    if has_suffix(t, ".js"@) { lemma_suffix_last_three(t, ".js"@); }
    if has_suffix(t, ".png"@) { lemma_suffix_last_three(t, ".png"@); }
    if has_suffix(t, ".jpg"@) { lemma_suffix_last_three(t, ".jpg"@); }
    if has_suffix(t, ".jpeg"@) { lemma_suffix_last_three(t, ".jpeg"@); }
    if has_suffix(t, ".gif"@) { lemma_suffix_last_three(t, ".gif"@); }
    if has_suffix(t, ".svg"@) { lemma_suffix_last_three(t, ".svg"@); }
    if has_suffix(t, ".pdf"@) { lemma_suffix_last_three(t, ".pdf"@); }
    if has_suffix(t, ".exe"@) { lemma_suffix_last_three(t, ".exe"@); }
    if has_suffix(t, ".dmg"@) { lemma_suffix_last_three(t, ".dmg"@); }
    if has_suffix(t, ".deb"@) { lemma_suffix_last_three(t, ".deb"@); }
    if has_suffix(t, ".rpm"@) { lemma_suffix_last_three(t, ".rpm"@); }
}

} // verus!
