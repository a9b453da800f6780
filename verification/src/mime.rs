use vstd::prelude::*;
use vstd::string::*;
use crate::utils::bytes_equal;

verus! {

/// The media type under which a file with the given extension is served.
/// An extension that the table does not know is served as bytes.
pub open spec fn mime_type_of(extension: Seq<u8>) -> &'static str {
    if extension == "html".spec_bytes() || extension == "htm".spec_bytes() || extension
        == "php".spec_bytes() {
        "text/html"
    } else if extension == "css".spec_bytes() {
        "text/css"
    } else if extension == "js".spec_bytes() {
        "text/javascript"
    } else if extension == "json".spec_bytes() {
        "application/json"
    } else if extension == "txt".spec_bytes() {
        "text/plain"
    } else if extension == "png".spec_bytes() {
        "image/png"
    } else if extension == "jpg".spec_bytes() || extension == "jpeg".spec_bytes() {
        "image/jpeg"
    } else if extension == "gif".spec_bytes() {
        "image/gif"
    } else if extension == "svg".spec_bytes() {
        "image/svg+xml"
    } else if extension == "ico".spec_bytes() {
        "image/x-icon"
    } else if extension == "mp4".spec_bytes() {
        "video/mp4"
    } else if extension == "pdf".spec_bytes() {
        "application/pdf"
    } else {
        "application/octet-stream"
    }
}

/// Computes [`mime_type_of`].
pub fn get_mime_type(extension: &[u8]) -> (media_type: &'static str)
    ensures
        media_type@ == mime_type_of(extension@)@,
{
    if bytes_equal(extension, "html".as_bytes()) || bytes_equal(extension, "htm".as_bytes())
        || bytes_equal(extension, "php".as_bytes()) {
        "text/html"
    } else if bytes_equal(extension, "css".as_bytes()) {
        "text/css"
    } else if bytes_equal(extension, "js".as_bytes()) {
        "text/javascript"
    } else if bytes_equal(extension, "json".as_bytes()) {
        "application/json"
    } else if bytes_equal(extension, "txt".as_bytes()) {
        "text/plain"
    } else if bytes_equal(extension, "png".as_bytes()) {
        "image/png"
    } else if bytes_equal(extension, "jpg".as_bytes()) || bytes_equal(
        extension,
        "jpeg".as_bytes(),
    ) {
        "image/jpeg"
    } else if bytes_equal(extension, "gif".as_bytes()) {
        "image/gif"
    } else if bytes_equal(extension, "svg".as_bytes()) {
        "image/svg+xml"
    } else if bytes_equal(extension, "ico".as_bytes()) {
        "image/x-icon"
    } else if bytes_equal(extension, "mp4".as_bytes()) {
        "video/mp4"
    } else if bytes_equal(extension, "pdf".as_bytes()) {
        "application/pdf"
    } else {
        "application/octet-stream"
    }
}

} // verus!
