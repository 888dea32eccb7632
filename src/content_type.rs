use vstd::prelude::*;

use crate::text::same_text;

verus! {

/// The MIME type of files with extension `ext` (no leading dot); empty where
/// the extension has no mapping.
pub open spec fn mime_of(ext: Seq<char>) -> Seq<char> {
    if ext == "html"@ {
        "text/html"@
    } else if ext == "htm"@ {
        "text/html"@
    } else if ext == "css"@ {
        "text/css"@
    } else if ext == "js"@ {
        "text/javascript"@
    } else if ext == "json"@ {
        "application/json"@
    } else if ext == "txt"@ {
        "text/plain"@
    } else if ext == "csv"@ {
        "text/csv"@
    } else if ext == "xml"@ {
        "application/xml"@
    } else if ext == "pdf"@ {
        "application/pdf"@
    } else if ext == "zip"@ {
        "application/zip"@
    } else if ext == "gz"@ {
        "application/gzip"@
    } else if ext == "tar"@ {
        "application/x-tar"@
    } else if ext == "png"@ {
        "image/png"@
    } else if ext == "jpg"@ {
        "image/jpeg"@
    } else if ext == "jpeg"@ {
        "image/jpeg"@
    } else if ext == "gif"@ {
        "image/gif"@
    } else if ext == "svg"@ {
        "image/svg+xml"@
    } else if ext == "ico"@ {
        "image/x-icon"@
    } else if ext == "webp"@ {
        "image/webp"@
    } else if ext == "mp3"@ {
        "audio/mpeg"@
    } else if ext == "wav"@ {
        "audio/wav"@
    } else if ext == "mp4"@ {
        "video/mp4"@
    } else if ext == "doc"@ {
        "application/msword"@
    } else if ext == "docx"@ {
        "application/vnd.openxmlformats-officedocument.wordprocessingml.document"@
    } else if ext == "xls"@ {
        "application/vnd.ms-excel"@
    } else if ext == "xlsx"@ {
        "application/vnd.openxmlformats-officedocument.spreadsheetml.sheet"@
    } else {
        Seq::empty()
    }
}

/// The MIME type of files with extension `ext`, or an empty string.
pub fn mime_type(ext: &String) -> (r: String)
    ensures
        r@ == mime_of(ext@),
{
    if same_text(ext, "html") {
        "text/html".to_owned()
    } else if same_text(ext, "htm") {
        "text/html".to_owned()
    } else if same_text(ext, "css") {
        "text/css".to_owned()
    } else if same_text(ext, "js") {
        "text/javascript".to_owned()
    } else if same_text(ext, "json") {
        "application/json".to_owned()
    } else if same_text(ext, "txt") {
        "text/plain".to_owned()
    } else if same_text(ext, "csv") {
        "text/csv".to_owned()
    } else if same_text(ext, "xml") {
        "application/xml".to_owned()
    } else if same_text(ext, "pdf") {
        "application/pdf".to_owned()
    } else if same_text(ext, "zip") {
        "application/zip".to_owned()
    } else if same_text(ext, "gz") {
        "application/gzip".to_owned()
    } else if same_text(ext, "tar") {
        "application/x-tar".to_owned()
    } else if same_text(ext, "png") {
        "image/png".to_owned()
    } else if same_text(ext, "jpg") {
        "image/jpeg".to_owned()
    } else if same_text(ext, "jpeg") {
        "image/jpeg".to_owned()
    } else if same_text(ext, "gif") {
        "image/gif".to_owned()
    } else if same_text(ext, "svg") {
        "image/svg+xml".to_owned()
    } else if same_text(ext, "ico") {
        "image/x-icon".to_owned()
    } else if same_text(ext, "webp") {
        "image/webp".to_owned()
    } else if same_text(ext, "mp3") {
        "audio/mpeg".to_owned()
    } else if same_text(ext, "wav") {
        "audio/wav".to_owned()
    } else if same_text(ext, "mp4") {
        "video/mp4".to_owned()
    } else if same_text(ext, "doc") {
        "application/msword".to_owned()
    } else if same_text(ext, "docx") {
        "application/vnd.openxmlformats-officedocument.wordprocessingml.document".to_owned()
    } else if same_text(ext, "xls") {
        "application/vnd.ms-excel".to_owned()
    } else if same_text(ext, "xlsx") {
        "application/vnd.openxmlformats-officedocument.spreadsheetml.sheet".to_owned()
    } else {
        String::new()
    }
}

} // verus!
