//! The web side's pure pieces: the error type, the asset response with
//! its content type derived from the requested path, and the startup check
//! that the essential embedded files are present. Reading the asset store
//! or the filesystem happens outside the crate; these functions compute
//! from the names and bytes they are handed.

use vstd::prelude::*;
use vstd::utf8::encode_utf8;

use crate::bytes::bytes_eq;
use crate::json::DOT;

verus! {

/// Failures of the web side.
#[derive(Debug)]
pub enum WebServerError {
    /// The serving loop failed after startup.
    Server(String),
    /// The configuration could not be applied (for instance, the bind
    /// address was not available).
    Config(String),
}

/// What the asset endpoint answers: the asset's bytes with their content
/// type, or a plain not-found.
pub enum AssetResponse {
    NotFound,
    Asset { content: Vec<u8>, content_type: String },
}

/// The part of `path` after its last dot; the whole path when it has no
/// dot (scanning leftwards from position `i`).
pub open spec fn spec_ext_from(path: Seq<u8>, i: int) -> Seq<u8>
    decreases i,
{
    if i <= 0 {
        path
    } else if path[i - 1] == DOT {
        path.subrange(i, path.len() as int)
    } else {
        spec_ext_from(path, i - 1)
    }
}

/// The extension the content type is chosen by.
pub open spec fn spec_ext(path: Seq<u8>) -> Seq<u8> {
    spec_ext_from(path, path.len() as int)
}

/// The content type served for a path: known extensions map to their
/// media type, everything else is an opaque byte stream.
pub open spec fn spec_content_type(path: Seq<u8>) -> Seq<char> {
    let ext = spec_ext(path);
    if ext == encode_utf8("js"@) {
        "application/javascript"@
    } else if ext == encode_utf8("wasm"@) {
        "application/wasm"@
    } else if ext == encode_utf8("html"@) {
        "text/html"@
    } else if ext == encode_utf8("css"@) {
        "text/css"@
    } else if ext == encode_utf8("png"@) {
        "image/png"@
    } else if ext == encode_utf8("jpg"@) || ext == encode_utf8("jpeg"@) {
        "image/jpeg"@
    } else if ext == encode_utf8("svg"@) {
        "image/svg+xml"@
    } else if ext == encode_utf8("json"@) {
        "application/json"@
    } else {
        "application/octet-stream"@
    }
}

/// The part of `path` after its last dot, executable side.
fn extension_of(path: &[u8]) -> (r: Vec<u8>)
    ensures
        r@ == spec_ext(path@),
{
    let mut i: usize = path.len();
    while i > 0
        invariant
            i <= path.len(),
            spec_ext(path@) == spec_ext_from(path@, i as int),
        decreases i,
    {
        if path[i - 1] == DOT {
            return crate::bytes::copy_range(path, i, path.len());
        }
        i = i - 1;
    }
    crate::bytes::copy_bytes(&vstd::slice::slice_to_vec(path))
}

/// The content type served for a path.
pub fn content_type_for(path: &[u8]) -> (r: &'static str)
    ensures
        r@ == spec_content_type(path@),
{
    let ext = extension_of(path);
    if bytes_eq(ext.as_slice(), "js".as_bytes()) {
        "application/javascript"
    } else if bytes_eq(ext.as_slice(), "wasm".as_bytes()) {
        "application/wasm"
    } else if bytes_eq(ext.as_slice(), "html".as_bytes()) {
        "text/html"
    } else if bytes_eq(ext.as_slice(), "css".as_bytes()) {
        "text/css"
    } else if bytes_eq(ext.as_slice(), "png".as_bytes()) {
        "image/png"
    } else if bytes_eq(ext.as_slice(), "jpg".as_bytes()) || bytes_eq(
        ext.as_slice(),
        "jpeg".as_bytes(),
    ) {
        "image/jpeg"
    } else if bytes_eq(ext.as_slice(), "svg".as_bytes()) {
        "image/svg+xml"
    } else if bytes_eq(ext.as_slice(), "json".as_bytes()) {
        "application/json"
    } else {
        "application/octet-stream"
    }
}

/// The response for one asset request: the bytes the asset store found
/// under the path, typed by the path's extension; absent → not found.
pub fn asset_response(found: Option<Vec<u8>>, path: &[u8]) -> (r: AssetResponse)
    ensures
        match r {
            AssetResponse::NotFound => found is None,
            AssetResponse::Asset { content, content_type } => found is Some && content@
                == found->0@ && content_type@ == spec_content_type(path@),
        },
{
    match found {
        None => AssetResponse::NotFound,
        Some(data) => AssetResponse::Asset {
            content: data,
            content_type: String::from_str(content_type_for(path)),
        },
    }
}

/// One of the names equals `name`.
pub open spec fn has_file(files: Seq<Seq<u8>>, name: Seq<u8>) -> bool {
    exists|i: int| 0 <= i < files.len() && files[i] == name
}

fn contains_name(files: &Vec<Vec<u8>>, name: &str) -> (r: bool)
    ensures
        r == has_file(files@.map_values(|f: Vec<u8>| f@), encode_utf8(name@)),
{
    let mut i: usize = 0;
    while i < files.len()
        invariant
            i <= files.len(),
            forall|j: int| 0 <= j < i ==> files@[j]@ != encode_utf8(name@),
        decreases files.len() - i,
    {
        if bytes_eq(files[i].as_slice(), name.as_bytes()) {
            proof {
                assert(files@.map_values(|f: Vec<u8>| f@)[i as int] == encode_utf8(name@));
            }
            return true;
        }
        i = i + 1;
    }
    proof {
        let names = files@.map_values(|f: Vec<u8>| f@);
        assert forall|j: int| 0 <= j < names.len() implies #[trigger] names[j] != encode_utf8(
            name@,
        ) by {
            assert(names[j] == files@[j]@);
        }
    }
    false
}

/// Whether the embedded asset bundle is complete: the page and the two
/// client-module files must all be present among the embedded names.
pub fn verify_embedded_assets(files: &Vec<Vec<u8>>) -> (r: bool)
    ensures
        r == ({
            let names = files@.map_values(|f: Vec<u8>| f@);
            &&& has_file(names, encode_utf8("index.html"@))
            &&& has_file(names, encode_utf8("assets/p2p_chat_wasm.js"@))
            &&& has_file(names, encode_utf8("assets/p2p_chat_wasm_bg.wasm"@))
        }),
{
    let a = contains_name(files, "index.html");
    let b = contains_name(files, "assets/p2p_chat_wasm.js");
    let c = contains_name(files, "assets/p2p_chat_wasm_bg.wasm");
    a && b && c
}

} // verus!
