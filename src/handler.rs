use crate::data::{extension_of, get_mime_type, mime_for_extension, mime_text};
use crate::files::{guard, open_result, resolution, FileTree, OpenOutcome, PathError};
use crate::headers::insert_entry;
use crate::message::{decimal, default_headers, HttpStatus, Request, RequestError, Response};
use vstd::prelude::*;
use vstd::slice::slice_to_vec;
use vstd::string::StringSliceAdditionalSpecFns;

verus! {

/// Body of a `400 Bad Request` response.
pub const DEFAULT_BAD_REQUEST_BODY: &'static str =
    "<html><body><h1>400 Bad Request</h1></body></html>";

/// Body of a `404 Not Found` response.
pub const DEFAULT_NOT_FOUND_BODY: &'static str =
    "<html><body><h1>404 Not Found</h1></body></html>";

/// Body of a `500 Internal Server Error` response.
pub const DEFAULT_INTERNAL_ERROR_BODY: &'static str =
    "<html><body><h1>500 Internal Server Error</h1></body></html>";

/// The headers of a response that carries `body_len` bytes of the given content type.
pub open spec fn typed_headers(content_type: Seq<char>, body_len: nat) -> Seq<(Seq<char>, Seq<char>)> {
    insert_entry(
        insert_entry(default_headers(), "Content-Type"@, content_type),
        "Content-Length"@,
        decimal(body_len),
    )
}

/// `r` is the HTML page for `status` whose body is the UTF-8 encoding of `page`.
pub open spec fn is_error_page(r: Response, status: HttpStatus, page: Seq<char>) -> bool {
    let bytes = vstd::utf8::encode_utf8(page);
    &&& r.status == status
    &&& r.headers@ == typed_headers("text/html"@, bytes.len())
    &&& r.body matches Some(b) && b@ == bytes
}

/// The status that answers the outcome of resolving a request path.
pub open spec fn status_for(res: Result<u64, PathError>) -> HttpStatus {
    match res {
        Ok(_) => HttpStatus::OK,
        Err(PathError::NotFound) => HttpStatus::NotFound,
        Err(_) => HttpStatus::InternalServerError,
    }
}

/// The page sent with an error status.
pub open spec fn error_page_for(status: HttpStatus) -> Seq<char> {
    if status == HttpStatus::BadRequest {
        DEFAULT_BAD_REQUEST_BODY@
    } else if status == HttpStatus::NotFound {
        DEFAULT_NOT_FOUND_BODY@
    } else {
        DEFAULT_INTERNAL_ERROR_BODY@
    }
}

/// What the connection does once the request has been read.
pub enum Step {
    /// Send this response and close.
    Respond(Response),
    /// Open this path, relative to the root, and report what that gave.
    Open(String),
}

/// A complete HTML error response: the status, `Content-Type: text/html`, the page's
/// length as `Content-Length`, and the page as body.
pub fn error_page(status: HttpStatus, page: &str) -> (r: Response)
    ensures
        is_error_page(r, status, page@),
{
    let bytes = slice_to_vec(page.as_bytes());
    let len = bytes.len() as u64;
    Response::new().status(status).content_type("text/html").content_length(len).body(bytes)
}

/// The response to a request that could not be read.
pub fn bad_request_response() -> (r: Response)
    ensures
        is_error_page(r, HttpStatus::BadRequest, DEFAULT_BAD_REQUEST_BODY@),
{
    error_page(HttpStatus::BadRequest, DEFAULT_BAD_REQUEST_BODY)
}

/// The response to the outcome of resolving `path`: for a file of `size` bytes, status
/// 200 with the content type of its extension and `Content-Length: size`, the body
/// being streamed by the caller; 404 for a missing file; 500 for a refused path or
/// any other failure, each with its HTML page.
pub fn resolution_response(path: &str, res: Result<u64, PathError>) -> (r: Response)
    ensures
        r.status == status_for(res),
        res matches Ok(size) ==> r.headers@ == typed_headers(
            mime_text(mime_for_extension(extension_of(path@))),
            size as nat,
        ) && r.body is None,
        res is Err ==> is_error_page(r, status_for(res), error_page_for(status_for(res))),
{
    match res {
        Ok(size) => {
            let mime = get_mime_type(path);
            Response::new().status(HttpStatus::OK).content_type(mime.as_str()).content_length(size)
        },
        Err(PathError::NotFound) => error_page(HttpStatus::NotFound, DEFAULT_NOT_FOUND_BODY),
        Err(_) => error_page(HttpStatus::InternalServerError, DEFAULT_INTERNAL_ERROR_BODY),
    }
}

/// Decides what follows reading a request: a malformed one is answered 400; a path
/// that the guard refuses is answered 500 without touching the file system; otherwise
/// the guarded relative path is to be opened.
pub fn after_decode(tree: &FileTree, parsed: &Result<Request, RequestError>) -> (r: Step)
    ensures
        parsed is Err ==> (r matches Step::Respond(resp) && is_error_page(
            resp,
            HttpStatus::BadRequest,
            DEFAULT_BAD_REQUEST_BODY@,
        )),
        parsed matches Ok(req) ==> match guard(req.path@) {
            Err(e) => r matches Step::Respond(resp) && is_error_page(
                resp,
                HttpStatus::InternalServerError,
                DEFAULT_INTERNAL_ERROR_BODY@,
            ),
            Ok(rel) => r matches Step::Open(p) && p@ == rel,
        },
{
    match parsed {
        Err(_) => Step::Respond(bad_request_response()),
        Ok(req) => match tree.check_path(req.path.as_str()) {
            Err(e) => Step::Respond(resolution_response(req.path.as_str(), Err(e))),
            Ok(rel) => Step::Open(rel),
        },
    }
}

/// The response once the guarded path of `path` was opened with the given outcome.
pub fn after_open(path: &str, open: OpenOutcome) -> (r: Response)
    requires
        guard(path@) is Ok,
    ensures
        r.status == status_for(resolution(path@, open)),
        resolution(path@, open) matches Ok(size) ==> r.headers@ == typed_headers(
            mime_text(mime_for_extension(extension_of(path@))),
            size as nat,
        ) && r.body is None,
        resolution(path@, open) is Err ==> is_error_page(
            r,
            status_for(resolution(path@, open)),
            error_page_for(status_for(resolution(path@, open))),
        ),
{
    resolution_response(path, open_result(open))
}

} // verus!
