//! The static HTTPS boot server: the responses it sends, and the
//! decisions it makes about a request before and after reading a file.
use vstd::prelude::*;
use vstd::string::StringSliceAdditionalSpecFns;
use vstd::utf8::encode_utf8;
use crate::console::{push_all, write_dec, dec_digits};
use crate::request_line::HttpBootRequest;

verus! {

/// `HTTP/1.1 `
pub open spec fn http11_prefix() -> Seq<u8> {
    seq![0x48, 0x54, 0x54, 0x50, 0x2f, 0x31, 0x2e, 0x31, 0x20]
}

/// `\r\nContent-Type: `
pub open spec fn content_type_field() -> Seq<u8> {
    seq![0x0d, 0x0a, 0x43, 0x6f, 0x6e, 0x74, 0x65, 0x6e, 0x74, 0x2d, 0x54, 0x79, 0x70, 0x65, 0x3a, 0x20]
}

/// `\r\nContent-Length: `
pub open spec fn content_length_field() -> Seq<u8> {
    seq![0x0d, 0x0a, 0x43, 0x6f, 0x6e, 0x74, 0x65, 0x6e, 0x74, 0x2d, 0x4c, 0x65, 0x6e, 0x67, 0x74, 0x68, 0x3a, 0x20]
}

/// `\r\nConnection: close\r\n\r\n`
pub open spec fn connection_close_end() -> Seq<u8> {
    seq![0x0d, 0x0a, 0x43, 0x6f, 0x6e, 0x6e, 0x65, 0x63, 0x74, 0x69, 0x6f, 0x6e, 0x3a, 0x20, 0x63, 0x6c, 0x6f, 0x73, 0x65, 0x0d, 0x0a, 0x0d, 0x0a]
}

/// `405 Method Not Allowed`
pub open spec fn status_405() -> Seq<u8> {
    seq![0x34, 0x30, 0x35, 0x20, 0x4d, 0x65, 0x74, 0x68, 0x6f, 0x64, 0x20, 0x4e, 0x6f, 0x74, 0x20, 0x41, 0x6c, 0x6c, 0x6f, 0x77, 0x65, 0x64]
}

/// `400 Bad Request`
pub open spec fn status_400() -> Seq<u8> {
    seq![0x34, 0x30, 0x30, 0x20, 0x42, 0x61, 0x64, 0x20, 0x52, 0x65, 0x71, 0x75, 0x65, 0x73, 0x74]
}

/// `404 Not Found`
pub open spec fn status_404() -> Seq<u8> {
    seq![0x34, 0x30, 0x34, 0x20, 0x4e, 0x6f, 0x74, 0x20, 0x46, 0x6f, 0x75, 0x6e, 0x64]
}

/// `500 Internal Server Error`
pub open spec fn status_500() -> Seq<u8> {
    seq![0x35, 0x30, 0x30, 0x20, 0x49, 0x6e, 0x74, 0x65, 0x72, 0x6e, 0x61, 0x6c, 0x20, 0x53, 0x65, 0x72, 0x76, 0x65, 0x72, 0x20, 0x45, 0x72, 0x72, 0x6f, 0x72]
}

/// `200 OK`
pub open spec fn status_200() -> Seq<u8> {
    seq![0x32, 0x30, 0x30, 0x20, 0x4f, 0x4b]
}

/// `text/plain`
pub open spec fn text_plain() -> Seq<u8> {
    seq![0x74, 0x65, 0x78, 0x74, 0x2f, 0x70, 0x6c, 0x61, 0x69, 0x6e]
}

/// `method not allowed`
pub open spec fn body_405() -> Seq<u8> {
    seq![0x6d, 0x65, 0x74, 0x68, 0x6f, 0x64, 0x20, 0x6e, 0x6f, 0x74, 0x20, 0x61, 0x6c, 0x6c, 0x6f, 0x77, 0x65, 0x64]
}

/// `bad request`
pub open spec fn body_400() -> Seq<u8> {
    seq![0x62, 0x61, 0x64, 0x20, 0x72, 0x65, 0x71, 0x75, 0x65, 0x73, 0x74]
}

/// `not found`
pub open spec fn body_404() -> Seq<u8> {
    seq![0x6e, 0x6f, 0x74, 0x20, 0x66, 0x6f, 0x75, 0x6e, 0x64]
}

/// `internal server error`
pub open spec fn body_500() -> Seq<u8> {
    seq![0x69, 0x6e, 0x74, 0x65, 0x72, 0x6e, 0x61, 0x6c, 0x20, 0x73, 0x65, 0x72, 0x76, 0x65, 0x72, 0x20, 0x65, 0x72, 0x72, 0x6f, 0x72]
}

/// `/boot/`
pub open spec fn boot_prefix() -> Seq<u8> {
    seq![0x2f, 0x62, 0x6f, 0x6f, 0x74, 0x2f]
}

fn http11_prefix_bytes() -> (r: [u8; 9])
    ensures
        r@ == http11_prefix(),
{
    let r: [u8; 9] = [0x48, 0x54, 0x54, 0x50, 0x2f, 0x31, 0x2e, 0x31, 0x20];
    assert(r@ =~= http11_prefix());
    r
}

fn content_type_field_bytes() -> (r: [u8; 16])
    ensures
        r@ == content_type_field(),
{
    let r: [u8; 16] = [0x0d, 0x0a, 0x43, 0x6f, 0x6e, 0x74, 0x65, 0x6e, 0x74, 0x2d, 0x54, 0x79, 0x70, 0x65, 0x3a, 0x20];
    assert(r@ =~= content_type_field());
    r
}

fn content_length_field_bytes() -> (r: [u8; 18])
    ensures
        r@ == content_length_field(),
{
    let r: [u8; 18] = [0x0d, 0x0a, 0x43, 0x6f, 0x6e, 0x74, 0x65, 0x6e, 0x74, 0x2d, 0x4c, 0x65, 0x6e, 0x67, 0x74, 0x68, 0x3a, 0x20];
    assert(r@ =~= content_length_field());
    r
}

fn connection_close_end_bytes() -> (r: [u8; 23])
    ensures
        r@ == connection_close_end(),
{
    let r: [u8; 23] = [0x0d, 0x0a, 0x43, 0x6f, 0x6e, 0x6e, 0x65, 0x63, 0x74, 0x69, 0x6f, 0x6e, 0x3a, 0x20, 0x63, 0x6c, 0x6f, 0x73, 0x65, 0x0d, 0x0a, 0x0d, 0x0a];
    assert(r@ =~= connection_close_end());
    r
}

fn status_405_bytes() -> (r: [u8; 22])
    ensures
        r@ == status_405(),
{
    let r: [u8; 22] = [0x34, 0x30, 0x35, 0x20, 0x4d, 0x65, 0x74, 0x68, 0x6f, 0x64, 0x20, 0x4e, 0x6f, 0x74, 0x20, 0x41, 0x6c, 0x6c, 0x6f, 0x77, 0x65, 0x64];
    assert(r@ =~= status_405());
    r
}

fn status_400_bytes() -> (r: [u8; 15])
    ensures
        r@ == status_400(),
{
    let r: [u8; 15] = [0x34, 0x30, 0x30, 0x20, 0x42, 0x61, 0x64, 0x20, 0x52, 0x65, 0x71, 0x75, 0x65, 0x73, 0x74];
    assert(r@ =~= status_400());
    r
}

fn status_404_bytes() -> (r: [u8; 13])
    ensures
        r@ == status_404(),
{
    let r: [u8; 13] = [0x34, 0x30, 0x34, 0x20, 0x4e, 0x6f, 0x74, 0x20, 0x46, 0x6f, 0x75, 0x6e, 0x64];
    assert(r@ =~= status_404());
    r
}

fn status_500_bytes() -> (r: [u8; 25])
    ensures
        r@ == status_500(),
{
    let r: [u8; 25] = [0x35, 0x30, 0x30, 0x20, 0x49, 0x6e, 0x74, 0x65, 0x72, 0x6e, 0x61, 0x6c, 0x20, 0x53, 0x65, 0x72, 0x76, 0x65, 0x72, 0x20, 0x45, 0x72, 0x72, 0x6f, 0x72];
    assert(r@ =~= status_500());
    r
}

fn status_200_bytes() -> (r: [u8; 6])
    ensures
        r@ == status_200(),
{
    let r: [u8; 6] = [0x32, 0x30, 0x30, 0x20, 0x4f, 0x4b];
    assert(r@ =~= status_200());
    r
}

fn text_plain_bytes() -> (r: [u8; 10])
    ensures
        r@ == text_plain(),
{
    let r: [u8; 10] = [0x74, 0x65, 0x78, 0x74, 0x2f, 0x70, 0x6c, 0x61, 0x69, 0x6e];
    assert(r@ =~= text_plain());
    r
}

fn body_405_bytes() -> (r: [u8; 18])
    ensures
        r@ == body_405(),
{
    let r: [u8; 18] = [0x6d, 0x65, 0x74, 0x68, 0x6f, 0x64, 0x20, 0x6e, 0x6f, 0x74, 0x20, 0x61, 0x6c, 0x6c, 0x6f, 0x77, 0x65, 0x64];
    assert(r@ =~= body_405());
    r
}

fn body_400_bytes() -> (r: [u8; 11])
    ensures
        r@ == body_400(),
{
    let r: [u8; 11] = [0x62, 0x61, 0x64, 0x20, 0x72, 0x65, 0x71, 0x75, 0x65, 0x73, 0x74];
    assert(r@ =~= body_400());
    r
}

fn body_404_bytes() -> (r: [u8; 9])
    ensures
        r@ == body_404(),
{
    let r: [u8; 9] = [0x6e, 0x6f, 0x74, 0x20, 0x66, 0x6f, 0x75, 0x6e, 0x64];
    assert(r@ =~= body_404());
    r
}

fn body_500_bytes() -> (r: [u8; 21])
    ensures
        r@ == body_500(),
{
    let r: [u8; 21] = [0x69, 0x6e, 0x74, 0x65, 0x72, 0x6e, 0x61, 0x6c, 0x20, 0x73, 0x65, 0x72, 0x76, 0x65, 0x72, 0x20, 0x65, 0x72, 0x72, 0x6f, 0x72];
    assert(r@ =~= body_500());
    r
}

fn boot_prefix_bytes() -> (r: [u8; 6])
    ensures
        r@ == boot_prefix(),
{
    let r: [u8; 6] = [0x2f, 0x62, 0x6f, 0x6f, 0x74, 0x2f];
    assert(r@ =~= boot_prefix());
    r
}

/// A complete response: status line, content type, content length and
/// `Connection: close`, then the body when it is included. The content
/// length is always that of the body.
pub open spec fn response_bytes(status: Seq<u8>, content_type: Seq<u8>, body: Seq<u8>, include_body: bool) -> Seq<u8> {
    http11_prefix() + status + content_type_field() + content_type + content_length_field()
        + dec_digits(body.len()) + connection_close_end() + if include_body { body } else { Seq::empty() }
}

fn response(status: &[u8], content_type: &[u8], body: &[u8], include_body: bool) -> (r: Vec<u8>)
    ensures
        r@ == response_bytes(status@, content_type@, body@, include_body),
{
    let mut out: Vec<u8> = Vec::new();
    push_all(&mut out, &http11_prefix_bytes());
    push_all(&mut out, status);
    push_all(&mut out, &content_type_field_bytes());
    push_all(&mut out, content_type);
    push_all(&mut out, &content_length_field_bytes());
    write_dec(&mut out, body.len() as u64);
    push_all(&mut out, &connection_close_end_bytes());
    if include_body {
        push_all(&mut out, body);
    }
    assert(out@ =~= response_bytes(status@, content_type@, body@, include_body));
    out
}

/// The response with `status`, `content_type` and `body`; the body itself
/// only when `include_body` (a HEAD request gets the headers alone).
pub fn http_response(status: &str, content_type: &str, body: Vec<u8>, include_body: bool) -> (r: Vec<u8>)
    ensures
        r@ == response_bytes(status.spec_bytes(), content_type.spec_bytes(), body@, include_body),
{
    response(status.as_bytes(), content_type.as_bytes(), body.as_slice(), include_body)
}

/// The plain-text reply `405 Method Not Allowed`.
pub open spec fn method_not_allowed_reply() -> Seq<u8> {
    response_bytes(status_405(), text_plain(), body_405(), true)
}

/// The plain-text reply `400 Bad Request`.
pub open spec fn bad_request_reply(include_body: bool) -> Seq<u8> {
    response_bytes(status_400(), text_plain(), body_400(), include_body)
}

/// The plain-text reply `404 Not Found`.
pub open spec fn not_found_reply(include_body: bool) -> Seq<u8> {
    response_bytes(status_404(), text_plain(), body_404(), include_body)
}

/// The plain-text reply `500 Internal Server Error`.
pub open spec fn internal_error_reply(include_body: bool) -> Seq<u8> {
    response_bytes(status_500(), text_plain(), body_500(), include_body)
}

/// How the server answers a parsed request.
pub enum RequestPlan<'a> {
    /// Serve the file at this request path, with its body or without.
    File { path: &'a [u8], include_body: bool },
    /// Send this reply.
    Reply(Vec<u8>),
}

/// What the server does with a request: GET and HEAD go to the file lookup
/// (HEAD without the body); other methods get `405`, malformed lines `400`.
pub fn plan_request<'a>(request: HttpBootRequest<'a>) -> (r: RequestPlan<'a>)
    ensures
        match request {
            HttpBootRequest::Get(p) => r matches RequestPlan::File { path, include_body } && path@ == p@ && include_body,
            HttpBootRequest::Head(p) => r matches RequestPlan::File { path, include_body } && path@ == p@ && !include_body,
            HttpBootRequest::MethodNotAllowed => r matches RequestPlan::Reply(b) && b@ == method_not_allowed_reply(),
            HttpBootRequest::BadRequest => r matches RequestPlan::Reply(b) && b@ == bad_request_reply(true),
        },
{
    match request {
        HttpBootRequest::Get(path) => RequestPlan::File { path, include_body: true },
        HttpBootRequest::Head(path) => RequestPlan::File { path, include_body: false },
        HttpBootRequest::MethodNotAllowed => RequestPlan::Reply(
            response(&status_405_bytes(), &text_plain_bytes(), &body_405_bytes(), true),
        ),
        HttpBootRequest::BadRequest => RequestPlan::Reply(
            response(&status_400_bytes(), &text_plain_bytes(), &body_400_bytes(), true),
        ),
    }
}

/// The path below `/boot/` that a request path names, if it names one.
pub open spec fn spec_boot_relative_path(request_path: Seq<u8>) -> Option<Seq<u8>> {
    if request_path.len() >= 6 && request_path.take(6) == boot_prefix() {
        Some(request_path.skip(6))
    } else {
        None
    }
}

/// The path below `/boot/` that `request_path` names, if it names one.
pub fn boot_relative_path<'a>(request_path: &'a [u8]) -> (r: Option<&'a [u8]>)
    ensures
        match (r, spec_boot_relative_path(request_path@)) {
            (Some(a), Some(b)) => a@ == b,
            (None, None) => true,
            _ => false,
        },
{
    let prefix = boot_prefix_bytes();
    if crate::url::starts_with(request_path, &prefix) {
        let rest = &request_path[6..request_path.len()];
        assert(rest@ =~= request_path@.skip(6));
        Some(rest)
    } else {
        None
    }
}

/// `..` stands as a whole component of `p` at `i`.
pub open spec fn parent_component_at(p: Seq<u8>, i: int) -> bool {
    &&& 0 <= i && i + 1 < p.len()
    &&& p[i] == 0x2e && p[i + 1] == 0x2e
    &&& (i == 0 || p[i - 1] == 0x2f)
    &&& (i + 2 == p.len() || p[i + 2] == 0x2f)
}

/// A path that stays below the boot root: not empty, not absolute, with no
/// `..` component, no backslash and no zero byte.
pub open spec fn relative_path_ok(p: Seq<u8>) -> bool {
    &&& p.len() > 0
    &&& p[0] != 0x2f
    &&& forall|i: int| 0 <= i < p.len() ==> p[i] != 0x5c && p[i] != 0
    &&& forall|i: int| !parent_component_at(p, i)
}

/// Whether `path` stays below the boot root (see `relative_path_ok`).
pub fn validate_relative_path(path: &[u8]) -> (r: bool)
    ensures
        r == relative_path_ok(path@),
{
    if path.len() == 0 || path[0] == 0x2f {
        return false;
    }
    let mut i: usize = 0;
    while i < path.len()
        invariant
            i <= path@.len(),
            forall|j: int| 0 <= j < i ==> path@[j] != 0x5c && path@[j] != 0,
            forall|j: int| 0 <= j < i ==> !parent_component_at(path@, j),
        decreases path@.len() - i,
    {
        let b = path[i];
        if b == 0x5c || b == 0 {
            return false;
        }
        if b == 0x2e && path.len() - i > 1 && path[i + 1] == 0x2e && (i == 0 || path[i - 1] == 0x2f)
            && (path.len() - i == 2 || path[i + 2] == 0x2f) {
            assert(parent_component_at(path@, i as int));
            return false;
        }
        i += 1;
    }
    true
}

/// The result of the first lookup step for a file request: the path below
/// the boot root, or the reply when there is none (`404` outside `/boot/`,
/// `400` for a path that leaves the root).
pub open spec fn spec_file_lookup(request_path: Seq<u8>, include_body: bool) -> Result<Seq<u8>, Seq<u8>> {
    match spec_boot_relative_path(request_path) {
        None => Err(not_found_reply(include_body)),
        Some(rel) => if relative_path_ok(rel) { Ok(rel) } else { Err(bad_request_reply(include_body)) },
    }
}

/// Finds the path below the boot root that a file request names, or the
/// reply to send instead.
pub fn file_lookup<'a>(request_path: &'a [u8], include_body: bool) -> (r: Result<&'a [u8], Vec<u8>>)
    ensures
        match (r, spec_file_lookup(request_path@, include_body)) {
            (Ok(a), Ok(b)) => a@ == b,
            (Err(a), Err(b)) => a@ == b,
            _ => false,
        },
{
    match boot_relative_path(request_path) {
        None => Err(response(&status_404_bytes(), &text_plain_bytes(), &body_404_bytes(), include_body)),
        Some(rel) => {
            if validate_relative_path(rel) {
                Ok(rel)
            } else {
                Err(response(&status_400_bytes(), &text_plain_bytes(), &body_400_bytes(), include_body))
            }
        },
    }
}

/// What reading a file gave.
pub enum FileRead {
    /// The file's bytes.
    Found(Vec<u8>),
    /// There is no such file.
    NotFound,
    /// Reading failed otherwise.
    Failed,
}

/// The reply to a file request after the read: `200` with the file and its
/// content type, `404` for a missing file, `500` for a failed read.
pub open spec fn spec_file_reply(content_type: Seq<u8>, read: FileRead, include_body: bool) -> Seq<u8> {
    match read {
        FileRead::Found(body) => response_bytes(status_200(), content_type, body@, include_body),
        FileRead::NotFound => not_found_reply(include_body),
        FileRead::Failed => internal_error_reply(include_body),
    }
}

/// The reply to a file request, given the content type of the file and the
/// outcome of reading it.
pub fn file_reply(content_type: &str, read: FileRead, include_body: bool) -> (r: Vec<u8>)
    ensures
        r@ == spec_file_reply(content_type.spec_bytes(), read, include_body),
{
    match read {
        FileRead::Found(body) => response(&status_200_bytes(), content_type.as_bytes(), body.as_slice(), include_body),
        FileRead::NotFound => response(&status_404_bytes(), &text_plain_bytes(), &body_404_bytes(), include_body),
        FileRead::Failed => response(&status_500_bytes(), &text_plain_bytes(), &body_500_bytes(), include_body),
    }
}

/// The name of the media type that `mime_guess` infers from the extension
/// of a path, as text (`application/octet-stream` when it knows none).
/// What counts as the extension follows the path rules of the target the
/// crate is built for (its separators), so the name is fixed within one
/// build and may differ between targets.
pub uninterp spec fn guessed_content_type(path: Seq<char>) -> Seq<char>;

/// `path` holds no `.`, so that it has no extension.
pub open spec fn no_extension_possible(path: Seq<char>) -> bool {
    forall|k: int| 0 <= k < path.len() ==> path[k] != '.'
}

/// Calls `mime_guess::from_path(path).first_or_octet_stream()` and renders
/// the media type as text. Claimed: the text depends on `path` alone, and is
/// `guessed_content_type` of it; a path without any `.` has no extension,
/// for which `mime_guess` documents `application/octet-stream`. The table
/// from extensions to types is `mime_guess`'s and is not stated here.
#[verifier::external_body]
fn content_type_for(path: &str) -> (r: String)
    ensures
        r@ == guessed_content_type(path@),
        no_extension_possible(path@) ==> r@ == "application/octet-stream"@,
{
    mime_guess::from_path(path).first_or_octet_stream().to_string()
}

/// The reply to a file request for the file at `path`, given the outcome
/// of reading it; the content type is guessed from the path's extension.
pub fn file_response(path: &str, read: FileRead, include_body: bool) -> (r: Vec<u8>)
    ensures
        r@ == spec_file_reply(encode_utf8(guessed_content_type(path@)), read, include_body),
        no_extension_possible(path@) ==> r@ == spec_file_reply(
            encode_utf8("application/octet-stream"@),
            read,
            include_body,
        ),
{
    let ct = content_type_for(path);
    file_reply(ct.as_str(), read, include_body)
}

/// A header line ends the header block when it is empty or a bare line end.
pub fn ends_headers(line: &[u8]) -> (r: bool)
    ensures
        r == (line@.len() == 0 || line@ == seq![0x0du8, 0x0au8] || line@ == seq![0x0au8]),
{
    let r = line.len() == 0 || (line.len() == 2 && line[0] == 0x0d && line[1] == 0x0a) || (line.len() == 1
        && line[0] == 0x0a);
    proof {
        if line@.len() == 2 && line@[0] == 0x0d && line@[1] == 0x0a {
            assert(line@ =~= seq![0x0du8, 0x0au8]);
        }
        if line@.len() == 1 && line@[0] == 0x0a {
            assert(line@ =~= seq![0x0au8]);
        }
    }
    r
}

/// Why reading a request line failed.
#[derive(Debug, Clone, Copy, PartialEq, Eq)]
pub enum LineError {
    /// The connection ended before the line.
    UnexpectedEof,
    /// The line is longer than the limit.
    TooLong,
}

/// Whether a line read from the client is acceptable: `read` bytes came
/// (none means the connection ended) and the line, `line_len` bytes long,
/// is within `limit`.
pub fn check_line(read: usize, line_len: usize, limit: usize) -> (r: Result<(), LineError>)
    ensures
        read == 0 ==> r == Err::<(), LineError>(LineError::UnexpectedEof),
        read != 0 && line_len > limit ==> r == Err::<(), LineError>(LineError::TooLong),
        read != 0 && line_len <= limit ==> r is Ok,
{
    if read == 0 {
        return Err(LineError::UnexpectedEof);
    }
    if line_len > limit {
        return Err(LineError::TooLong);
    }
    Ok(())
}

/// A file request is served only for a path of the form `/boot/` then a
/// relative path that is not empty, does not start with `/`, holds no
/// backslash or zero byte, and has no `..` component; the path looked up is
/// what follows `/boot/`. A request outside `/boot/` is answered `404`, one
/// that leaves the root `400`, and GET and HEAD of the same path agree.
pub proof fn law_file_lookup(request_path: Seq<u8>, include_body: bool)
    ensures
        spec_file_lookup(request_path, include_body) matches Ok(rel) ==> {
            &&& request_path == seq![0x2fu8, 0x62u8, 0x6fu8, 0x6fu8, 0x74u8, 0x2fu8] + rel
            &&& rel.len() > 0 && rel[0] != 0x2f
            &&& forall|i: int| 0 <= i < rel.len() ==> rel[i] != 0x5c && rel[i] != 0
            &&& forall|i: int| 0 <= i && i + 1 < rel.len() && #[trigger] rel[i] == 0x2e && rel[i + 1] == 0x2e ==> !((i
                == 0 || rel[i - 1] == 0x2f) && (i + 2 == rel.len() || rel[i + 2] == 0x2f))
        },
        !(request_path.len() >= 6 && request_path.take(6) == seq![0x2fu8, 0x62u8, 0x6fu8, 0x6fu8, 0x74u8, 0x2fu8])
            ==> spec_file_lookup(request_path, include_body) == Err::<Seq<u8>, Seq<u8>>(
            response_bytes(status_404(), text_plain(), body_404(), include_body),
        ),
        (request_path.len() >= 6 && request_path.take(6) == seq![0x2fu8, 0x62u8, 0x6fu8, 0x6fu8, 0x74u8, 0x2fu8]
            && spec_file_lookup(request_path, include_body) is Err) ==> spec_file_lookup(request_path, include_body)
            == Err::<Seq<u8>, Seq<u8>>(response_bytes(status_400(), text_plain(), body_400(), include_body)),
        spec_file_lookup(request_path, true) is Ok <==> spec_file_lookup(request_path, false) is Ok,
        spec_file_lookup(request_path, true) matches Ok(a) ==> spec_file_lookup(request_path, false) == Ok::<
            Seq<u8>,
            Seq<u8>,
        >(a),
{
    assert(boot_prefix() =~= seq![0x2fu8, 0x62u8, 0x6fu8, 0x6fu8, 0x74u8, 0x2fu8]);
    if let Ok(rel) = spec_file_lookup(request_path, include_body) {
        assert(request_path =~= boot_prefix() + rel);
        assert forall|i: int| 0 <= i && i + 1 < rel.len() && #[trigger] rel[i] == 0x2e && rel[i + 1] == 0x2e implies !((i
            == 0 || rel[i - 1] == 0x2f) && (i + 2 == rel.len() || rel[i + 2] == 0x2f)) by {
            assert(!parent_component_at(rel, i));
        }
    }
}

/// A reply begins with `HTTP/1.1 `, its status and the `Content-Type`
/// field, announces in `Content-Length` the decimal length of the body, and
/// ends with the body when it is sent, with the header block ending just
/// before it.
pub proof fn law_response_layout(status: Seq<u8>, content_type: Seq<u8>, body: Seq<u8>, include_body: bool)
    ensures
        ({
            let r = response_bytes(status, content_type, body, include_body);
            let head = seq![0x48u8, 0x54u8, 0x54u8, 0x50u8, 0x2fu8, 0x31u8, 0x2eu8, 0x31u8, 0x20u8] + status;
            &&& r.take(head.len() as int) == head
            &&& include_body ==> r.skip(r.len() - body.len()) == body
            &&& !include_body ==> r.skip(r.len() - 4) == seq![0x0du8, 0x0au8, 0x0du8, 0x0au8]
            &&& include_body ==> r.subrange(r.len() - body.len() - 4, r.len() - body.len()) == seq![0x0du8, 0x0au8,
                0x0du8, 0x0au8]
            &&& r.subrange(
                (head.len() + 16 + content_type.len() + 18) as int,
                (head.len() + 16 + content_type.len() + 18 + dec_digits(body.len()).len()) as int,
            ) == dec_digits(body.len())
        }),
{
    let r = response_bytes(status, content_type, body, include_body);
    let head = seq![0x48u8, 0x54u8, 0x54u8, 0x50u8, 0x2fu8, 0x31u8, 0x2eu8, 0x31u8, 0x20u8] + status;
    assert(http11_prefix() =~= seq![0x48u8, 0x54u8, 0x54u8, 0x50u8, 0x2fu8, 0x31u8, 0x2eu8, 0x31u8, 0x20u8]);
    let pre = http11_prefix() + status + content_type_field() + content_type + content_length_field();
    let d = dec_digits(body.len());
    let hdr = pre + d + connection_close_end();
    assert(r =~= hdr + if include_body { body } else { Seq::empty() });
    assert(r.take(head.len() as int) =~= head);
    assert(r.subrange(pre.len() as int, (pre.len() + d.len()) as int) =~= d);
    if include_body {
        assert(r.skip(r.len() - body.len()) =~= body);
        assert(r.subrange(r.len() - body.len() - 4, r.len() - body.len()) =~= seq![0x0du8, 0x0au8, 0x0du8, 0x0au8]);
    } else {
        assert(r.skip(r.len() - 4) =~= seq![0x0du8, 0x0au8, 0x0du8, 0x0au8]);
    }
}

} // verus!
