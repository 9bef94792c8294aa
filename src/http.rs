use vstd::prelude::*;
use vstd::string::*;

verus! {

/// An HTTP response as the server hands it to the transport: status, the
/// headers this service sets, and the body.
pub struct Response {
    pub status: u16,
    pub location: Option<String>,
    pub content_type: Option<String>,
    pub cache_control: Option<String>,
    /// Whether `X-Content-Type-Options: nosniff` is set.
    pub nosniff: bool,
    pub body: Vec<u8>,
}

/// What a response says, over plain values.
pub struct ResponseView {
    pub status: u16,
    pub location: Option<Seq<char>>,
    pub content_type: Option<Seq<char>>,
    pub cache_control: Option<Seq<char>>,
    pub nosniff: bool,
    pub body: Seq<u8>,
}

pub open spec fn opt_view(o: Option<String>) -> Option<Seq<char>> {
    match o {
        Some(s) => Some(s@),
        None => None,
    }
}

impl Response {
    pub open spec fn view(&self) -> ResponseView {
        ResponseView {
            status: self.status,
            location: opt_view(self.location),
            content_type: opt_view(self.content_type),
            cache_control: opt_view(self.cache_control),
            nosniff: self.nosniff,
            body: self.body@,
        }
    }
}

/// A response with a status and a body and no header.
pub open spec fn plain_view(status: u16, body: Seq<u8>) -> ResponseView {
    ResponseView {
        status,
        location: None,
        content_type: None,
        cache_control: None,
        nosniff: false,
        body,
    }
}

/// The request methods the router tells apart.
#[derive(Clone, Copy, Debug, PartialEq, Eq, Structural)]
pub enum Method {
    Get,
    Post,
    Other,
}

/// Where the router sends a request.
#[derive(Clone, Copy, Debug, PartialEq, Eq, Structural)]
pub enum Route {
    Download,
    Upload,
    NotFound,
}

/// Text of the response to a handler fault.
pub const TEAPOT_TEXT: &'static str = "I'm a teapot";

/// The UTF-8 bytes of a string.
pub fn utf8_bytes(s: &str) -> (r: Vec<u8>)
    ensures
        r@ == s.spec_bytes(),
{
    s.as_bytes_vec()
}

/// `400 Bad Request` with `msg` as the body.
pub fn bad_request(msg: &str) -> (r: Response)
    ensures
        r.view() == plain_view(400, msg.spec_bytes()),
{
    Response {
        status: 400,
        location: None,
        content_type: None,
        cache_control: None,
        nosniff: false,
        body: utf8_bytes(msg),
    }
}

/// `403 Forbidden` with an empty body.
pub fn auth_denied() -> (r: Response)
    ensures
        r.view() == plain_view(403, Seq::empty()),
{
    Response {
        status: 403,
        location: None,
        content_type: None,
        cache_control: None,
        nosniff: false,
        body: Vec::new(),
    }
}

/// `404 Not Found` with an empty body.
pub fn not_found() -> (r: Response)
    ensures
        r.view() == plain_view(404, Seq::empty()),
{
    Response {
        status: 404,
        location: None,
        content_type: None,
        cache_control: None,
        nosniff: false,
        body: Vec::new(),
    }
}

/// `418 I'm a teapot`, the response to any fault inside a handler.
pub fn internal_error() -> (r: Response)
    ensures
        r.view() == plain_view(418, TEAPOT_TEXT.spec_bytes()),
{
    Response {
        status: 418,
        location: None,
        content_type: None,
        cache_control: None,
        nosniff: false,
        body: utf8_bytes(TEAPOT_TEXT),
    }
}

/// `GET` downloads, `POST` uploads, any other method is not found.
pub fn route(method: Method) -> (r: Route)
    ensures
        r == match method {
            Method::Get => Route::Download,
            Method::Post => Route::Upload,
            Method::Other => Route::NotFound,
        },
{
    match method {
        Method::Get => Route::Download,
        Method::Post => Route::Upload,
        Method::Other => Route::NotFound,
    }
}

/// The response of a request whose handler failed or gave up: the handler's
/// own response, or `418` on a fault.
pub fn settle(outcome: Option<Response>) -> (r: Response)
    ensures
        outcome matches Some(x) ==> r == x,
        outcome is None ==> r.view() == plain_view(418, TEAPOT_TEXT.spec_bytes()),
{
    match outcome {
        Some(x) => x,
        None => internal_error(),
    }
}

} // verus!
