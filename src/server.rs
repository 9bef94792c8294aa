use vstd::prelude::*;
use vstd::string::*;
use vstd::utf8::{decode_utf8, encode_utf8, valid_utf8};
use crate::auth::AuthRegistry;
use crate::http::{
    auth_denied, bad_request, internal_error, not_found, opt_view, plain_view, utf8_bytes, Response,
    ResponseView, TEAPOT_TEXT,
};
use crate::ident::{id_of, is_id_char, lemma_id_alphabet, object_id};
use crate::store::{
    dir_after_put, find_entry, lemma_put_stores, metadata_file_name, sidecar_name,
    with_json_extension, Directory,
};
use crate::metadata::{lemma_metadata_round_trip, parse_metadata, Metadata, MetadataView};
use crate::text::{
    chars_of, decimal, decode_utf8_text, has_prefix, is_last_dot, push_decimal, push_str, str_eq,
    string_of,
};

verus! {

/// The base of the links the server hands out.
pub enum HostBase {
    /// `https://<host>`, for a server behind a public host name.
    Public(String),
    /// `http://localhost:<port>`.
    Local(u16),
}

impl HostBase {
    pub open spec fn base_url(&self) -> Seq<char> {
        match self {
            HostBase::Public(h) => "https://"@ + h@,
            HostBase::Local(p) => "http://localhost:"@ + decimal(*p as nat),
        }
    }
}

/// Process-wide read-only state of the server, built once at start-up.
pub struct ServerContext {
    pub tokens: AuthRegistry,
    pub host: HostBase,
}

/// What an upload request carries that the handler reads.
pub struct UploadRequest {
    pub authorization: Option<String>,
    pub content_type: Option<String>,
    pub body: Vec<u8>,
}

/// The decision on an upload: answer at once, or store the body under `id`.
pub enum UploadStep {
    Respond(Response),
    Store { id: String, author: String, content_type: String },
}

/// The same decision, over plain values.
pub enum UploadDecision {
    Reject(ResponseView),
    Accept { id: Seq<char>, author: Seq<char>, content_type: Seq<char> },
}

impl UploadStep {
    pub open spec fn view(&self) -> UploadDecision {
        match self {
            UploadStep::Respond(r) => UploadDecision::Reject(r.view()),
            UploadStep::Store { id, author, content_type } => UploadDecision::Accept {
                id: id@,
                author: author@,
                content_type: content_type@,
            },
        }
    }
}

pub const BEARER_PREFIX: &'static str = "Bearer ";

pub const MISSING_AUTHORIZATION: &'static str = "Missing Authorization header";

pub const MISSING_CONTENT_TYPE: &'static str = "Missing Content-Type header";

pub const URI_LIST: &'static str = "text/uri-list";

pub const CACHE_FOREVER: &'static str = "max-age=31536000, immutable";

/// The token of an `Authorization` value: a leading `Bearer ` is dropped.
pub open spec fn bearer_token(a: Seq<char>) -> Seq<char> {
    let p = BEARER_PREFIX@;
    if p.len() <= a.len() && a.take(p.len() as int) == p {
        a.skip(p.len() as int)
    } else {
        a
    }
}

/// How the server decides on an upload with the given headers and body.
pub open spec fn upload_decision(
    tokens: Map<Seq<char>, Seq<char>>,
    authorization: Option<Seq<char>>,
    content_type: Option<Seq<char>>,
    body: Seq<u8>,
) -> UploadDecision {
    match authorization {
        None => UploadDecision::Reject(plain_view(400, MISSING_AUTHORIZATION.spec_bytes())),
        Some(a) => match content_type {
            None => UploadDecision::Reject(plain_view(400, MISSING_CONTENT_TYPE.spec_bytes())),
            Some(ct) => if tokens.contains_key(bearer_token(a)) {
                UploadDecision::Accept {
                    id: id_of(body),
                    author: tokens[bearer_token(a)],
                    content_type: ct,
                }
            } else {
                UploadDecision::Reject(plain_view(403, Seq::empty()))
            },
        },
    }
}

/// The link to an object: `<base>/<id>`.
pub open spec fn link_of(host: HostBase, id: Seq<char>) -> Seq<char> {
    host.base_url() + "/"@ + id
}

/// `201 Created` with the link as `Location` and as the body.
pub open spec fn created_view(link: Seq<char>) -> ResponseView {
    ResponseView {
        status: 201,
        location: Some(link),
        content_type: None,
        cache_control: None,
        nosniff: false,
        body: encode_utf8(link),
    }
}

/// Drops a leading `Bearer ` from an `Authorization` value.
pub fn strip_bearer(a: &str) -> (r: String)
    ensures
        r@ == bearer_token(a@),
{
    let cs = chars_of(a);
    let p = chars_of(BEARER_PREFIX);
    if has_prefix(&cs, BEARER_PREFIX) {
        string_of(&cs, p.len(), cs.len())
    } else {
        string_of(&cs, 0, cs.len())
    }
}

/// Decides on an upload: a missing `Authorization` or `Content-Type` header
/// gives `400`, an unknown token `403`; a known token, with or without
/// `Bearer `, has the body stored under its identifier.
pub fn handle_upload(ctx: &ServerContext, req: &UploadRequest) -> (r: UploadStep)
    ensures
        r.view() == upload_decision(
            ctx.tokens@,
            opt_view(req.authorization),
            opt_view(req.content_type),
            req.body@,
        ),
{
    let auth = match &req.authorization {
        Some(a) => a,
        None => return UploadStep::Respond(bad_request(MISSING_AUTHORIZATION)),
    };
    let content_type = match &req.content_type {
        Some(c) => c,
        None => return UploadStep::Respond(bad_request(MISSING_CONTENT_TYPE)),
    };
    let token = strip_bearer(auth.as_str());
    match ctx.tokens.lookup(token.as_str()) {
        None => UploadStep::Respond(auth_denied()),
        Some(author) => UploadStep::Store {
            id: object_id(req.body.as_slice()),
            author,
            content_type: content_type.clone(),
        },
    }
}

/// The link under which an object is served.
pub fn object_link(host: &HostBase, id: &str) -> (r: String)
    ensures
        r@ == link_of(*host, id@),
{
    let mut s = String::new();
    match host {
        HostBase::Public(h) => {
            push_str(&mut s, "https://");
            push_str(&mut s, h.as_str());
        }
        HostBase::Local(p) => {
            push_str(&mut s, "http://localhost:");
            push_decimal(&mut s, *p as u64);
        }
    }
    push_str(&mut s, "/");
    push_str(&mut s, id);
    s
}

/// The answer to an upload once the object is stored.
pub fn upload_created(host: &HostBase, id: &str) -> (r: Response)
    ensures
        r.view() == created_view(link_of(*host, id@)),
{
    let link = object_link(host, id);
    let body = utf8_bytes(link.as_str());
    Response {
        status: 201,
        location: Some(link),
        content_type: None,
        cache_control: None,
        nosniff: false,
        body,
    }
}

/// The identifier named by a download path `/<id>`; a path shorter than two
/// characters names none.
pub open spec fn path_id(path: Seq<char>) -> Option<Seq<char>> {
    if path.len() < 2 {
        None
    } else {
        Some(path.skip(1))
    }
}

/// The identifier named by a download path.
pub fn download_id(path: &str) -> (r: Option<String>)
    ensures
        opt_view(r) == path_id(path@),
{
    let cs = chars_of(path);
    if cs.len() < 2 {
        None
    } else {
        Some(string_of(&cs, 1, cs.len()))
    }
}

/// How a stored object with the given media type and bytes is served: a
/// `text/uri-list` object redirects (`307`) to the URL it holds, or fails
/// (`418`) if it is not UTF-8; any other is served (`200`) with its media
/// type and cached for a year.
pub open spec fn download_view(content_type: Seq<char>, data: Seq<u8>) -> ResponseView {
    if content_type == URI_LIST@ {
        if valid_utf8(data) {
            ResponseView {
                status: 307,
                location: Some(decode_utf8(data)),
                content_type: Some(URI_LIST@),
                cache_control: None,
                nosniff: true,
                body: data,
            }
        } else {
            plain_view(418, TEAPOT_TEXT.spec_bytes())
        }
    } else {
        ResponseView {
            status: 200,
            location: None,
            content_type: Some(content_type),
            cache_control: Some(CACHE_FOREVER@),
            nosniff: true,
            body: data,
        }
    }
}

/// Serves a stored object, given its metadata and its bytes.
pub fn handle_download(metadata: &Metadata, data: Vec<u8>) -> (r: Response)
    ensures
        r.view() == download_view(metadata.content_type@, data@),
{
    if str_eq(metadata.content_type.as_str(), URI_LIST) {
        let copy = vstd::slice::slice_to_vec(data.as_slice());
        match decode_utf8_text(copy) {
            Some(url) => Response {
                status: 307,
                location: Some(url),
                content_type: Some(URI_LIST.to_owned()),
                cache_control: None,
                nosniff: true,
                body: data,
            },
            None => internal_error(),
        }
    } else {
        Response {
            status: 200,
            location: None,
            content_type: Some(metadata.content_type.clone()),
            cache_control: Some(CACHE_FOREVER.to_owned()),
            nosniff: true,
            body: data,
        }
    }
}

/// Where a download goes once the contents directory is listed: an answer
/// at once, or the two files to read.
pub enum DownloadStep {
    Respond(Response),
    Read { data_file: String, metadata_file: String },
}

/// The same, over plain values.
pub enum DownloadDecision {
    Reject(ResponseView),
    Read { data_file: Seq<char>, metadata_file: Seq<char> },
}

impl DownloadStep {
    pub open spec fn view(&self) -> DownloadDecision {
        match self {
            DownloadStep::Respond(r) => DownloadDecision::Reject(r.view()),
            DownloadStep::Read { data_file, metadata_file } => DownloadDecision::Read {
                data_file: data_file@,
                metadata_file: metadata_file@,
            },
        }
    }
}

pub open spec fn names_view(names: Seq<String>) -> Seq<Seq<char>> {
    names.map_values(|n: String| n@)
}

/// How a download path is resolved against the names in the contents
/// directory: `404` without an identifier or without an entry named exactly
/// so (case matters); otherwise the entry and its sidecar are read.
pub open spec fn download_decision(path: Seq<char>, names: Seq<Seq<char>>) -> DownloadDecision {
    match path_id(path) {
        None => DownloadDecision::Reject(plain_view(404, Seq::empty())),
        Some(id) => if names.contains(id) {
            DownloadDecision::Read { data_file: id, metadata_file: with_json_extension(id) }
        } else {
            DownloadDecision::Reject(plain_view(404, Seq::empty()))
        },
    }
}

/// What is served once the files are read (`None` for one that is absent):
/// `404` if either is missing, `418` if the sidecar is no record, else the
/// object as `download_view` serves it.
pub open spec fn served_view(metadata: Option<Seq<u8>>, data: Option<Seq<u8>>) -> ResponseView {
    match (metadata, data) {
        (Some(m), Some(d)) => if valid_utf8(m) && parse_metadata(decode_utf8(m)) is Some {
            download_view(parse_metadata(decode_utf8(m))->Some_0.content_type, d)
        } else {
            plain_view(418, TEAPOT_TEXT.spec_bytes())
        },
        _ => plain_view(404, Seq::empty()),
    }
}

pub open spec fn bytes_view(o: Option<Vec<u8>>) -> Option<Seq<u8>> {
    match o {
        Some(v) => Some(v@),
        None => None,
    }
}

/// Resolves a download path against the listing of the contents directory.
pub fn locate_download(path: &str, names: &Vec<String>) -> (r: DownloadStep)
    ensures
        r.view() == download_decision(path@, names_view(names@)),
{
    let id = match download_id(path) {
        Some(id) => id,
        None => return DownloadStep::Respond(not_found()),
    };
    match find_entry(names, id.as_str()) {
        Some(i) => {
            assert(names_view(names@)[i as int] == id@);
            DownloadStep::Read { data_file: id.clone(), metadata_file: metadata_file_name(id.as_str()) }
        },
        None => {
            assert(!names_view(names@).contains(id@)) by {
                if names_view(names@).contains(id@) {
                    let j = choose|j: int| 0 <= j < names_view(names@).len() && names_view(names@)[j] == id@;
                    assert(names@[j]@ == id@);
                }
            }
            DownloadStep::Respond(not_found())
        },
    }
}

/// Answers a download from the two files it read, the sidecar first.
pub fn finish_download(metadata: Option<Vec<u8>>, data: Option<Vec<u8>>) -> (r: Response)
    ensures
        r.view() == served_view(bytes_view(metadata), bytes_view(data)),
{
    match (metadata, data) {
        (Some(m), Some(d)) => match Metadata::from_slice(m.as_slice()) {
            Ok(record) => handle_download(&record, d),
            Err(_) => internal_error(),
        },
        _ => not_found(),
    }
}

/// The path names an entry of the listing exactly.
pub open spec fn names_entry(path: Seq<char>, names: Seq<Seq<char>>) -> bool {
    path.len() >= 2 && names.contains(path.skip(1))
}

/// The sidecar holds a record, and a `text/uri-list` object is UTF-8.
pub open spec fn servable(metadata: Seq<u8>, data: Seq<u8>) -> bool {
    &&& valid_utf8(metadata)
    &&& parse_metadata(decode_utf8(metadata)) is Some
    &&& parse_metadata(decode_utf8(metadata))->Some_0.content_type == URI_LIST@ ==> valid_utf8(
        data,
    )
}

/// A `GET` answers `404` with an empty body when the path is shorter than two
/// characters or no directory entry is named exactly as its identifier, and
/// when either file is missing; otherwise the entry and its sidecar are read,
/// and with a well-formed record the answer is `200` or `307`.
pub proof fn lemma_download_surface(
    path: Seq<char>,
    names: Seq<Seq<char>>,
    metadata: Seq<u8>,
    data: Seq<u8>,
)
    ensures
        !names_entry(path, names) ==> download_decision(path, names) == DownloadDecision::Reject(
            plain_view(404, Seq::empty()),
        ),
        names_entry(path, names) ==> (download_decision(path, names) matches DownloadDecision::Read {
            data_file,
            metadata_file,
        } && data_file == path.skip(1) && metadata_file == with_json_extension(path.skip(1))),
        servable(metadata, data) ==> served_view(Some(metadata), Some(data)).status == 200
            || served_view(Some(metadata), Some(data)).status == 307,
        served_view(None, Some(data)) == plain_view(404, Seq::empty()),
        served_view(Some(metadata), None) == plain_view(404, Seq::empty()),
{
}

/// Two accepted uploads of byte-identical bodies get the same identifier,
/// and so the same link, whoever sends them and with whatever media type.
pub proof fn lemma_same_body_same_link(
    tokens: Map<Seq<char>, Seq<char>>,
    host: HostBase,
    auth1: Option<Seq<char>>,
    type1: Option<Seq<char>>,
    auth2: Option<Seq<char>>,
    type2: Option<Seq<char>>,
    body1: Seq<u8>,
    body2: Seq<u8>,
)
    requires
        body1 == body2,
        upload_decision(tokens, auth1, type1, body1) is Accept,
        upload_decision(tokens, auth2, type2, body2) is Accept,
    ensures
        upload_decision(tokens, auth1, type1, body1)->Accept_id == upload_decision(
            tokens,
            auth2,
            type2,
            body2,
        )->Accept_id,
        link_of(host, upload_decision(tokens, auth1, type1, body1)->Accept_id) == link_of(
            host,
            upload_decision(tokens, auth2, type2, body2)->Accept_id,
        ),
{
}

/// An upload without `Authorization` gets `400`; with a token that is not
/// registered, `403`; with a registered token, bare or after `Bearer `, it is
/// accepted (and answered `201` once stored). Registered tokens that begin
/// with `Bearer ` themselves are left out.
pub proof fn lemma_auth_surface(
    tokens: Map<Seq<char>, Seq<char>>,
    token: Seq<char>,
    content_type: Seq<char>,
    body: Seq<u8>,
)
    requires
        !(BEARER_PREFIX@.len() <= token.len() && token.take(BEARER_PREFIX@.len() as int)
            == BEARER_PREFIX@),
    ensures
        upload_decision(tokens, None, Some(content_type), body) matches UploadDecision::Reject(r)
            && r.status == 400,
        !tokens.contains_key(token) ==> (upload_decision(
            tokens,
            Some(token),
            Some(content_type),
            body,
        ) matches UploadDecision::Reject(r) && r.status == 403),
        !tokens.contains_key(token) ==> (upload_decision(
            tokens,
            Some(BEARER_PREFIX@ + token),
            Some(content_type),
            body,
        ) matches UploadDecision::Reject(r) && r.status == 403),
        tokens.contains_key(token) ==> upload_decision(
            tokens,
            Some(token),
            Some(content_type),
            body,
        ) is Accept,
        tokens.contains_key(token) ==> upload_decision(
            tokens,
            Some(BEARER_PREFIX@ + token),
            Some(content_type),
            body,
        ) is Accept,
{
    let p = BEARER_PREFIX@;
    let a = p + token;
    assert(a.take(p.len() as int) == p);
    assert(a.skip(p.len() as int) == token);
}

/// A `POST` followed by a `GET` of its link path: the path names the
/// identifier, the directory holds the body under it, and, where the
/// identifier was free, the sidecar holds the record's JSON, which reads back
/// as the record. Served with that record, the `GET` gives the body with the
/// request's media type, or for `text/uri-list` a `307` whose `Location` is
/// the body read as UTF-8. Bodies of `text/uri-list` that are not UTF-8 are
/// left out (they are answered `418`).
pub proof fn lemma_round_trip(
    dir: Directory,
    tokens: Map<Seq<char>, Seq<char>>,
    authorization: Seq<char>,
    content_type: Seq<char>,
    body: Seq<u8>,
    record: Metadata,
)
    requires
        upload_decision(tokens, Some(authorization), Some(content_type), body) is Accept,
        dir.contains_key(id_of(body)) ==> dir[id_of(body)] == body,
        record.content_type@ == content_type,
        content_type == URI_LIST@ ==> valid_utf8(body),
    ensures
        ({
            let decision = upload_decision(tokens, Some(authorization), Some(content_type), body);
            let id = decision->Accept_id;
            let after = dir_after_put(dir, body, record.json());
            let served = download_view(record.content_type@, after[id]);
            &&& path_id("/"@ + id) == Some(id)
            &&& with_json_extension(id) == sidecar_name(id)
            &&& after.contains_key(id)
            &&& after[id] == body
            &&& !dir.contains_key(id) ==> {
                &&& after.contains_key(sidecar_name(id))
                &&& valid_utf8(after[sidecar_name(id)])
                &&& parse_metadata(decode_utf8(after[sidecar_name(id)])) == Some(record.view())
            }
            &&& content_type != URI_LIST@ ==> {
                &&& served.status == 200
                &&& served.body == body
                &&& served.content_type == Some(content_type)
            }
            &&& content_type == URI_LIST@ ==> {
                &&& served.status == 307
                &&& served.location == Some(decode_utf8(body))
            }
        }),
{
    let id = id_of(body);
    lemma_id_alphabet(body);
    lemma_put_stores(dir, body, record.json());
    reveal_strlit("/");
    assert(("/"@ + id).skip(1) == id);
    assert forall|k: int| !(is_last_dot(id, k) && k > 0) by {
        if 0 <= k < id.len() {
            assert(is_id_char(id[k]));
        }
    }
    vstd::utf8::encode_utf8_valid_utf8(record.json());
    vstd::utf8::encode_utf8_decode_utf8(record.json());
    lemma_metadata_round_trip(record);
}

/// Every `GET` that serves an object other than a `text/uri-list` allows
/// caching for a year and forbids content sniffing.
pub proof fn lemma_download_caching(content_type: Seq<char>, data: Seq<u8>)
    requires
        content_type != URI_LIST@,
    ensures
        download_view(content_type, data).status == 200,
        download_view(content_type, data).cache_control == Some(CACHE_FOREVER@),
        download_view(content_type, data).nosniff,
{
}

} // verus!
