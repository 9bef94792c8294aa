use shortclip::auth::AuthRegistry;
use shortclip::http::{internal_error, not_found, route, settle, Method, Route};
use shortclip::ident::object_id;
use shortclip::metadata::Metadata;
use shortclip::server::{
    download_id, finish_download, handle_download, handle_upload, locate_download, object_link,
    strip_bearer, upload_created, DownloadStep, HostBase, ServerContext, UploadRequest, UploadStep,
};
use shortclip::store::{find_entry, metadata_file_name, store_writes, FileWrite};

fn context(host: HostBase) -> ServerContext {
    ServerContext { tokens: AuthRegistry::parse("T alice\n").unwrap(), host }
}

fn request(auth: Option<&str>, content_type: Option<&str>, body: &[u8]) -> UploadRequest {
    UploadRequest {
        authorization: auth.map(|a| a.to_string()),
        content_type: content_type.map(|c| c.to_string()),
        body: body.to_vec(),
    }
}

fn is_id_char(c: char) -> bool {
    c.is_ascii_alphanumeric() || c == '-' || c == '_'
}

/// An in-memory contents directory, in listing order.
struct Dir {
    files: Vec<(String, Vec<u8>)>,
}

impl Dir {
    fn new() -> Dir {
        Dir { files: Vec::new() }
    }

    fn names(&self) -> Vec<String> {
        self.files.iter().map(|f| f.0.clone()).collect()
    }

    fn read(&self, name: &str) -> Option<Vec<u8>> {
        self.files.iter().find(|f| f.0 == name).map(|f| f.1.clone())
    }

    fn apply(&mut self, writes: Vec<FileWrite>) {
        for w in writes {
            match self.files.iter_mut().find(|f| f.0 == w.name) {
                Some(f) => f.1 = w.bytes,
                None => self.files.push((w.name, w.bytes)),
            }
        }
    }

    /// The whole upload path, as the server runs it.
    fn post(&mut self, ctx: &ServerContext, req: &UploadRequest, now: u64) -> shortclip::http::Response {
        match handle_upload(ctx, req) {
            UploadStep::Respond(r) => r,
            UploadStep::Store { id, author, content_type } => {
                let stored = self.read(&id).is_some();
                let meta = Metadata::created_at_time(&author, &content_type, None, now);
                let text = meta.to_string();
                self.apply(store_writes(&id, stored, &req.body, &text));
                upload_created(&ctx.host, &id)
            }
        }
    }

    /// The whole download path, as the server runs it.
    fn get(&self, path: &str) -> shortclip::http::Response {
        match locate_download(path, &self.names()) {
            DownloadStep::Respond(r) => r,
            DownloadStep::Read { data_file, metadata_file } => {
                finish_download(self.read(&metadata_file), self.read(&data_file))
            }
        }
    }
}

fn header(v: &Option<String>) -> Option<&str> {
    v.as_deref()
}

#[test]
fn upload_plain_text_then_download() {
    let ctx = context(HostBase::Local(3000));
    let mut dir = Dir::new();
    let r = dir.post(&ctx, &request(Some("T"), Some("text/plain"), b"hello"), 100);
    assert_eq!(r.status, 201);
    let link = r.location.clone().unwrap();
    assert!(link.starts_with("http://localhost:3000/"));
    let id = &link["http://localhost:3000/".len()..];
    assert_eq!(id.len(), 11);
    assert!(id.chars().all(is_id_char));
    assert_eq!(r.body, link.as_bytes());

    let g = dir.get(&format!("/{id}"));
    assert_eq!(g.status, 200);
    assert_eq!(header(&g.content_type), Some("text/plain"));
    assert_eq!(g.body, b"hello");
}

#[test]
fn upload_uri_list_redirects() {
    let ctx = context(HostBase::Local(3000));
    let mut dir = Dir::new();
    let r = dir.post(&ctx, &request(Some("T"), Some("text/uri-list"), b"https://example.com/"), 1);
    assert_eq!(r.status, 201);
    let link = r.location.unwrap();
    let id = link.rsplit('/').next().unwrap();
    let g = dir.get(&format!("/{id}"));
    assert_eq!(g.status, 307);
    assert_eq!(header(&g.location), Some("https://example.com/"));
    assert_eq!(header(&g.content_type), Some("text/uri-list"));
    assert!(g.nosniff);
    assert_eq!(g.cache_control, None);
}

#[test]
fn upload_twice_keeps_first() {
    let ctx = context(HostBase::Local(3000));
    let mut dir = Dir::new();
    let r1 = dir.post(&ctx, &request(Some("T"), Some("text/plain"), b"hello"), 10);
    let after_first = dir.files.clone();
    let r2 = dir.post(&ctx, &request(Some("Bearer T"), Some("text/markdown"), b"hello"), 20);
    assert_eq!(r1.location, r2.location);
    assert_eq!(dir.files, after_first);
    let id = object_id(b"hello");
    assert!(store_writes(&id, true, b"hello", "{}").is_empty());
}

#[test]
fn upload_without_authorization() {
    let ctx = context(HostBase::Local(3000));
    match handle_upload(&ctx, &request(None, Some("text/plain"), b"x")) {
        UploadStep::Respond(r) => {
            assert_eq!(r.status, 400);
            assert_eq!(r.body, b"Missing Authorization header");
        }
        UploadStep::Store { .. } => panic!("accepted"),
    }
}

#[test]
fn upload_without_content_type() {
    let ctx = context(HostBase::Local(3000));
    match handle_upload(&ctx, &request(Some("T"), None, b"x")) {
        UploadStep::Respond(r) => {
            assert_eq!(r.status, 400);
            assert_eq!(r.body, b"Missing Content-Type header");
        }
        UploadStep::Store { .. } => panic!("accepted"),
    }
}

#[test]
fn upload_with_wrong_token() {
    let ctx = context(HostBase::Local(3000));
    match handle_upload(&ctx, &request(Some("Bearer wrong"), Some("text/plain"), b"x")) {
        UploadStep::Respond(r) => {
            assert_eq!(r.status, 403);
            assert!(r.body.is_empty());
        }
        UploadStep::Store { .. } => panic!("accepted"),
    }
}

#[test]
fn upload_with_bearer_and_bare_token() {
    let ctx = context(HostBase::Local(3000));
    for auth in ["T", "Bearer T"] {
        match handle_upload(&ctx, &request(Some(auth), Some("text/plain"), b"x")) {
            UploadStep::Store { id, author, content_type } => {
                assert_eq!(id, object_id(b"x"));
                assert_eq!(author, "alice");
                assert_eq!(content_type, "text/plain");
            }
            UploadStep::Respond(r) => panic!("refused with {}", r.status),
        }
    }
}

#[test]
fn download_missing_and_empty_id() {
    let dir = Dir::new();
    let g = dir.get("/does-not-exist");
    assert_eq!(g.status, 404);
    assert!(g.body.is_empty());
    let g = dir.get("/");
    assert_eq!(g.status, 404);
    assert!(g.body.is_empty());
    assert_eq!(download_id("/"), None);
    assert_eq!(download_id(""), None);
    assert_eq!(download_id("/ab").as_deref(), Some("ab"));
}

#[test]
fn public_host_link() {
    let ctx = context(HostBase::Public("cdn.example.net".to_string()));
    let mut dir = Dir::new();
    let r = dir.post(&ctx, &request(Some("T"), Some("text/plain"), b"x"), 0);
    let id = object_id(b"x");
    assert_eq!(r.location.unwrap(), format!("https://cdn.example.net/{id}"));
}

#[test]
fn link_formats() {
    assert_eq!(object_link(&HostBase::Local(8080), "abc"), "http://localhost:8080/abc");
    assert_eq!(object_link(&HostBase::Local(0), "q"), "http://localhost:0/q");
    assert_eq!(object_link(&HostBase::Public("h".to_string()), "q"), "https://h/q");
    let r = upload_created(&HostBase::Local(3000), "zz");
    assert_eq!(r.status, 201);
    assert_eq!(r.body, b"http://localhost:3000/zz");
}

#[test]
fn strip_bearer_once() {
    assert_eq!(strip_bearer("Bearer abc"), "abc");
    assert_eq!(strip_bearer("abc"), "abc");
    assert_eq!(strip_bearer("Bearer "), "");
    assert_eq!(strip_bearer("bearer abc"), "bearer abc");
    assert_eq!(strip_bearer("Bearer Bearer x"), "Bearer x");
}

#[test]
fn download_headers_and_caching() {
    let meta = Metadata::created_at_time("a", "image/png", None, 0);
    let r = handle_download(&meta, vec![1, 2, 3]);
    assert_eq!(r.status, 200);
    assert_eq!(header(&r.content_type), Some("image/png"));
    assert_eq!(header(&r.cache_control), Some("max-age=31536000, immutable"));
    assert!(r.nosniff);
    assert_eq!(r.location, None);
    assert_eq!(r.body, vec![1, 2, 3]);
}

#[test]
fn download_uri_list_not_utf8_is_teapot() {
    let meta = Metadata::created_at_time("a", "text/uri-list", None, 0);
    let r = handle_download(&meta, vec![0xff, 0xfe]);
    assert_eq!(r.status, 418);
    assert_eq!(r.body, b"I'm a teapot");
}

#[test]
fn routing_by_method() {
    assert_eq!(route(Method::Get), Route::Download);
    assert_eq!(route(Method::Post), Route::Upload);
    assert_eq!(route(Method::Other), Route::NotFound);
    assert_eq!(not_found().status, 404);
    let e = internal_error();
    assert_eq!(e.status, 418);
    assert_eq!(e.body, b"I'm a teapot");
    assert_eq!(settle(None).status, 418);
    assert_eq!(settle(Some(not_found())).status, 404);
}

#[test]
fn find_entry_exact_first_match() {
    let names: Vec<String> = ["b", "a.json", "a", "A", "a"].iter().map(|s| s.to_string()).collect();
    assert_eq!(find_entry(&names, "a"), Some(2));
    assert_eq!(find_entry(&names, "A"), Some(3));
    assert_eq!(find_entry(&names, "c"), None);
    assert_eq!(find_entry(&Vec::new(), "a"), None);
}

#[test]
fn sidecar_names() {
    assert_eq!(metadata_file_name("abc"), "abc.json");
    assert_eq!(metadata_file_name("abc.json"), "abc.json");
    assert_eq!(metadata_file_name("a.b.c"), "a.b.json");
    assert_eq!(metadata_file_name(".hidden"), ".hidden.json");
    assert_eq!(metadata_file_name("x."), "x.json");
}

#[test]
fn store_writes_data_then_metadata() {
    let ws = store_writes("id1", false, b"data", "{\"k\":1}");
    assert_eq!(ws.len(), 2);
    assert_eq!(ws[0].name, "id1");
    assert_eq!(ws[0].bytes, b"data");
    assert_eq!(ws[1].name, "id1.json");
    assert_eq!(ws[1].bytes, b"{\"k\":1}");
}

#[test]
fn download_exact_name_only() {
    let names: Vec<String> = ["AbC", "AbC.json"].iter().map(|s| s.to_string()).collect();
    match locate_download("/abc", &names) {
        DownloadStep::Respond(r) => {
            assert_eq!(r.status, 404);
            assert!(r.body.is_empty());
        }
        DownloadStep::Read { .. } => panic!("matched another case"),
    }
    match locate_download("/AbC", &names) {
        DownloadStep::Read { data_file, metadata_file } => {
            assert_eq!(data_file, "AbC");
            assert_eq!(metadata_file, "AbC.json");
        }
        DownloadStep::Respond(r) => panic!("refused with {}", r.status),
    }
    match locate_download("/", &names) {
        DownloadStep::Respond(r) => assert_eq!(r.status, 404),
        DownloadStep::Read { .. } => panic!("read for an empty id"),
    }
}

#[test]
fn download_missing_files() {
    let meta = Metadata::created_at_time("a", "text/plain", None, 0).to_string().into_bytes();
    let r = finish_download(None, Some(b"x".to_vec()));
    assert_eq!(r.status, 404);
    assert!(r.body.is_empty());
    let r = finish_download(Some(meta.clone()), None);
    assert_eq!(r.status, 404);
    let r = finish_download(Some(b"not json".to_vec()), Some(b"x".to_vec()));
    assert_eq!(r.status, 418);
    let r = finish_download(Some(meta), Some(b"x".to_vec()));
    assert_eq!(r.status, 200);
    assert_eq!(r.body, b"x");
}
