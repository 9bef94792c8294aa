use shortclip::client::{
    config_file_path, file_content, guess_path_content, normalize, path_extension, upload_call,
    upload_outcome, capture_clipboard, Capture, ClientError, ClipboardContent, ClipboardData,
    ClipboardOffer, Config, RgbaImage,
};
use shortclip::hotkey::{create_listener, is_hotkey_activation};

fn ready(r: Result<Capture, ClientError>) -> (String, Vec<u8>) {
    match r {
        Ok(Capture::Ready(c)) => (c.content_type, c.data),
        Ok(Capture::ReadFile(p)) => panic!("asks to read {p}"),
        Err(e) => panic!("failed: {e:?}"),
    }
}

fn config() -> Config {
    Config { host: "http://localhost:3000/".to_string(), token: "T".to_string() }
}

#[test]
fn url_text_is_uri_list() {
    let (t, d) = ready(normalize(ClipboardData::Text("https://a.test/".to_string())));
    assert_eq!(t, "text/uri-list");
    assert_eq!(d, b"https://a.test/");
    let call = upload_call(&config(), ClipboardContent { content_type: t, data: d });
    assert_eq!(call.url, "http://localhost:3000/");
    assert_eq!(call.authorization, "T");
    assert_eq!(call.content_type, "text/uri-list");
    assert_eq!(call.body, b"https://a.test/");
}

#[test]
fn plain_text_is_text_plain() {
    let (t, d) = ready(normalize(ClipboardData::Text("just words".to_string())));
    assert_eq!(t, "text/plain");
    assert_eq!(d, b"just words");
    let (t, _) = ready(normalize(ClipboardData::Text("/relative/path".to_string())));
    assert_eq!(t, "text/plain");
}

#[test]
fn empty_text_is_empty_clipboard() {
    assert!(matches!(normalize(ClipboardData::Text(String::new())), Err(ClientError::EmptyClipboard)));
    assert!(matches!(normalize(ClipboardData::Files(Vec::new())), Err(ClientError::EmptyClipboard)));
}

#[test]
fn image_becomes_png() {
    let pixels: Vec<u8> = vec![255, 0, 0, 255, 0, 255, 0, 128];
    let (t, d) = ready(normalize(ClipboardData::Image(RgbaImage { width: 2, height: 1, bytes: pixels.clone() })));
    let call = upload_call(&config(), ClipboardContent { content_type: t, data: d });
    assert_eq!(call.content_type, "image/png");
    let decoder = png::Decoder::new(std::io::Cursor::new(call.body));
    let mut reader = decoder.read_info().unwrap();
    let mut buf = vec![0; reader.output_buffer_size()];
    let info = reader.next_frame(&mut buf).unwrap();
    assert_eq!((info.width, info.height), (2, 1));
    assert_eq!(&buf[..info.buffer_size()], &pixels[..]);
}

#[test]
fn image_with_wrong_size_fails() {
    let r = normalize(ClipboardData::Image(RgbaImage { width: 3, height: 3, bytes: vec![0; 4] }));
    assert!(matches!(r, Err(ClientError::ImageEncoding)));
    let r = normalize(ClipboardData::Image(RgbaImage { width: 0, height: 0, bytes: vec![] }));
    assert!(matches!(r, Err(ClientError::ImageEncoding)));
}

#[test]
fn file_uri_text_reads_file() {
    match normalize(ClipboardData::Text("file:///tmp/sample.png".to_string())) {
        Ok(Capture::ReadFile(p)) => assert_eq!(p, "/tmp/sample.png"),
        _ => panic!("expected a file"),
    }
    let bytes = vec![0x89, b'P', b'N', b'G', 1, 2, 3];
    let c = file_content("/tmp/sample.png", bytes.clone()).unwrap();
    let call = upload_call(&config(), c);
    assert_eq!(call.content_type, "image/png");
    assert_eq!(call.body, bytes);
}

#[test]
fn first_file_is_taken() {
    let files = vec!["/a/one.txt".to_string(), "/b/two.png".to_string()];
    match normalize(ClipboardData::Files(files)) {
        Ok(Capture::ReadFile(p)) => assert_eq!(p, "/a/one.txt"),
        _ => panic!("expected a file"),
    }
}

#[test]
fn empty_file_is_empty_clipboard() {
    assert!(matches!(file_content("/x.txt", Vec::new()), Err(ClientError::EmptyClipboard)));
}

#[test]
fn media_types_by_extension() {
    assert_eq!(guess_path_content("/tmp/a.png"), "image/png");
    assert_eq!(guess_path_content("/tmp/a.PNG"), "image/png");
    assert_eq!(guess_path_content("/tmp/notes.txt"), "text/plain");
    assert_eq!(guess_path_content("/tmp/noext"), "application/octet-stream");
    assert_eq!(guess_path_content("/tmp/a.unknownext"), "application/octet-stream");
    assert_eq!(guess_path_content("/tmp/.bashrc"), "application/octet-stream");
    assert_eq!(guess_path_content("/dir.png/file"), "application/octet-stream");
}

#[test]
fn extensions_of_paths() {
    assert_eq!(path_extension("/a/b.tar.gz").as_deref(), Some("gz"));
    assert_eq!(path_extension("b.").as_deref(), Some(""));
    assert_eq!(path_extension("/a/.b"), None);
    assert_eq!(path_extension("/a/.."), None);
    assert_eq!(path_extension("/a.b/c"), None);
    assert_eq!(path_extension(""), None);
}

#[test]
fn created_response_gives_link() {
    assert_eq!(upload_outcome(201, Some("X".to_string())), Ok("X".to_string()));
    assert_eq!(upload_outcome(200, Some("X".to_string())), Err(ClientError::UploadFailed));
    assert_eq!(upload_outcome(500, None), Err(ClientError::UploadFailed));
    assert_eq!(upload_outcome(201, None), Err(ClientError::UploadFailed));
}

#[test]
fn config_locations() {
    assert_eq!(
        config_file_path(Some("/x/cfg"), Some("/home/u")).as_deref(),
        Some("/x/cfg/shortclip-config.json")
    );
    assert_eq!(
        config_file_path(None, Some("/home/u")).as_deref(),
        Some("/home/u/.config/shortclip-config.json")
    );
    assert_eq!(config_file_path(Some("/x/"), None).as_deref(), Some("/x/shortclip-config.json"));
    assert_eq!(config_file_path(None, None), None);
}

#[test]
fn listener_runs_callback_once() {
    let count = std::cell::Cell::new(0);
    let r: Result<(), String> = create_listener(|| {
        count.set(count.get() + 1);
        Ok(())
    });
    assert!(r.is_ok());
    assert_eq!(count.get(), 1);
    let r: Result<(), String> = create_listener(|| Err("boom".to_string()));
    assert_eq!(r, Err("boom".to_string()));
}

#[test]
fn hotkey_messages() {
    assert!(!is_hotkey_activation(0));
    assert!(is_hotkey_activation(1));
}

#[test]
fn image_is_probed_first() {
    let offer = ClipboardOffer {
        image: Some(RgbaImage { width: 1, height: 1, bytes: vec![1, 2, 3, 4] }),
        files: Some(vec!["/a.txt".to_string()]),
        text: Some("hello".to_string()),
    };
    let (t, _) = ready(capture_clipboard(offer));
    assert_eq!(t, "image/png");
    let offer = ClipboardOffer { image: None, files: Some(vec!["/a.txt".to_string()]), text: Some("hello".to_string()) };
    assert!(matches!(capture_clipboard(offer), Ok(Capture::ReadFile(p)) if p == "/a.txt"));
    let offer = ClipboardOffer { image: None, files: None, text: Some("hello".to_string()) };
    assert_eq!(ready(capture_clipboard(offer)).0, "text/plain");
    let offer = ClipboardOffer { image: None, files: None, text: None };
    assert!(matches!(capture_clipboard(offer), Err(ClientError::EmptyClipboard)));
}

#[test]
fn image_with_huge_sides_fails() {
    let big = u32::MAX as usize;
    let r = normalize(ClipboardData::Image(RgbaImage { width: big, height: big, bytes: vec![0; 4] }));
    assert!(matches!(r, Err(ClientError::ImageEncoding)));
}
