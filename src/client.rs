use vstd::prelude::*;
use vstd::string::*;
use crate::http::{opt_view, utf8_bytes};
use crate::text::{chars_of, has_prefix, is_last_dot, push_str, string_of};

verus! {

#[verifier::external_type_specification]
#[verifier::external_body]
pub struct ExPngEncodingError(png::EncodingError);

/// Where the client uploads, and the token it sends.
pub struct Config {
    pub host: String,
    pub token: String,
}

/// The normalized clipboard payload: a media type and its bytes.
pub struct ClipboardContent {
    pub content_type: String,
    pub data: Vec<u8>,
}

/// A raw image of 8-bit RGBA pixels, row by row.
pub struct RgbaImage {
    pub width: usize,
    pub height: usize,
    pub bytes: Vec<u8>,
}

/// What a platform clipboard reader found, by the first format that held data.
pub enum ClipboardData {
    Image(RgbaImage),
    /// Paths of files on the clipboard that exist.
    Files(Vec<String>),
    Text(String),
}

/// What remains to do with a clipboard reading.
pub enum Capture {
    /// The payload is complete.
    Ready(ClipboardContent),
    /// The payload is the file at this path: read it and pass it to
    /// `file_content`.
    ReadFile(String),
}

/// Failures of one pass of the client pipeline.
#[derive(Clone, Copy, Debug, PartialEq, Eq, Structural)]
pub enum ClientError {
    EmptyClipboard,
    ImageEncoding,
    UploadFailed,
}

pub const PNG_TYPE: &'static str = "image/png";

pub const URI_LIST_TYPE: &'static str = "text/uri-list";

pub const TEXT_TYPE: &'static str = "text/plain";

pub const OCTET_STREAM: &'static str = "application/octet-stream";

pub const FILE_SCHEME: &'static str = "file://";

/// The PNG file that the `png` crate writes for an 8-bit RGBA image.
pub uninterp spec fn png_rgba8_of(width: u32, height: u32, pixels: Seq<u8>) -> Seq<u8>;

/// Relies on `png::Encoder` (`write_header`, `write_image_data`, `finish`):
/// an 8-bit RGBA image, written with a source gamma of 1/2.2 and the sRGB
/// primaries. `write_header` refuses a zero width or height; with a buffer
/// of `4 * width * height` bytes nothing else fails, the output being a `Vec`.
#[verifier::external_body]
fn encode_png_rgba8(width: u32, height: u32, pixels: &[u8]) -> (r: Result<
    Vec<u8>,
    png::EncodingError,
>)
    requires
        pixels@.len() == 4 * width * height,
    ensures
        r is Ok <==> (width > 0 && height > 0),
        r matches Ok(b) ==> b@ == png_rgba8_of(width, height, pixels@),
{
    let mut out: Vec<u8> = Vec::new();
    let mut encoder = png::Encoder::new(&mut out, width, height);
    encoder.set_color(png::ColorType::Rgba);
    encoder.set_depth(png::BitDepth::Eight);
    let s = png::ScaledFloat::from_scaled;
    encoder.set_source_gamma(s(45455));
    encoder.set_source_chromaticities(png::SourceChromaticities {
        white: (s(31270), s(32900)), red: (s(64000), s(33000)),
        green: (s(30000), s(60000)), blue: (s(15000), s(6000)),
    });
    let mut writer = encoder.write_header()?;
    writer.write_image_data(pixels)?;
    writer.finish()?;
    Ok(out)
}

/// Whether `url::Url::parse` accepts the text, that is, whether it is an
/// absolute URL.
pub uninterp spec fn url_parses(s: Seq<char>) -> bool;

/// Relies on `url::Url::parse`, which accepts absolute URLs only.
#[verifier::external_body]
fn is_absolute_url(s: &str) -> (r: bool)
    ensures
        r == url_parses(s@),
{
    url::Url::parse(s).is_ok()
}

/// The first media type that `mime_guess` lists for a file extension.
pub uninterp spec fn mime_of_extension(ext: Seq<char>) -> Option<Seq<char>>;

/// Relies on `mime_guess::from_ext(..).first_raw()`: the first entry of its
/// static table for the extension (compared without case); none for an
/// empty extension.
#[verifier::external_body]
fn mime_for_extension(ext: &str) -> (r: Option<String>)
    ensures
        opt_view(r) == mime_of_extension(ext@),
        ext@.len() == 0 ==> r is None,
{
    mime_guess::from_ext(ext).first_raw().map(|m| m.to_owned())
}

/// `k` is the position of the last `/` in `p`.
pub open spec fn is_last_slash(p: Seq<char>, k: int) -> bool {
    &&& 0 <= k < p.len()
    &&& p[k] == '/'
    &&& forall|j: int| k < j < p.len() ==> p[j] != '/'
}

/// The last component of a path: what follows its last `/`.
pub open spec fn file_name(p: Seq<char>) -> Seq<char> {
    if exists|k: int| is_last_slash(p, k) {
        p.skip((choose|k: int| is_last_slash(p, k)) + 1)
    } else {
        p
    }
}

/// The extension of a file name, as `Path::extension` takes it: the text
/// after the last `.`, where that `.` does not open the name; `..` has none.
pub open spec fn name_extension(n: Seq<char>) -> Option<Seq<char>> {
    if n == seq!['.', '.'] {
        None
    } else if exists|k: int| is_last_dot(n, k) && k > 0 {
        Some(n.skip((choose|k: int| is_last_dot(n, k) && k > 0) + 1))
    } else {
        None
    }
}

/// The media type guessed from a path: by its extension where `mime_guess`
/// knows it, `application/octet-stream` otherwise.
pub open spec fn path_media_type(p: Seq<char>) -> Seq<char> {
    match name_extension(file_name(p)) {
        Some(e) => match mime_of_extension(e) {
            Some(m) => m,
            None => OCTET_STREAM@,
        },
        None => OCTET_STREAM@,
    }
}

/// The extension of the last component of a `/`-separated path.
pub fn path_extension(path: &str) -> (r: Option<String>)
    ensures
        opt_view(r) == name_extension(file_name(path@)),
{
    let cs = chars_of(path);
    let mut start: usize = cs.len();
    while start > 0 && cs[start - 1] != '/'
        invariant
            start <= cs@.len(),
            cs@ == path@,
            forall|j: int| start <= j < cs@.len() ==> cs@[j] != '/',
        decreases start,
    {
        start = start - 1;
    }
    let ghost name = cs@.skip(start as int);
    proof {
        if start > 0 {
            let d = (start - 1) as int;
            assert(is_last_slash(path@, d));
            assert forall|d2: int| is_last_slash(path@, d2) implies d2 == d by {
                if d2 < d {
                    assert(path@[d] == '/');
                }
            }
        } else {
            assert(name == path@);
            assert(!exists|k: int| is_last_slash(path@, k));
        }
        assert(name == file_name(path@));
    }
    if cs.len() - start == 2 && cs[start] == '.' && cs[start + 1] == '.' {
        assert(name == seq!['.', '.']);
        return None;
    }
    let mut k: usize = cs.len();
    while k > start && cs[k - 1] != '.'
        invariant
            start <= k <= cs@.len(),
            cs@ == path@,
            forall|j: int| k <= j < cs@.len() ==> cs@[j] != '.',
        decreases k,
    {
        k = k - 1;
    }
    if k - start > 1 {
        let ghost d = (k - 1 - start) as int;
        assert(is_last_dot(name, d));
        assert forall|d2: int| is_last_dot(name, d2) && d2 > 0 implies d2 == d by {
            if d2 < d {
                assert(name[d] == '.');
            }
        }
        assert(cs@.subrange(k as int, cs@.len() as int) == name.skip(d + 1));
        Some(string_of(&cs, k, cs.len()))
    } else {
        assert forall|d2: int| !(is_last_dot(name, d2) && d2 > 0) by {
            if is_last_dot(name, d2) && d2 > 0 {
                assert(name[d2] == cs@[start + d2]);
            }
        }
        None
    }
}

/// The media type of a file, guessed from its path.
pub fn guess_path_content(path: &str) -> (r: String)
    ensures
        r@ == path_media_type(path@),
{
    match path_extension(path) {
        Some(ext) => match mime_for_extension(ext.as_str()) {
            Some(m) => m,
            None => OCTET_STREAM.to_owned(),
        },
        None => OCTET_STREAM.to_owned(),
    }
}

/// The payload a clipboard reading gives, over plain values.
pub enum CaptureView {
    Ready { content_type: Seq<char>, data: Seq<u8> },
    ReadFile(Seq<char>),
}

impl Capture {
    pub open spec fn view(&self) -> CaptureView {
        match self {
            Capture::Ready(c) => CaptureView::Ready {
                content_type: c.content_type@,
                data: c.data@,
            },
            Capture::ReadFile(p) => CaptureView::ReadFile(p@),
        }
    }
}

/// The media type of clipboard text that names no file: `text/uri-list` for
/// an absolute URL, `text/plain` otherwise.
pub open spec fn text_media_type(t: Seq<char>) -> Seq<char> {
    if url_parses(t) {
        URI_LIST_TYPE@
    } else {
        TEXT_TYPE@
    }
}

/// Whether `t` begins with `file://`.
pub open spec fn names_file(t: Seq<char>) -> bool {
    FILE_SCHEME@.len() <= t.len() && t.take(FILE_SCHEME@.len() as int) == FILE_SCHEME@
}

/// How a clipboard reading becomes a payload, for the formats that need no
/// outside encoder: the first of several files; text naming a file by
/// `file://`; or the text itself, typed by whether it is a URL.
pub open spec fn capture_of_files(paths: Seq<Seq<char>>) -> Result<CaptureView, ClientError> {
    if paths.len() == 0 {
        Err(ClientError::EmptyClipboard)
    } else {
        Ok(CaptureView::ReadFile(paths[0]))
    }
}

pub open spec fn capture_of_text(t: Seq<char>) -> Result<CaptureView, ClientError> {
    if names_file(t) {
        Ok(CaptureView::ReadFile(t.skip(FILE_SCHEME@.len() as int)))
    } else if t.len() == 0 {
        Err(ClientError::EmptyClipboard)
    } else {
        Ok(
            CaptureView::Ready {
                content_type: text_media_type(t),
                data: vstd::utf8::encode_utf8(t),
            },
        )
    }
}

/// An image is encoded when its sides are between 1 and `u32::MAX` and its
/// buffer holds four bytes per pixel; otherwise it is `ImageEncoding`.
pub open spec fn capture_of_image(img: RgbaImage) -> Result<CaptureView, ClientError> {
    if 0 < img.width <= u32::MAX && 0 < img.height <= u32::MAX && img.bytes@.len() == 4
        * img.width * img.height {
        Ok(
            CaptureView::Ready {
                content_type: PNG_TYPE@,
                data: png_rgba8_of(img.width as u32, img.height as u32, img.bytes@),
            },
        )
    } else {
        Err(ClientError::ImageEncoding)
    }
}

pub open spec fn result_view(r: Result<Capture, ClientError>) -> Result<CaptureView, ClientError> {
    match r {
        Ok(c) => Ok(c.view()),
        Err(e) => Err(e),
    }
}

/// Turns what the clipboard held into a payload, or into the path of the file
/// whose contents are the payload. An image is re-encoded as PNG (failing
/// with `ImageEncoding` where its size and buffer disagree); files give the first
/// path; text starting with `file://` names a file; other non-empty text is
/// sent as itself. No file and empty text give `EmptyClipboard`.
pub fn normalize(data: ClipboardData) -> (r: Result<Capture, ClientError>)
    ensures
        match data {
            ClipboardData::Image(img) => result_view(r) == capture_of_image(img),
            ClipboardData::Files(paths) => result_view(r) == capture_of_files(
                paths@.map_values(|p: String| p@),
            ),
            ClipboardData::Text(t) => result_view(r) == capture_of_text(t@),
        },
{
    match data {
        ClipboardData::Image(img) => {
            if img.width == 0 || img.height == 0 || img.width > u32::MAX as usize || img.height
                > u32::MAX as usize {
                return Err(ClientError::ImageEncoding);
            }
            let w = img.width as u64;
            let h = img.height as u64;
            let len = img.bytes.len();
            let size = match (4 * w).checked_mul(h) {
                Some(n) => n,
                None => {
                    assert(img.bytes@.len() != 4 * img.width * img.height) by (nonlinear_arith)
                        requires
                            4 * w * h > u64::MAX,
                            img.bytes@.len() == len,
                            len <= u64::MAX,
                            w == img.width,
                            h == img.height,
                    ;
                    return Err(ClientError::ImageEncoding);
                },
            };
            if len as u64 != size {
                return Err(ClientError::ImageEncoding);
            }
            match encode_png_rgba8(img.width as u32, img.height as u32, img.bytes.as_slice()) {
                Ok(png) => Ok(
                    Capture::Ready(ClipboardContent { content_type: PNG_TYPE.to_owned(), data: png }),
                ),
                Err(_) => Err(ClientError::ImageEncoding),
            }
        },
        ClipboardData::Files(paths) => {
            if paths.len() == 0 {
                Err(ClientError::EmptyClipboard)
            } else {
                Ok(Capture::ReadFile(paths[0].clone()))
            }
        },
        ClipboardData::Text(t) => {
            let cs = chars_of(t.as_str());
            if has_prefix(&cs, FILE_SCHEME) {
                let scheme = chars_of(FILE_SCHEME);
                Ok(Capture::ReadFile(string_of(&cs, scheme.len(), cs.len())))
            } else if cs.len() == 0 {
                Err(ClientError::EmptyClipboard)
            } else {
                let content_type = if is_absolute_url(t.as_str()) {
                    URI_LIST_TYPE.to_owned()
                } else {
                    TEXT_TYPE.to_owned()
                };
                let bytes = utf8_bytes(t.as_str());
                Ok(Capture::Ready(ClipboardContent { content_type, data: bytes }))
            }
        },
    }
}

/// Every format the clipboard offers, each read where it is present.
pub struct ClipboardOffer {
    pub image: Option<RgbaImage>,
    /// Paths of listed files that exist.
    pub files: Option<Vec<String>>,
    pub text: Option<String>,
}

/// How a clipboard offer becomes a payload: the image if there is one, else
/// the file list, else the text; nothing at all is `EmptyClipboard`.
pub open spec fn capture_of_offer(offer: ClipboardOffer) -> Result<CaptureView, ClientError> {
    match offer.image {
        Some(img) => capture_of_image(img),
        None => match offer.files {
            Some(paths) => capture_of_files(paths@.map_values(|p: String| p@)),
            None => match offer.text {
                Some(t) => capture_of_text(t@),
                None => Err(ClientError::EmptyClipboard),
            },
        },
    }
}

/// Reads the clipboard's offer in the order of preference: a raster image,
/// then a file list, then text.
pub fn capture_clipboard(offer: ClipboardOffer) -> (r: Result<Capture, ClientError>)
    ensures
        result_view(r) == capture_of_offer(offer),
{
    match offer.image {
        Some(img) => normalize(ClipboardData::Image(img)),
        None => match offer.files {
            Some(paths) => normalize(ClipboardData::Files(paths)),
            None => match offer.text {
                Some(t) => normalize(ClipboardData::Text(t)),
                None => Err(ClientError::EmptyClipboard),
            },
        },
    }
}

/// Clipboard text `file://<path>` names the file at `<path>`: its contents,
/// when not empty, are the payload, typed by the path's extension.
pub proof fn lemma_file_uri_payload(path: Seq<char>)
    ensures
        capture_of_text(FILE_SCHEME@ + path) == Ok::<CaptureView, ClientError>(
            CaptureView::ReadFile(path),
        ),
{
    let t = FILE_SCHEME@ + path;
    assert(t.take(FILE_SCHEME@.len() as int) == FILE_SCHEME@);
    assert(t.skip(FILE_SCHEME@.len() as int) == path);
}

/// The payload of a file read from `path`, typed by its extension; an empty
/// file gives `EmptyClipboard`.
pub fn file_content(path: &str, data: Vec<u8>) -> (r: Result<ClipboardContent, ClientError>)
    ensures
        data@.len() == 0 <==> r is Err,
        r matches Err(e) ==> e == ClientError::EmptyClipboard,
        r matches Ok(c) ==> c.content_type@ == path_media_type(path@) && c.data@ == data@,
{
    if data.len() == 0 {
        Err(ClientError::EmptyClipboard)
    } else {
        Ok(ClipboardContent { content_type: guess_path_content(path), data })
    }
}

/// The request the uploader sends: a `POST` to the configured host whose
/// `Authorization` is the configured token as it stands (no `Bearer ` is
/// added), with the payload's media type and bytes.
pub struct UploadCall {
    pub url: String,
    pub authorization: String,
    pub content_type: String,
    pub body: Vec<u8>,
}

/// Builds the upload request for a payload.
pub fn upload_call(config: &Config, content: ClipboardContent) -> (r: UploadCall)
    ensures
        r.url@ == config.host@,
        r.authorization@ == config.token@,
        r.content_type@ == content.content_type@,
        r.body@ == content.data@,
{
    UploadCall {
        url: config.host.clone(),
        authorization: config.token.clone(),
        content_type: content.content_type,
        body: content.data,
    }
}

/// The link an upload produced: the `Location` of a `201 Created`; any other
/// status, or a `201` without `Location`, is `UploadFailed`. The clipboard is
/// overwritten with the link, and left as it is on failure.
pub fn upload_outcome(status: u16, location: Option<String>) -> (r: Result<String, ClientError>)
    ensures
        r is Ok <==> (status == 201 && location is Some),
        r matches Ok(link) ==> location == Some(link),
        r matches Err(e) ==> e == ClientError::UploadFailed,
{
    if status != 201 {
        return Err(ClientError::UploadFailed);
    }
    match location {
        Some(link) => Ok(link),
        None => Err(ClientError::UploadFailed),
    }
}

/// Joins a relative path onto a base as `Path::join` does: a `/` goes between
/// them unless the base is empty or already ends with one.
pub open spec fn path_join(base: Seq<char>, rel: Seq<char>) -> Seq<char> {
    if base.len() == 0 || base.last() == '/' {
        base + rel
    } else {
        base + seq!['/'] + rel
    }
}

pub const CONFIG_FILE: &'static str = "shortclip-config.json";

pub const CONFIG_DIR: &'static str = ".config";

/// The client's configuration file on Unix-like systems:
/// `$XDG_CONFIG_HOME/shortclip-config.json` when that variable is set, else
/// `$HOME/.config/shortclip-config.json`; none when neither is set.
pub open spec fn config_path_of(
    xdg_config_home: Option<Seq<char>>,
    home: Option<Seq<char>>,
) -> Option<Seq<char>> {
    match xdg_config_home {
        Some(x) => Some(path_join(x, CONFIG_FILE@)),
        None => match home {
            Some(h) => Some(path_join(path_join(h, CONFIG_DIR@), CONFIG_FILE@)),
            None => None,
        },
    }
}

fn join_path(base: &str, rel: &str) -> (r: String)
    ensures
        r@ == path_join(base@, rel@),
{
    let cs = chars_of(base);
    let mut r = string_of(&cs, 0, cs.len());
    assert(cs@.subrange(0, cs@.len() as int) == base@);
    if cs.len() > 0 && cs[cs.len() - 1] != '/' {
        crate::text::push_char(&mut r, '/');
    }
    push_str(&mut r, rel);
    r
}

/// Where the configuration file is, from the values of `XDG_CONFIG_HOME` and
/// `HOME`.
pub fn config_file_path(xdg_config_home: Option<&str>, home: Option<&str>) -> (r: Option<String>)
    ensures
        opt_view(r) == config_path_of(
            match xdg_config_home { Some(x) => Some(x@), None => None },
            match home { Some(h) => Some(h@), None => None },
        ),
{
    match xdg_config_home {
        Some(x) => Some(join_path(x, CONFIG_FILE)),
        None => match home {
            Some(h) => {
                let dir = join_path(h, CONFIG_DIR);
                Some(join_path(dir.as_str(), CONFIG_FILE))
            },
            None => None,
        },
    }
}

} // verus!
