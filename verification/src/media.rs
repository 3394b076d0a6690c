//! Attachments of chat messages: images, audio and text files.

use vstd::prelude::*;
use vstd::utf8::{decode_utf8, valid_utf8};

use crate::acp::{Block, ContentBlock};
use crate::scaling::{
    law_scaled_within_maximum, scaled, scaled_side, IMAGE_MAX_DIMENSION_PX,
};
use crate::text::{
    after_last, ascii_lowered, ascii_raised, before_first, chars_of, contains, decimal, first_part,
    has, has_prefix, hex_text, is_ascii_text, is_text, last_part, lemma_ascii_after_last,
    lemma_lowered_after_last, lemma_lowered_find, lemma_raised_lowered, lowercase, opt_text,
    render_hex, render_u64, starts_with, string_of, trim, trimmed,
};

verus! {

/// JPEG quality for compressed output.
pub const IMAGE_JPEG_QUALITY: u8 = 75;

/// The largest image in bytes that is accepted.
pub const MAX_IMAGE_BYTES: u64 = 10_485_760;

/// The largest audio file in bytes that is transcribed.
pub const MAX_AUDIO_BYTES: u64 = 26_214_400;

/// The largest text file in bytes that is put into a prompt.
pub const MAX_TEXT_BYTES: u64 = 524_288;

/// Why an image attachment is not handed to the agent.
#[allow(inconsistent_fields)]
#[derive(Debug, PartialEq, Eq)]
pub enum MediaFetchError {
    /// URL empty or MIME/filename doesn't indicate an image; skip silently.
    NotAnImage,
    /// HTTP response Content-Type is not a supported image format.
    UnsupportedResponseType { actual: Option<String> },
    /// Response body magic bytes don't match a supported image format.
    InvalidImageBody { magic_prefix_hex: String },
    /// File exceeds the configured size limit.
    SizeExceeded { actual: u64, limit: u64 },
    /// Network-level error (send or body-read).
    Network(String),
    /// Server returned a non-success HTTP status.
    HttpStatus(String),
    /// Body was a valid image but post-processing (resize/compress) failed.
    /// Unlike `InvalidImageBody`, the format was recognised: this is an
    /// unexpected processing error, not a content validation failure.
    ProcessingFailed(String),
}

/// What such an error says.
pub enum FetchError {
    NotAnImage,
    UnsupportedResponseType(Option<Seq<char>>),
    InvalidImageBody(Seq<char>),
    SizeExceeded(u64, u64),
    Network(Seq<char>),
    HttpStatus(Seq<char>),
    ProcessingFailed(Seq<char>),
}

impl View for MediaFetchError {
    type V = FetchError;

    open spec fn view(&self) -> FetchError {
        match self {
            MediaFetchError::NotAnImage => FetchError::NotAnImage,
            MediaFetchError::UnsupportedResponseType { actual } =>
                FetchError::UnsupportedResponseType(opt_text(*actual)),
            MediaFetchError::InvalidImageBody { magic_prefix_hex } => FetchError::InvalidImageBody(
                magic_prefix_hex@,
            ),
            MediaFetchError::SizeExceeded { actual, limit } => FetchError::SizeExceeded(
                *actual,
                *limit,
            ),
            MediaFetchError::Network(e) => FetchError::Network(e@),
            MediaFetchError::HttpStatus(s) => FetchError::HttpStatus(s@),
            MediaFetchError::ProcessingFailed(e) => FetchError::ProcessingFailed(e@),
        }
    }
}

/// The text shown for an error.
pub open spec fn fetch_error_text(e: FetchError) -> Seq<char> {
    match e {
        FetchError::NotAnImage => "not an image attachment"@,
        FetchError::UnsupportedResponseType(actual) =>
            "server returned unexpected content type (actual: "@ + (match actual {
                Some(a) => a,
                None => "none"@,
            }) + ")"@,
        FetchError::InvalidImageBody(hex) =>
            "response body is not a valid image (first 8 bytes: "@ + hex + ")"@,
        FetchError::SizeExceeded(actual, limit) => "file size "@ + decimal(actual as nat)
            + " exceeds limit "@ + decimal(limit as nat),
        FetchError::Network(e) => "network error: "@ + e,
        FetchError::HttpStatus(s) => "HTTP "@ + s,
        FetchError::ProcessingFailed(e) => "image processing failed: "@ + e,
    }
}

impl MediaFetchError {
    /// The text shown for the error.
    pub fn message(&self) -> (out: String)
        ensures
            out@ == fetch_error_text(self@),
    {
        match self {
            MediaFetchError::NotAnImage => "not an image attachment".to_string(),
            MediaFetchError::UnsupportedResponseType { actual } => {
                let shown = match actual {
                    Some(a) => a.as_str(),
                    None => "none",
                };
                "server returned unexpected content type (actual: ".to_string().concat(
                    shown,
                ).concat(")")
            },
            MediaFetchError::InvalidImageBody { magic_prefix_hex } => {
                "response body is not a valid image (first 8 bytes: ".to_string().concat(
                    magic_prefix_hex.as_str(),
                ).concat(")")
            },
            MediaFetchError::SizeExceeded { actual, limit } => {
                "file size ".to_string().concat(render_u64(*actual).as_str()).concat(
                    " exceeds limit ",
                ).concat(render_u64(*limit).as_str())
            },
            MediaFetchError::Network(e) => "network error: ".to_string().concat(e.as_str()),
            MediaFetchError::HttpStatus(s) => "HTTP ".to_string().concat(s.as_str()),
            MediaFetchError::ProcessingFailed(e) => {
                "image processing failed: ".to_string().concat(e.as_str())
            },
        }
    }
}

/// A MIME type without its parameters.
pub open spec fn mime_base(mime: Seq<char>) -> Seq<char> {
    trim(before_first(mime, ';'))
}

/// Strip MIME parameters and trim whitespace.  `"image/png; charset=binary"` → `"image/png"`.
pub fn strip_mime_params(mime: &str) -> (out: String)
    ensures
        out@ == mime_base(mime@),
{
    let chars = chars_of(mime);
    string_of(trimmed(first_part(chars.as_slice(), ';')))
}

/// The first eight bytes, or all of them where there are fewer.
pub open spec fn first_eight(body: Seq<u8>) -> Seq<u8> {
    if body.len() > 8 {
        body.take(8)
    } else {
        body
    }
}

/// Format the first 8 bytes of a buffer as lowercase hex (no separator).
pub fn hex_prefix(body: &[u8]) -> (out: String)
    ensures
        out@ == hex_text(first_eight(body@)),
{
    if body.len() > 8 {
        let head = vstd::slice::slice_subrange(body, 0, 8);
        assert(head@ =~= body@.take(8));
        render_hex(head)
    } else {
        render_hex(body)
    }
}

/// Image formats that agents accept.
#[derive(Clone, Copy, Debug, PartialEq, Eq, Structural)]
pub enum ImageKind {
    Png,
    Jpeg,
    Gif,
    WebP,
}

/// Whether `body` begins with `magic`.
pub open spec fn begins_with(body: Seq<u8>, magic: Seq<u8>) -> bool {
    magic.is_prefix_of(body)
}

/// The format that the first bytes announce.
pub open spec fn image_kind(body: Seq<u8>) -> Option<ImageKind> {
    if begins_with(body, seq![0x89u8, 0x50, 0x4e, 0x47, 0x0d, 0x0a, 0x1a, 0x0a]) {
        Some(ImageKind::Png)
    } else if begins_with(body, seq![0xffu8, 0xd8, 0xff]) {
        Some(ImageKind::Jpeg)
    } else if begins_with(body, seq![0x47u8, 0x49, 0x46, 0x38, 0x39, 0x61]) || begins_with(
        body,
        seq![0x47u8, 0x49, 0x46, 0x38, 0x37, 0x61],
    ) {
        Some(ImageKind::Gif)
    } else if body.len() >= 12 && begins_with(body, seq![0x52u8, 0x49, 0x46, 0x46])
        && body.subrange(8, 12) == seq![0x57u8, 0x45, 0x42, 0x50] {
        Some(ImageKind::WebP)
    } else {
        None
    }
}

/// `image::guess_format`: the format whose magic bytes the buffer begins with.
/// Formats other than the four supported ones come back as none.
#[verifier::external_body]
fn guess_kind(body: &[u8]) -> (r: Option<ImageKind>)
    ensures
        r == image_kind(body@),
{
    match image::guess_format(body) {
        Ok(image::ImageFormat::Png) => Some(ImageKind::Png),
        Ok(image::ImageFormat::Jpeg) => Some(ImageKind::Jpeg),
        Ok(image::ImageFormat::Gif) => Some(ImageKind::Gif),
        Ok(image::ImageFormat::WebP) => Some(ImageKind::WebP),
        _ => None,
    }
}

/// Whether the first frame of a GIF can be decoded.
pub uninterp spec fn gif_decodes(raw: Seq<u8>) -> bool;

/// `image::codecs::gif::GifDecoder` and its frames: whether there is a first frame
/// and it can be decoded, which depends on the bytes alone.
#[verifier::external_body]
fn gif_first_frame(raw: &[u8]) -> (r: bool)
    ensures
        r == gif_decodes(raw@),
{
    match image::codecs::gif::GifDecoder::new(std::io::Cursor::new(raw)) {
        Ok(decoder) => matches!(
            image::AnimationDecoder::into_frames(decoder).next(),
            Some(Ok(_))
        ),
        Err(_) => false,
    }
}

/// The width and height of the image that the bytes decode to, if they do.
pub uninterp spec fn decoded_size(raw: Seq<u8>) -> Option<(u32, u32)>;

/// `image::load_from_memory_with_format`, in the format that `image::guess_format`
/// finds: the size of the decoded image, or why it cannot be decoded. Nothing is
/// claimed of the reason's text.
#[verifier::external_body]
fn image_size(raw: &[u8]) -> (r: Result<(u32, u32), String>)
    ensures
        match r {
            Ok(size) => decoded_size(raw@) == Some(size),
            Err(_) => decoded_size(raw@) is None,
        },
{
    image::guess_format(raw)
        .and_then(|format| image::load_from_memory_with_format(raw, format))
        .map(|img| (img.width(), img.height()))
        .map_err(|e| e.to_string())
}

/// The step in which a JPEG encoder of the given quality rounds the finest detail of
/// brightness. It is 99 at quality 50, less above and more below, and fits a byte.
pub open spec fn finest_step(quality: u8) -> int {
    let q = if quality < 1 {
        1
    } else if quality > 100 {
        100
    } else {
        quality as int
    };
    let scale = if q < 50 {
        5000int / q
    } else {
        200 - 2 * q
    };
    let step = (99 * scale + 50) / 100;
    if step < 1 {
        1
    } else if step > 255 {
        255
    } else {
        step
    }
}

/// Whether `out` is a JPEG file of the given quality. Byte 29 holds the number of
/// colour components, and the first table of steps ends behind their descriptions.
pub open spec fn jpeg_of_quality(out: Seq<u8>, quality: u8) -> bool {
    &&& image_kind(out) == Some(ImageKind::Jpeg)
    &&& out.len() > 107
    &&& out[29] == 1 || out[29] == 3
    &&& out[98 + 3 * out[29]] == finest_step(quality)
}

/// Whether `out` is a JPEG file that encoding the picture of `raw` once, with the given
/// quality, can give.
pub uninterp spec fn jpeg_shows(raw: Seq<u8>, quality: u8, out: Seq<u8>) -> bool;

/// `DynamicImage::write_with_encoder` with a `JpegEncoder`: the decoded image as a
/// JPEG file of the same size and the given quality. It succeeds where both sides
/// are between 1 and 65535 pixels. The file shows the picture of `raw`; which bytes
/// stand for it may differ between machines, so they are not named. Nothing is
/// claimed of what an image with more than 4096 pixels on a side decodes to.
#[verifier::external_body]
fn encode_jpeg(raw: &[u8], quality: u8) -> (r: Result<Vec<u8>, String>)
    ensures
        match decoded_size(raw@) {
            None => r is Err,
            Some((w, h)) => {
                &&& r is Ok == (1 <= w <= 65535 && 1 <= h <= 65535)
                &&& r is Ok ==> jpeg_of_quality(r->Ok_0@, quality) && jpeg_shows(
                    raw@,
                    quality,
                    r->Ok_0@,
                )
                &&& r is Ok && w <= 4096 && h <= 4096 ==> decoded_size(r->Ok_0@) == Some((w, h))
            },
        },
{
    let img = image::guess_format(raw)
        .and_then(|format| image::load_from_memory_with_format(raw, format))
        .map_err(|e| e.to_string())?;
    let mut buf = std::io::Cursor::new(Vec::new());
    let encoder = image::codecs::jpeg::JpegEncoder::new_with_quality(&mut buf, quality);
    img.write_with_encoder(encoder).map_err(|e| e.to_string())?;
    Ok(buf.into_inner())
}

/// The larger of `n` and one.
pub open spec fn at_least_one(n: nat) -> nat {
    if n == 0 {
        1
    } else {
        n
    }
}

/// Whether `a` and `b` are at most `d` apart.
pub open spec fn within(a: nat, b: nat, d: nat) -> bool {
    a <= b + d && b <= a + d
}

/// Whether `size` is what an image of `w` times `h` pixels becomes when it is scaled
/// to fit into `nw` times `nh`: one side fills its bound, and the other one keeps the
/// proportions to within one pixel.
pub open spec fn fitted(w: nat, h: nat, nw: nat, nh: nat, size: (u32, u32)) -> bool {
    &&& 1 <= size.0 <= at_least_one(nw)
    &&& 1 <= size.1 <= at_least_one(nh)
    &&& {
        ||| size.0 == at_least_one(nw) && within(size.1 as nat * w, h * nw, w)
        ||| size.1 == at_least_one(nh) && within(size.0 as nat * h, w * nh, h)
    }
}

/// Whether `out` is a JPEG file that scaling the picture of `raw` once, with the
/// Lanczos filter of support three, to fit into the given size, and encoding it once with the given quality, can give.
pub uninterp spec fn scaled_jpeg_shows(
    raw: Seq<u8>,
    width: nat,
    height: nat,
    quality: u8,
    out: Seq<u8>,
) -> bool;

/// `DynamicImage::resize` followed by `write_with_encoder` with a `JpegEncoder`: the
/// decoded image, which must not be empty, scaled to fit into the given size, as a
/// JPEG file of the given quality. The file shows the picture of `raw`; which bytes
/// stand for it may differ between machines, so they are not named. Nothing is
/// claimed of bounds above 4096 pixels.
#[verifier::external_body]
fn resize_to_jpeg(raw: &[u8], width: u32, height: u32, quality: u8) -> (r: Result<Vec<u8>, String>)
    requires
        decoded_size(raw@) matches Some((w, h)) ==> w >= 1 && h >= 1,
    ensures
        match decoded_size(raw@) {
            None => r is Err,
            Some((w, h)) => width <= 4096 && height <= 4096 ==> {
                &&& r is Ok
                &&& jpeg_of_quality(r->Ok_0@, quality)
                &&& scaled_jpeg_shows(raw@, width as nat, height as nat, quality, r->Ok_0@)
                &&& decoded_size(r->Ok_0@) is Some
                &&& fitted(
                    w as nat,
                    h as nat,
                    width as nat,
                    height as nat,
                    decoded_size(r->Ok_0@)->0,
                )
            },
        },
{
    let img = image::guess_format(raw)
        .and_then(|format| image::load_from_memory_with_format(raw, format))
        .map_err(|e| e.to_string())?;
    let img = img.resize(width, height, image::imageops::FilterType::Lanczos3);
    let mut buf = std::io::Cursor::new(Vec::new());
    let encoder = image::codecs::jpeg::JpegEncoder::new_with_quality(&mut buf, quality);
    img.write_with_encoder(encoder).map_err(|e| e.to_string())?;
    Ok(buf.into_inner())
}

/// How an image of the given size is compressed: as it is, or reduced so that its
/// longest side is at most the maximum.
pub open spec fn reduced_size(w: u32, h: u32) -> Option<(nat, nat)> {
    let longest = if w > h {
        w as nat
    } else {
        h as nat
    };
    if longest > IMAGE_MAX_DIMENSION_PX {
        Some((scaled(w as nat, longest), scaled(h as nat, longest)))
    } else {
        None
    }
}

/// The size to which an image is reduced, if it is too large.
pub fn reduction(w: u32, h: u32) -> (r: Option<(u32, u32)>)
    ensures
        match r {
            Some((nw, nh)) => reduced_size(w, h) == Some((nw as nat, nh as nat)) && nw
                <= IMAGE_MAX_DIMENSION_PX && nh <= IMAGE_MAX_DIMENSION_PX,
            None => reduced_size(w, h) is None,
        },
{
    let longest: u32 = if w > h {
        w
    } else {
        h
    };
    if longest > IMAGE_MAX_DIMENSION_PX {
        Some((scaled_side(w, longest), scaled_side(h, longest)))
    } else {
        None
    }
}

/// A copy of bytes.
fn copy_bytes(raw: &[u8]) -> (out: Vec<u8>)
    ensures
        out@ == raw@,
{
    vstd::slice::slice_to_vec(raw)
}

/// Whether an image that decodes to the given size can be compressed: it must not be
/// empty.
pub open spec fn compressible(size: Option<(u32, u32)>) -> bool {
    match size {
        Some((w, h)) => w >= 1 && h >= 1,
        None => false,
    }
}

/// Whether `out` is the compressed form of the image `raw`: a JPEG file of the
/// library's quality that shows its picture, of the same size, or scaled to fit into
/// the reduced size.
pub open spec fn compressed_form(raw: Seq<u8>, out: Seq<u8>) -> bool {
    &&& jpeg_of_quality(out, IMAGE_JPEG_QUALITY)
    &&& decoded_size(raw) is Some && decoded_size(out) is Some
    &&& match reduced_size((decoded_size(raw)->0).0, (decoded_size(raw)->0).1) {
        None => decoded_size(out) == decoded_size(raw) && jpeg_shows(
            raw,
            IMAGE_JPEG_QUALITY,
            out,
        ),
        Some((w, h)) => fitted(
            (decoded_size(raw)->0).0 as nat,
            (decoded_size(raw)->0).1 as nat,
            w,
            h,
            decoded_size(out)->0,
        ) && scaled_jpeg_shows(raw, w, h, IMAGE_JPEG_QUALITY, out),
    }
}

/// Resize image so longest side <= IMAGE_MAX_DIMENSION_PX, then encode as JPEG.
/// GIFs are passed through unchanged to preserve animation.
pub fn resize_and_compress(raw: &[u8]) -> (r: Result<(Vec<u8>, String), String>)
    ensures
        r is Ok == (image_kind(raw@) == Some(ImageKind::Gif) || compressible(decoded_size(raw@))),
        r matches Ok((out, mime)) ==> if image_kind(raw@) == Some(ImageKind::Gif) {
            out@ == raw@ && mime@ == "image/gif"@
        } else {
            compressed_form(raw@, out@) && mime@ == "image/jpeg"@
        },
{
    if guess_kind(raw) == Some(ImageKind::Gif) {
        return Ok((copy_bytes(raw), "image/gif".to_string()));
    }
    let (w, h) = match image_size(raw) {
        Ok(size) => size,
        Err(e) => {
            return Err(e);
        },
    };
    let encoded = match reduction(w, h) {
        Some((nw, nh)) if w >= 1 && h >= 1 => resize_to_jpeg(raw, nw, nh, IMAGE_JPEG_QUALITY),
        _ => encode_jpeg(raw, IMAGE_JPEG_QUALITY),
    };
    match encoded {
        Ok(out) => Ok((out, "image/jpeg".to_string())),
        Err(e) => Err(e),
    }
}

/// Extensions recognised as text-based files that can be inlined into the prompt.
pub open spec fn text_extension(s: Seq<char>) -> bool {
    ||| s == "txt"@
    ||| s == "csv"@
    ||| s == "log"@
    ||| s == "md"@
    ||| s == "json"@
    ||| s == "jsonl"@
    ||| s == "yaml"@
    ||| s == "yml"@
    ||| s == "toml"@
    ||| s == "xml"@
    ||| s == "rs"@
    ||| s == "py"@
    ||| s == "js"@
    ||| s == "ts"@
    ||| s == "jsx"@
    ||| s == "tsx"@
    ||| s == "go"@
    ||| s == "java"@
    ||| s == "c"@
    ||| s == "cpp"@
    ||| s == "h"@
    ||| s == "hpp"@
    ||| s == "rb"@
    ||| s == "sh"@
    ||| s == "bash"@
    ||| s == "zsh"@
    ||| s == "fish"@
    ||| s == "ps1"@
    ||| s == "bat"@
    ||| s == "sql"@
    ||| s == "html"@
    ||| s == "css"@
    ||| s == "scss"@
    ||| s == "less"@
    ||| s == "ini"@
    ||| s == "cfg"@
    ||| s == "conf"@
    ||| s == "env"@
}

/// Exact filenames (no extension) recognised as text files.
pub open spec fn text_filename(s: Seq<char>) -> bool {
    ||| s == "dockerfile"@
    ||| s == "makefile"@
    ||| s == "justfile"@
    ||| s == "rakefile"@
    ||| s == "gemfile"@
    ||| s == "procfile"@
    ||| s == "vagrantfile"@
    ||| s == ".gitignore"@
    ||| s == ".dockerignore"@
    ||| s == ".editorconfig"@
}

/// MIME types recognised as text-based (beyond `text/*`).
pub open spec fn text_mime(s: Seq<char>) -> bool {
    ||| s == "application/json"@
    ||| s == "application/xml"@
    ||| s == "application/javascript"@
    ||| s == "application/x-yaml"@
    ||| s == "application/x-sh"@
    ||| s == "application/toml"@
    ||| s == "application/x-toml"@
}

/// Extensions recognised as video files.
pub open spec fn video_extension(s: Seq<char>) -> bool {
    ||| s == "mp4"@
    ||| s == "mov"@
    ||| s == "m4v"@
    ||| s == "webm"@
    ||| s == "mkv"@
    ||| s == "avi"@
}

/// Whether an extension, in lower case, is one of a text file.
fn is_text_extension(s: &[char]) -> (r: bool)
    ensures
        r == text_extension(s@),
{
    is_text(s, "txt") ||
        is_text(s, "csv") ||
        is_text(s, "log") ||
        is_text(s, "md") ||
        is_text(s, "json") ||
        is_text(s, "jsonl") ||
        is_text(s, "yaml") ||
        is_text(s, "yml") ||
        is_text(s, "toml") ||
        is_text(s, "xml") ||
        is_text(s, "rs") ||
        is_text(s, "py") ||
        is_text(s, "js") ||
        is_text(s, "ts") ||
        is_text(s, "jsx") ||
        is_text(s, "tsx") ||
        is_text(s, "go") ||
        is_text(s, "java") ||
        is_text(s, "c") ||
        is_text(s, "cpp") ||
        is_text(s, "h") ||
        is_text(s, "hpp") ||
        is_text(s, "rb") ||
        is_text(s, "sh") ||
        is_text(s, "bash") ||
        is_text(s, "zsh") ||
        is_text(s, "fish") ||
        is_text(s, "ps1") ||
        is_text(s, "bat") ||
        is_text(s, "sql") ||
        is_text(s, "html") ||
        is_text(s, "css") ||
        is_text(s, "scss") ||
        is_text(s, "less") ||
        is_text(s, "ini") ||
        is_text(s, "cfg") ||
        is_text(s, "conf") ||
        is_text(s, "env")
}

/// Whether a file name, in lower case, is one of a text file.
fn is_text_filename(s: &[char]) -> (r: bool)
    ensures
        r == text_filename(s@),
{
    is_text(s, "dockerfile") ||
        is_text(s, "makefile") ||
        is_text(s, "justfile") ||
        is_text(s, "rakefile") ||
        is_text(s, "gemfile") ||
        is_text(s, "procfile") ||
        is_text(s, "vagrantfile") ||
        is_text(s, ".gitignore") ||
        is_text(s, ".dockerignore") ||
        is_text(s, ".editorconfig")
}

/// Whether a MIME type is one of a text file.
fn is_text_mime(s: &[char]) -> (r: bool)
    ensures
        r == text_mime(s@),
{
    is_text(s, "application/json") ||
        is_text(s, "application/xml") ||
        is_text(s, "application/javascript") ||
        is_text(s, "application/x-yaml") ||
        is_text(s, "application/x-sh") ||
        is_text(s, "application/toml") ||
        is_text(s, "application/x-toml")
}

/// Whether an extension, in lower case, is one of a video file.
fn is_video_extension(s: &[char]) -> (r: bool)
    ensures
        r == video_extension(s@),
{
    is_text(s, "mp4") ||
        is_text(s, "mov") ||
        is_text(s, "m4v") ||
        is_text(s, "webm") ||
        is_text(s, "mkv") ||
        is_text(s, "avi")
}

/// Check if a MIME type is audio.
pub fn is_audio_mime(mime: &str) -> (r: bool)
    ensures
        r == has_prefix(mime@, "audio/"@),
{
    let chars = chars_of(mime);
    starts_with(chars.as_slice(), "audio/")
}

/// The MIME type without parameters, empty where there is none.
fn base_of(content_type: Option<&str>) -> (out: String)
    ensures
        out@ == mime_base(declared_mime(content_type)),
{
    proof {
        reveal_strlit("");
    }
    match content_type {
        Some(m) => strip_mime_params(m),
        None => strip_mime_params(""),
    }
}

/// The declared MIME type, empty where there is none.
pub open spec fn declared_mime(content_type: Option<&str>) -> Seq<char> {
    match content_type {
        Some(m) => m@,
        None => ""@,
    }
}

/// Whether a file is a video, given the lower-case form of its extension.
pub fn is_video(content_type: Option<&str>, extension: &str) -> (r: bool)
    ensures
        r == (has_prefix(mime_base(declared_mime(content_type)), "video/"@) || video_extension(
            extension@,
        )),
{
    let base = base_of(content_type);
    let chars = chars_of(base.as_str());
    let ext = chars_of(extension);
    starts_with(chars.as_slice(), "video/") || is_video_extension(ext.as_slice())
}

/// Check if an attachment is a video file.
pub fn is_video_file(filename: &str, content_type: Option<&str>) -> (r: bool)
    ensures
        r == (has_prefix(mime_base(declared_mime(content_type)), "video/"@) || video_extension(
            lowercase(after_last(filename@, '.')),
        )),
{
    let chars = chars_of(filename);
    let ext = string_of(last_part(chars.as_slice(), '.'));
    is_video(content_type, ext.as_str().to_lowercase().as_str())
}

/// Whether a declared type is one of text.
pub open spec fn text_by_type(mime: Seq<char>) -> bool {
    has_prefix(mime_base(mime), "text/"@) || text_mime(mime_base(mime))
}

/// Whether a file name, in lower case, is one of text: by its extension, if it has one,
/// or as a whole.
pub open spec fn text_by_name(extension: Option<Seq<char>>, name: Seq<char>) -> bool {
    (extension is Some && text_extension(extension->0)) || text_filename(name)
}

/// The part of a file name behind its last dot, if it has one.
pub open spec fn extension_of(filename: Seq<char>) -> Option<Seq<char>> {
    if crate::text::find_char_from(filename, '.', 0) is Some {
        Some(after_last(filename, '.'))
    } else {
        None
    }
}

/// Whether a file name is one of text, in whatever case it is written.
pub open spec fn text_name(filename: Seq<char>) -> bool {
    let name = ascii_lowered(filename);
    text_by_name(
        match extension_of(name) {
            Some(e) => Some(lowercase(e)),
            None => None,
        },
        lowercase(name),
    )
}

/// The same of an ASCII file name.
pub open spec fn ascii_text_name(filename: Seq<char>) -> bool {
    text_by_name(extension_of(ascii_lowered(filename)), ascii_lowered(filename))
}

/// Whether a file is text, given the lower-case forms of its extension, if it has
/// one, and of its name.
pub fn is_textual(content_type: Option<&str>, extension: Option<&str>, name: &str) -> (r: bool)
    ensures
        r == (text_by_type(declared_mime(content_type)) || text_by_name(
            match extension {
                Some(e) => Some(e@),
                None => None,
            },
            name@,
        )),
{
    let base = base_of(content_type);
    let chars = chars_of(base.as_str());
    if starts_with(chars.as_slice(), "text/") || is_text_mime(chars.as_slice()) {
        return true;
    }
    if let Some(ext) = extension {
        let ext = chars_of(ext);
        if is_text_extension(ext.as_slice()) {
            return true;
        }
    }
    let name = chars_of(name);
    is_text_filename(name.as_slice())
}

/// Check if a file is text-based and can be inlined into the prompt.
pub fn is_text_file(filename: &str, content_type: Option<&str>) -> (r: bool)
    ensures
        r == (text_by_type(declared_mime(content_type)) || text_by_name(
            match extension_of(filename@) {
                Some(e) => Some(lowercase(e)),
                None => None,
            },
            lowercase(filename@),
        )),
        r == (text_by_type(declared_mime(content_type)) || text_name(filename@)),
        is_ascii_text(filename@) ==> r == (text_by_type(declared_mime(content_type))
            || ascii_text_name(filename@)),
{
    proof {
        lemma_lowered_find(filename@, '.', 0);
        lemma_lowered_after_last(filename@, '.');
        if is_ascii_text(filename@) {
            lemma_ascii_after_last(filename@, '.');
        }
    }
    let chars = chars_of(filename);
    let name = filename.to_lowercase();
    if crate::text::index_of_char(chars.as_slice(), '.', 0).is_some() {
        let ext = string_of(last_part(chars.as_slice(), '.'));
        let lower = ext.as_str().to_lowercase();
        is_textual(content_type, Some(lower.as_str()), name.as_str())
    } else {
        is_textual(content_type, None, name.as_str())
    }
}

/// The image type that an extension stands for.
pub open spec fn mime_of_extension(ext: Seq<char>) -> Option<Seq<char>> {
    if ext == "png"@ {
        Some("image/png"@)
    } else if ext == "jpg"@ || ext == "jpeg"@ {
        Some("image/jpeg"@)
    } else if ext == "gif"@ {
        Some("image/gif"@)
    } else if ext == "webp"@ {
        Some("image/webp"@)
    } else {
        None
    }
}

/// Whether an image is to be downloaded, given its type as the platform says it or
/// else the lower-case form of its file's extension.
pub open spec fn image_request(
    url: Seq<char>,
    hint: Option<Seq<char>>,
    ext: Seq<char>,
    size: u64,
) -> Result<(), FetchError> {
    let mime = match hint {
        Some(m) => Some(m),
        None => mime_of_extension(ext),
    };
    if url.len() == 0 || mime is None || !has_prefix(mime_base(mime->0), "image/"@) {
        Err(FetchError::NotAnImage)
    } else if size > MAX_IMAGE_BYTES {
        Err(FetchError::SizeExceeded(size, MAX_IMAGE_BYTES))
    } else {
        Ok(())
    }
}

/// The contents of a check's result.
pub open spec fn check_result(r: Result<(), MediaFetchError>) -> Result<(), FetchError> {
    match r {
        Ok(()) => Ok(()),
        Err(e) => Err(e@),
    }
}

fn extension_mime(ext: &[char]) -> (r: Option<&'static str>)
    ensures
        (match r {
            Some(m) => Some(m@),
            None => None,
        }) == mime_of_extension(ext@),
{
    if is_text(ext, "png") {
        Some("image/png")
    } else if is_text(ext, "jpg") || is_text(ext, "jpeg") {
        Some("image/jpeg")
    } else if is_text(ext, "gif") {
        Some("image/gif")
    } else if is_text(ext, "webp") {
        Some("image/webp")
    } else {
        None
    }
}

/// Whether an image is to be downloaded, given the lower-case form of its file's
/// extension.
pub fn check_image_request(url: &str, mime_hint: Option<&str>, extension: &str, size: u64) -> (r:
    Result<(), MediaFetchError>)
    ensures
        check_result(r) == image_request(
            url@,
            match mime_hint {
                Some(m) => Some(m@),
                None => None,
            },
            extension@,
            size,
        ),
{
    if url.unicode_len() == 0 {
        return Err(MediaFetchError::NotAnImage);
    }
    let ext = chars_of(extension);
    let mime = match mime_hint {
        Some(m) => m,
        None => match extension_mime(ext.as_slice()) {
            Some(m) => m,
            None => {
                return Err(MediaFetchError::NotAnImage);
            },
        },
    };
    let base = strip_mime_params(mime);
    let chars = chars_of(base.as_str());
    if !starts_with(chars.as_slice(), "image/") {
        return Err(MediaFetchError::NotAnImage);
    }
    if size > MAX_IMAGE_BYTES {
        return Err(MediaFetchError::SizeExceeded { actual: size, limit: MAX_IMAGE_BYTES });
    }
    Ok(())
}

/// Whether an image attachment is to be downloaded: by its declared type, else by
/// its file's extension, and by its declared size.
pub fn image_precheck(url: &str, mime_hint: Option<&str>, filename: &str, size: u64) -> (r: Result<
    (),
    MediaFetchError,
>)
    ensures
        check_result(r) == image_request(
            url@,
            match mime_hint {
                Some(m) => Some(m@),
                None => None,
            },
            lowercase(after_last(filename@, '.')),
            size,
        ),
{
    let chars = chars_of(filename);
    let ext = string_of(last_part(chars.as_slice(), '.'));
    check_image_request(url, mime_hint, ext.as_str().to_lowercase().as_str(), size)
}

/// Whether a response is a usable image, given the lower-case form of its declared
/// type without parameters, its format, and whether it decodes if it is a GIF.
pub open spec fn image_response(
    declared: Option<Seq<char>>,
    body: Seq<u8>,
    gif_ok: bool,
) -> Result<(), FetchError> {
    if declared is Some && has_prefix(declared->0, "text/"@) {
        Err(FetchError::UnsupportedResponseType(declared))
    } else {
        match image_kind(body) {
            None => Err(FetchError::InvalidImageBody(hex_text(first_eight(body)))),
            Some(ImageKind::Gif) => if gif_ok {
                Ok(())
            } else {
                Err(FetchError::InvalidImageBody(hex_text(first_eight(body))))
            },
            Some(_) => Ok(()),
        }
    }
}

/// Whether a response is a usable image, given the lower-case form of its declared
/// type and whether it decodes if it is a GIF.
pub fn check_image_response(declared: Option<String>, body: &[u8], gif_ok: bool) -> (r: Result<
    (),
    MediaFetchError,
>)
    ensures
        check_result(r) == image_response(opt_text(declared), body@, gif_ok),
{
    if let Some(base) = declared {
        let chars = chars_of(base.as_str());
        if starts_with(chars.as_slice(), "text/") {
            return Err(MediaFetchError::UnsupportedResponseType { actual: Some(base) });
        }
    }
    match guess_kind(body) {
        None => Err(MediaFetchError::InvalidImageBody { magic_prefix_hex: hex_prefix(body) }),
        Some(kind) => {
            if kind == ImageKind::Gif && !gif_ok {
                Err(MediaFetchError::InvalidImageBody { magic_prefix_hex: hex_prefix(body) })
            } else {
                Ok(())
            }
        },
    }
}

/// Validate the HTTP response Content-Type and body magic bytes.
///
/// If Content-Type is present and explicitly text-typed (e.g. `text/html` from
/// Slack's auth redirect when `files:read` scope is missing), rejects immediately.
/// Generic types such as `application/octet-stream` and absent headers pass through
/// to the magic-byte check, which is the authoritative gate for image validity.
///
/// Content-Type is filtered with a block-list (`text/*`) rather than an allow-list
/// (`image/*`) because CDNs commonly serve any file type as `application/octet-stream`;
/// rejecting that header would silently break real downloads. The magic-byte check
/// examines the actual bytes regardless of what the server claims.
pub fn validate_image_response(content_type: Option<&str>, body: &[u8]) -> (r: Result<
    (),
    MediaFetchError,
>)
    ensures
        check_result(r) == image_response(
            match content_type {
                Some(ct) => Some(lowercase(mime_base(ct@))),
                None => None,
            },
            body@,
            gif_decodes(body@),
        ),
{
    let declared = match content_type {
        Some(ct) => {
            let base = strip_mime_params(ct);
            Some(base.as_str().to_lowercase())
        },
        None => None,
    };
    let gif_ok = if guess_kind(body) == Some(ImageKind::Gif) {
        gif_first_frame(body)
    } else {
        false
    };
    check_image_response(declared, body, gif_ok)
}

/// The digit `n`, below 64, of standard base64.
pub open spec fn base64_char(n: nat) -> char {
    if n < 26 {
        ('A' as u32 + n) as char
    } else if n < 52 {
        ('a' as u32 + (n - 26)) as char
    } else if n < 62 {
        ('0' as u32 + (n - 52)) as char
    } else if n == 62 {
        '+'
    } else {
        '/'
    }
}

/// Bytes in standard base64, with padding: four digits for each three bytes.
pub open spec fn base64_text(b: Seq<u8>) -> Seq<char>
    decreases b.len(),
{
    if b.len() == 0 {
        Seq::empty()
    } else if b.len() == 1 {
        seq![
            base64_char((b[0] / 4) as nat),
            base64_char((b[0] % 4 * 16) as nat),
            '=',
            '=',
        ]
    } else if b.len() == 2 {
        seq![
            base64_char((b[0] / 4) as nat),
            base64_char((b[0] % 4 * 16 + b[1] / 16) as nat),
            base64_char((b[1] % 16 * 4) as nat),
            '=',
        ]
    } else {
        seq![
            base64_char((b[0] / 4) as nat),
            base64_char((b[0] % 4 * 16 + b[1] / 16) as nat),
            base64_char((b[1] % 16 * 4 + b[2] / 64) as nat),
            base64_char((b[2] % 64) as nat),
        ] + base64_text(b.skip(3))
    }
}

/// `base64::engine::general_purpose::STANDARD.encode`: the standard alphabet with
/// padding. A slice holds at most `isize::MAX` bytes, so the encoded length fits.
#[verifier::external_body]
fn encode_base64(bytes: &[u8]) -> (out: String)
    ensures
        out@ == base64_text(bytes@),
{
    base64::Engine::encode(&base64::engine::general_purpose::STANDARD, bytes)
}

/// The block for a downloaded image, given what came of compressing it.
pub fn image_block(compressed: Result<(Vec<u8>, String), String>) -> (r: Result<
    ContentBlock,
    MediaFetchError,
>)
    ensures
        match (r, compressed) {
            (Ok(b), Ok((out, mime))) => b@ == (Block::Image {
                media_type: mime@,
                data: base64_text(out@),
            }),
            (Err(e), Err(cause)) => e@ == FetchError::ProcessingFailed(cause@),
            _ => false,
        },
{
    match compressed {
        Ok((out, mime)) => Ok(
            ContentBlock::Image { media_type: mime, data: encode_base64(out.as_slice()) },
        ),
        Err(e) => Err(MediaFetchError::ProcessingFailed(e)),
    }
}

/// The block for a downloaded image: it must be small enough and a supported image,
/// and is compressed before it is encoded.
pub fn encode_image(content_type: Option<&str>, body: &[u8]) -> (r: Result<
    ContentBlock,
    MediaFetchError,
>)
    ensures
        ({
            let declared = match content_type {
                Some(ct) => Some(lowercase(mime_base(ct@))),
                None => None,
            };
            if body@.len() > MAX_IMAGE_BYTES {
                r is Err && (r->Err_0)@ == FetchError::SizeExceeded(
                    body@.len() as u64,
                    MAX_IMAGE_BYTES,
                )
            } else {
                match image_response(declared, body@, gif_decodes(body@)) {
                    Err(e) => r is Err && (r->Err_0)@ == e,
                    Ok(()) => match r {
                        Ok(b) => if image_kind(body@) == Some(ImageKind::Gif) {
                            b@ == (Block::Image {
                                media_type: "image/gif"@,
                                data: base64_text(body@),
                            })
                        } else {
                            exists|out: Seq<u8>|
                                b@ == (Block::Image {
                                    media_type: "image/jpeg"@,
                                    data: #[trigger] base64_text(out),
                                }) && compressed_form(body@, out)
                        },
                        Err(e) => e@ is ProcessingFailed && image_kind(body@) != Some(
                            ImageKind::Gif,
                        ) && !compressible(decoded_size(body@)),
                    },
                }
            }
        }),
{
    let actual: u64 = body.len() as u64;
    if actual > MAX_IMAGE_BYTES {
        return Err(MediaFetchError::SizeExceeded { actual, limit: MAX_IMAGE_BYTES });
    }
    match validate_image_response(content_type, body) {
        Ok(()) => {},
        Err(e) => {
            return Err(e);
        },
    }
    image_block(resize_and_compress(body))
}

/// Whether an audio file of the given size is transcribed.
pub fn audio_within_limit(size: u64) -> (r: bool)
    ensures
        r == (size <= MAX_AUDIO_BYTES),
{
    size <= MAX_AUDIO_BYTES
}

/// Whether a text file of the given size is put into a prompt.
pub fn text_within_limit(size: u64) -> (r: bool)
    ensures
        r == (size <= MAX_TEXT_BYTES),
{
    size <= MAX_TEXT_BYTES
}

/// Bytes as text, with what is not valid UTF-8 replaced.
pub uninterp spec fn utf8_lossy(bytes: Seq<u8>) -> Seq<char>;

/// `String::from_utf8_lossy`: valid UTF-8 is decoded, invalid sequences are
/// replaced.
#[verifier::external_body]
fn lossy_text(bytes: &[u8]) -> (out: String)
    ensures
        out@ == utf8_lossy(bytes@),
        valid_utf8(bytes@) ==> out@ == decode_utf8(bytes@),
{
    String::from_utf8_lossy(bytes).into_owned()
}

/// A row of `n` backticks.
pub open spec fn backticks(n: nat) -> Seq<char> {
    Seq::new(n, |i: int| '`')
}

/// The shortest row of at least `n` backticks that does not occur in `text`.
pub open spec fn fence_from(text: Seq<char>, n: nat) -> Seq<char>
    decreases text.len() + 1 - n,
{
    if n > text.len() || !contains(text, backticks(n)) {
        backticks(n)
    } else {
        fence_from(text, n + 1)
    }
}

/// A file's text as it stands in a prompt.
pub open spec fn inlined_file(filename: Seq<char>, text: Seq<char>) -> Seq<char> {
    let fence = fence_from(text, 3);
    "[File: "@ + filename + "]\n"@ + fence + "\n"@ + text + "\n"@ + fence
}

proof fn lemma_long_fence(text: Seq<char>, n: nat)
    requires
        n > text.len(),
    ensures
        !contains(text, backticks(n)),
{
    crate::text::lemma_find_from(text, backticks(n), 0);
}

/// The block that puts a file's text into a prompt, fenced by more backticks than
/// the text has in a row.
pub fn inline_text(filename: &str, text: &str) -> (b: ContentBlock)
    ensures
        b@ == Block::Text(inlined_file(filename@, text@)),
{
    let chars = chars_of(text);
    let mut fence = "```".to_string();
    proof {
        reveal_strlit("```");
        assert("```"@ =~= backticks(3));
    }
    let ghost mut n: nat = 3;
    while has(chars.as_slice(), fence.as_str())
        invariant
            chars@ == text@,
            fence@ == backticks(n),
            fence_from(text@, 3) == fence_from(text@, n),
        decreases text@.len() + 1 - n,
    {
        proof {
            if n > text@.len() {
                lemma_long_fence(text@, n);
            }
        }
        fence.push('`');
        proof {
            assert(fence@ =~= backticks(n + 1));
            n = n + 1;
        }
    }
    let text = "[File: ".to_string().concat(filename).concat("]\n").concat(
        fence.as_str(),
    ).concat("\n").concat(text).concat("\n").concat(fence.as_str());
    ContentBlock::Text { text }
}

/// The block for a downloaded text file and its size in bytes; nothing where it is
/// too large.
pub fn inline_text_file(filename: &str, bytes: &[u8]) -> (r: Option<(ContentBlock, u64)>)
    ensures
        match r {
            Some((b, size)) => bytes@.len() <= MAX_TEXT_BYTES && size == bytes@.len() && b@
                == Block::Text(inlined_file(filename@, utf8_lossy(bytes@))),
            None => bytes@.len() > MAX_TEXT_BYTES,
        },
{
    let size: u64 = bytes.len() as u64;
    if !text_within_limit(size) {
        return None;
    }
    let text = lossy_text(bytes);
    Some((inline_text(filename, text.as_str()), size))
}

/// The fence around a file's text never occurs in the text, so nothing in the file
/// can close it.
pub proof fn law_fence_encloses_text(text: Seq<char>)
    ensures
        !contains(text, fence_from(text, 3)),
        fence_from(text, 3).len() >= 3,
{
    lemma_fence(text, 3);
}

proof fn lemma_fence(text: Seq<char>, n: nat)
    ensures
        !contains(text, fence_from(text, n)),
        fence_from(text, n).len() >= n,
    decreases text.len() + 1 - n,
{
    if n > text.len() {
        lemma_long_fence(text, n);
    } else if contains(text, backticks(n)) {
        lemma_fence(text, n + 1);
    }
}

/// A file that is text by its name is text whatever its declared type, and one whose
/// type is not declared is text only by its name.
pub proof fn law_declared_type_only_adds(
    mime: Seq<char>,
    extension: Option<Seq<char>>,
    name: Seq<char>,
)
    ensures
        !text_by_type(declared_mime(None)),
        text_by_type(declared_mime(None)) || text_by_name(extension, name) ==> text_by_type(mime)
            || text_by_name(extension, name),
{
    reveal_strlit("");
    reveal_strlit("text/");
    reveal_strlit("application/json");
    reveal_strlit("application/xml");
    reveal_strlit("application/javascript");
    reveal_strlit("application/x-yaml");
    reveal_strlit("application/x-sh");
    reveal_strlit("application/toml");
    reveal_strlit("application/x-toml");
    assert(mime_base(""@).len() == 0);
}

/// The parameters of a declared type do not matter.
pub proof fn law_type_parameters_do_not_matter(mime: Seq<char>, parameters: Seq<char>)
    ensures
        mime_base(mime + ";"@ + parameters) == mime_base(mime),
        text_by_type(mime + ";"@ + parameters) == text_by_type(mime),
{
    reveal_strlit(";");
    let s = mime + ";"@ + parameters;
    crate::text::lemma_find_char_from(mime, ';', 0);
    crate::text::lemma_find_char_from(s, ';', 0);
    assert(s[mime.len() as int] == ';');
    assert forall|i: int| 0 <= i < mime.len() implies s[i] == mime[i] by {}
    assert(before_first(s, ';') =~= before_first(mime, ';'));
}

/// Whether a file is text does not depend on the case in which the ASCII letters of its
/// name are written.
pub proof fn law_text_name_ignores_case(filename: Seq<char>)
    ensures
        text_name(ascii_raised(filename)) == text_name(filename),
        ascii_text_name(ascii_raised(filename)) == ascii_text_name(filename),
        is_ascii_text(filename) ==> is_ascii_text(ascii_raised(filename)),
{
    lemma_raised_lowered(filename);
    if is_ascii_text(filename) {
        assert forall|i: int| 0 <= i < filename.len() implies (
        #[trigger] ascii_raised(filename)[i] as u32) < 128 by {
            assert((filename[i] as u32) < 128);
        }
    }
}

/// An extension needs a dot: without one a file is text only by its whole name.
pub proof fn law_extension_needs_a_dot(filename: Seq<char>)
    requires
        crate::text::find_char_from(filename, '.', 0) is None,
    ensures
        extension_of(filename) is None,
        text_name(filename) == text_filename(lowercase(ascii_lowered(filename))),
        ascii_text_name(filename) == text_filename(ascii_lowered(filename)),
{
    lemma_lowered_find(filename, '.', 0);
}

/// A compressed image is at most the maximum wide and high.
pub proof fn law_compressed_within_maximum(raw: Seq<u8>, out: Seq<u8>)
    requires
        compressed_form(raw, out),
    ensures
        decoded_size(out) matches Some((w, h)) && w <= IMAGE_MAX_DIMENSION_PX && h
            <= IMAGE_MAX_DIMENSION_PX,
{
    let (w, h) = decoded_size(raw)->0;
    let longest = if w > h {
        w as nat
    } else {
        h as nat
    };
    if longest > IMAGE_MAX_DIMENSION_PX {
        law_scaled_within_maximum(w as nat, longest);
        law_scaled_within_maximum(h as nat, longest);
    }
}

/// A response that a server declares as text is never taken for an image, whatever
/// its bytes.
pub proof fn law_text_response_is_no_image(declared: Seq<char>, body: Seq<u8>, gif_ok: bool)
    requires
        has_prefix(declared, "text/"@),
    ensures
        image_response(Some(declared), body, gif_ok) is Err,
{
}

/// What is said of each error.
pub proof fn law_fetch_error_texts(s: Seq<char>, a: u64, b: u64)
    ensures
        fetch_error_text(FetchError::NotAnImage) == "not an image attachment"@,
        fetch_error_text(FetchError::UnsupportedResponseType(Some(s)))
            == "server returned unexpected content type (actual: "@ + s + ")"@,
        fetch_error_text(FetchError::UnsupportedResponseType(None))
            == "server returned unexpected content type (actual: "@ + "none"@ + ")"@,
        fetch_error_text(FetchError::InvalidImageBody(s))
            == "response body is not a valid image (first 8 bytes: "@ + s + ")"@,
        fetch_error_text(FetchError::SizeExceeded(a, b)) == "file size "@ + decimal(a as nat)
            + " exceeds limit "@ + decimal(b as nat),
        fetch_error_text(FetchError::Network(s)) == "network error: "@ + s,
        fetch_error_text(FetchError::HttpStatus(s)) == "HTTP "@ + s,
        fetch_error_text(FetchError::ProcessingFailed(s)) == "image processing failed: "@ + s,
{
}

/// A type without parameters is what stands before the first semicolon, without the white
/// space around it.
pub proof fn law_type_without_parameters(base: Seq<char>, parameters: Seq<char>)
    requires
        !base.contains(';'),
    ensures
        mime_base(base) == trim(base),
        mime_base(base.push(';') + parameters) == trim(base),
{
    let s = base.push(';') + parameters;
    let n = base.len() as int;
    crate::text::lemma_find_char_from(base, ';', 0);
    crate::text::lemma_find_char_from(s, ';', 0);
    if let Some(k) = crate::text::find_char_from(base, ';', 0) {
        assert(base.contains(base[k]));
    }
    assert(s[n] == ';');
    assert forall|j: int| 0 <= j < n implies s[j] != ';' by {
        assert(s[j] == base[j]);
        assert(base.contains(base[j]));
    }
    assert(crate::text::find_char_from(s, ';', 0) == Some(n));
    assert(s.take(n) =~= base);
}

/// An image is downloaded exactly where it has an address, is said to be an image, by its
/// type or else by its file's extension, and is said to be no larger than the limit.
pub proof fn law_which_images_are_downloaded(
    url: Seq<char>,
    hint: Option<Seq<char>>,
    ext: Seq<char>,
    size: u64,
)
    ensures
        ({
            let by_name = ext == "png"@ || ext == "jpg"@ || ext == "jpeg"@ || ext == "gif"@ || ext
                == "webp"@;
            let image = match hint {
                Some(m) => has_prefix(mime_base(m), "image/"@),
                None => by_name,
            };
            let r = image_request(url, hint, ext, size);
            &&& url.len() == 0 || !image ==> r == Err::<(), FetchError>(FetchError::NotAnImage)
            &&& url.len() > 0 && image && size > 10_485_760 ==> r == Err::<(), FetchError>(
                FetchError::SizeExceeded(size, 10_485_760),
            )
            &&& url.len() > 0 && image && size <= 10_485_760 ==> r == Ok::<(), FetchError>(())
        }),
{
    reveal_strlit("image/");
    reveal_strlit("image/png");
    reveal_strlit("image/jpeg");
    reveal_strlit("image/gif");
    reveal_strlit("image/webp");
    lemma_image_type("image/png"@);
    lemma_image_type("image/jpeg"@);
    lemma_image_type("image/gif"@);
    lemma_image_type("image/webp"@);
}

proof fn lemma_image_type(m: Seq<char>)
    requires
        m.len() >= 6,
        m[0] == 'i' && m[1] == 'm' && m[2] == 'a' && m[3] == 'g' && m[4] == 'e' && m[5] == '/',
        forall|i: int| 0 <= i < m.len() ==> #[trigger] m[i] != ';',
        !crate::text::is_white(m.last()),
    ensures
        has_prefix(mime_base(m), "image/"@),
{
    reveal_strlit("image/");
    crate::text::lemma_find_char_from(m, ';', 0);
    assert(before_first(m, ';') == m);
    assert(trim(m) == m);
    assert(m.subrange(0, 6) =~= "image/"@);
}

/// A response that is declared as text is refused with its type; one whose bytes are no
/// supported image, or a GIF that does not decode, is refused with its first bytes; all
/// other images are accepted, whatever type is declared.
pub proof fn law_which_responses_are_images(
    declared: Option<Seq<char>>,
    body: Seq<u8>,
    gif_ok: bool,
)
    ensures
        ({
            let text = declared is Some && has_prefix(declared->0, "text/"@);
            let kind = image_kind(body);
            let bad = kind is None || (kind == Some(ImageKind::Gif) && !gif_ok);
            let r = image_response(declared, body, gif_ok);
            &&& text ==> r == Err::<(), FetchError>(
                FetchError::UnsupportedResponseType(declared),
            )
            &&& !text && bad ==> r == Err::<(), FetchError>(
                FetchError::InvalidImageBody(
                    hex_text(
                        if body.len() > 8 {
                            body.take(8)
                        } else {
                            body
                        },
                    ),
                ),
            )
            &&& !text && !bad ==> r == Ok::<(), FetchError>(())
        }),
{
}

/// An image is reduced exactly where one of its sides is larger than the maximum; then
/// both are scaled by the same measure, that of the larger one.
pub proof fn law_which_images_are_reduced(w: u32, h: u32)
    ensures
        reduced_size(w, h) is Some <==> w > 1200 || h > 1200,
        (w > 1200 || h > 1200) && w >= h ==> reduced_size(w, h) == Some(
            (scaled(w as nat, w as nat), scaled(h as nat, w as nat)),
        ),
        (w > 1200 || h > 1200) && w <= h ==> reduced_size(w, h) == Some(
            (scaled(w as nat, h as nat), scaled(h as nat, h as nat)),
        ),
        IMAGE_MAX_DIMENSION_PX == 1200 && IMAGE_JPEG_QUALITY == 75,
        MAX_IMAGE_BYTES == 10 * 1024 * 1024 && MAX_AUDIO_BYTES == 25 * 1024 * 1024,
        MAX_TEXT_BYTES == 512 * 1024,
{
}

/// A file in a prompt: its name, then its text between two equal fences.
pub proof fn law_file_in_prompt(filename: Seq<char>, text: Seq<char>)
    ensures
        ({
            let fence = fence_from(text, 3);
            inlined_file(filename, text) == "[File: "@ + filename + "]\n"@ + fence + "\n"@ + text
                + "\n"@ + fence
        }),
        forall|i: int|
            0 <= i < fence_from(text, 3).len() ==> #[trigger] fence_from(text, 3)[i] == '`',
        !contains(text, "```"@) ==> fence_from(text, 3) == "```"@,
{
    reveal_strlit("```");
    assert("```"@ =~= backticks(3));
    lemma_fence_shape(text, 3);
    if text.len() < 3 {
        lemma_long_fence(text, 3);
    }
}

proof fn lemma_fence_shape(text: Seq<char>, n: nat)
    ensures
        fence_from(text, n) == backticks(fence_from(text, n).len()),
        forall|k: nat| n <= k < fence_from(text, n).len() ==> contains(text, #[trigger] backticks(k)),
    decreases text.len() + 1 - n,
{
    if n > text.len() || !contains(text, backticks(n)) {
        assert(fence_from(text, n) == backticks(n));
        assert(backticks(n).len() == n);
    } else {
        lemma_fence_shape(text, n + 1);
    }
}

/// The fence is no longer than it has to be: every shorter one occurs in the text.
pub proof fn law_fence_is_shortest(text: Seq<char>, k: nat)
    requires
        3 <= k < fence_from(text, 3).len(),
    ensures
        contains(text, Seq::new(k, |i: int| '`')),
{
    lemma_fence_shape(text, 3);
    assert(backticks(k) =~= Seq::new(k, |i: int| '`'));
}

/// Which files are text by name or type.
pub proof fn law_text_files(s: Seq<char>)
    ensures
        text_extension(s) <==> {
            ||| s == "txt"@ || s == "csv"@ || s == "log"@ || s == "md"@ || s == "json"@ || s
                == "jsonl"@ || s == "yaml"@ || s == "yml"@ || s == "toml"@ || s == "xml"@
            ||| s == "rs"@ || s == "py"@ || s == "js"@ || s == "ts"@ || s == "jsx"@ || s == "tsx"@
                || s == "go"@ || s == "java"@ || s == "c"@ || s == "cpp"@ || s == "h"@ || s
                == "hpp"@ || s == "rb"@
            ||| s == "sh"@ || s == "bash"@ || s == "zsh"@ || s == "fish"@ || s == "ps1"@ || s
                == "bat"@ || s == "sql"@ || s == "html"@ || s == "css"@ || s == "scss"@ || s
                == "less"@ || s == "ini"@ || s == "cfg"@ || s == "conf"@ || s == "env"@
        },
        text_filename(s) <==> {
            ||| s == "dockerfile"@ || s == "makefile"@ || s == "justfile"@ || s == "rakefile"@ || s
                == "gemfile"@ || s == "procfile"@ || s == "vagrantfile"@
            ||| s == ".gitignore"@ || s == ".dockerignore"@ || s == ".editorconfig"@
        },
        text_mime(s) <==> {
            ||| s == "application/json"@ || s == "application/xml"@ || s
                == "application/javascript"@ || s == "application/x-yaml"@
            ||| s == "application/x-sh"@ || s == "application/toml"@ || s == "application/x-toml"@
        },
        video_extension(s) <==> s == "mp4"@ || s == "mov"@ || s == "m4v"@ || s == "webm"@ || s
            == "mkv"@ || s == "avi"@,
        text_by_type(s) <==> has_prefix(mime_base(s), "text/"@) || text_mime(mime_base(s)),
{
}

/// Every image that decodes and has a pixel can be compressed.
pub proof fn law_which_images_can_be_compressed(w: u32, h: u32)
    ensures
        compressible(Some((w, h))) <==> w != 0 && h != 0,
        !compressible(None),
{
}

} // verus!
