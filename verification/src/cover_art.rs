//! Album-art handling: `data:` URLs, MIME normalization, thumb naming and
//! the size-bounded JPEG re-encoding loop.

use vstd::prelude::*;

use crate::paths::{
    join_path, joined, path_file_name, path_file_name_range, path_parent_len, path_parent_prefix,
};
use crate::b64::{b64_encode, decode_standard, encode_standard, lemma_b64_encode_injective};
use crate::text::{
    ascii_lower, ascii_lower_chars, before_char, chars_eq, chars_of, find_char, index_of,
    last_char_before, last_index_of, lemma_index_of, push_char, push_str, starts_with, starts_with_chars, string_of,
    string_of_range, trim, trim_str,
};

verus! {

/// Directory (under the cover root) holding UI thumbs.
pub const THUMBS_DIR: &'static str = "thumbs";

/// Directory (under the cover root) holding media-session art.
pub const MEDIA_DIR: &'static str = "media";

/// Longest edge of a UI thumb, in pixels.
pub const THUMB_MAX_EDGE: u32 = 96;

/// Size budget of a UI thumb, in bytes.
pub const THUMB_MAX_BYTES: usize = 12 * 1024;

/// First JPEG quality tried for a UI thumb.
pub const THUMB_JPEG_QUALITY: u8 = 70;

/// Longest edge of media-session art, in pixels.
pub const MEDIA_MAX_EDGE: u32 = 512;

/// Size budget of media-session art, in bytes.
pub const MEDIA_MAX_BYTES: usize = 180 * 1024;

/// First JPEG quality tried for media-session art.
pub const MEDIA_JPEG_QUALITY: u8 = 85;

/// Lowest JPEG quality the re-encoding loop goes down to.
pub const MIN_JPEG_QUALITY: u8 = 35;

/// Cover art extracted from an audio file or downloaded from the network.
pub struct ExtractedCoverArt {
    pub data: Vec<u8>,
}

/// Result of writing (or reusing) a shared album-art thumb.
pub struct SavedAlbumArt {
    pub id: String,
    pub thumb_abs_path: String,
    pub relative_path: String,
    pub mime: String,
    pub byte_size: i64,
}

// ── data: URLs ────────────────────────────────────────────────────────────

/// `data:`
pub open spec fn data_scheme() -> Seq<char> {
    seq!['d', 'a', 't', 'a', ':']
}

/// `;base64,`
pub open spec fn base64_marker() -> Seq<char> {
    seq![';', 'b', 'a', 's', 'e', '6', '4', ',']
}

/// `data:{mime};base64,{base64 of data}`.
pub open spec fn data_url(mime: Seq<char>, data: Seq<u8>) -> Seq<char> {
    data_scheme() + mime + base64_marker() + b64_encode(data)
}

/// Build a data URL from raw image bytes without resizing.
pub fn to_data_url(mime: &str, data: &[u8]) -> (r: String)
    ensures
        r@ == data_url(mime@, data@),
{
    let mut out = String::new();
    push_char(&mut out, 'd');
    push_char(&mut out, 'a');
    push_char(&mut out, 't');
    push_char(&mut out, 'a');
    push_char(&mut out, ':');
    push_str(&mut out, mime);
    push_char(&mut out, ';');
    push_char(&mut out, 'b');
    push_char(&mut out, 'a');
    push_char(&mut out, 's');
    push_char(&mut out, 'e');
    push_char(&mut out, '6');
    push_char(&mut out, '4');
    push_char(&mut out, ',');
    let encoded = encode_standard(data);
    push_str(&mut out, encoded.as_str());
    out
}

/// The MIME type named by a data-URL header (the part before the first `,`):
/// after `data:`, up to the first `;`; `image/jpeg` when the header does not
/// start with `data:`.
pub open spec fn header_mime(header: Seq<char>) -> Seq<char> {
    if starts_with(header, data_scheme()) {
        before_char(header.skip(5), ';')
    } else {
        "image/jpeg"@
    }
}

/// The message for a URL with no `,`.
pub open spec fn invalid_data_url_msg() -> Seq<char> {
    "Invalid data URL"@
}

/// The prefix of the message for an undecodable payload.
pub open spec fn decode_failed_prefix() -> Seq<char> {
    "Failed to decode data URL: "@
}

/// Decode a `data:` URL into raw bytes + MIME type. The header and payload
/// are split at the first `,`; the payload must be padded standard base64.
pub fn decode_data_url(data_url: &str) -> (r: Result<(Vec<u8>, String), String>)
    ensures
        index_of(data_url@, ',') is None ==> (r matches Err(m) && m@ == invalid_data_url_msg()),
        index_of(data_url@, ',') matches Some(i) ==> {
            let header = data_url@.take(i as int);
            let payload = data_url@.skip(i as int + 1);
            &&& r matches Ok((bytes, mime)) ==> b64_encode(bytes@) == payload && mime@ == header_mime(header)
            &&& r matches Err(m) ==> (forall|b: Seq<u8>| b64_encode(b) != payload) && decode_failed_prefix().is_prefix_of(m@)
            &&& (exists|b: Seq<u8>| b64_encode(b) == payload) ==> r is Ok
        },
{
    let cs = chars_of(data_url);
    let comma = match find_char(cs.as_slice(), ',') {
        Some(i) => i,
        None => {
            return Err(String::from_str("Invalid data URL"));
        },
    };
    assert(comma < cs.len());
    let header = vstd::slice::slice_subrange(cs.as_slice(), 0, comma);
    let payload = string_of_range(cs.as_slice(), comma + 1, cs.len());
    let scheme = chars_of("data:");
    proof {
        reveal_strlit("data:");
    }
    let mime = if starts_with_chars(header, scheme.as_slice()) {
        assert(scheme@ == data_scheme());
        let rest = vstd::slice::slice_subrange(header, 5, header.len());
        match find_char(rest, ';') {
            Some(j) => string_of_range(rest, 0, j),
            None => string_of(rest),
        }
    } else {
        assert(scheme@ == data_scheme());
        String::from_str("image/jpeg")
    };
    proof {
        assert(header@ == data_url@.take(comma as int));
        assert(payload@ == data_url@.skip(comma + 1));
    }
    match decode_standard(payload.as_str()) {
        Ok(bytes) => Ok((bytes, mime)),
        Err(e) => {
            let mut msg = String::from_str("Failed to decode data URL: ");
            let ghost p = msg@;
            push_str(&mut msg, e.as_str());
            assert(msg@.take(p.len() as int) == p);
            Err(msg)
        },
    }
}

/// Decoding what `to_data_url` built gives back its bytes and MIME type,
/// when the MIME type holds neither `,` nor `;`: the first `,` is the one
/// that ends `;base64,`, the header names the MIME type, the payload is the
/// base64 of the bytes, and no other bytes have that base64.
pub proof fn lemma_data_url_roundtrip(mime: Seq<char>, data: Seq<u8>)
    requires
        forall|k: int| 0 <= k < mime.len() ==> #[trigger] mime[k] != ',' && mime[k] != ';',
    ensures
        ({
            let u = data_url(mime, data);
            let i = mime.len() + 12;
            &&& index_of(u, ',') == Some(i)
            &&& header_mime(u.take(i as int)) == mime
            &&& u.skip(i as int + 1) == b64_encode(data)
            &&& forall|b: Seq<u8>| #[trigger] b64_encode(b) == u.skip(i as int + 1) ==> b == data
        }),
{
    let u = data_url(mime, data);
    let i = mime.len() + 12;
    let header = data_scheme() + mime + seq![';', 'b', 'a', 's', 'e', '6', '4'];
    assert(u =~= header + seq![','] + b64_encode(data));
    assert forall|k: int| 0 <= k < i implies #[trigger] u[k] != ',' by {
        if k >= 5 && k < 5 + mime.len() {
            assert(u[k] == mime[k - 5]);
        }
    }
    lemma_index_of(u, ',', i as int);
    assert(u.take(i as int) =~= header);
    assert(header.take(5) =~= data_scheme());
    let rest = header.skip(5);
    assert(rest =~= mime + seq![';', 'b', 'a', 's', 'e', '6', '4']);
    assert forall|k: int| 0 <= k < mime.len() implies #[trigger] rest[k] != ';' by {
        assert(rest[k] == mime[k]);
    }
    lemma_index_of(rest, ';', mime.len() as int);
    assert(rest.take(mime.len() as int) =~= mime);
    assert(u.skip(i as int + 1) =~= b64_encode(data));
    assert forall|b: Seq<u8>| #[trigger] b64_encode(b) == u.skip(i as int + 1) implies b == data by {
        lemma_b64_encode_injective(b, data);
    }
}

// ── MIME types ────────────────────────────────────────────────────────────

/// The canonical MIME type for cover art: `image/jpg` becomes `image/jpeg`,
/// other `image/*` types are kept (lower-cased), anything else is treated as
/// JPEG.
pub open spec fn normalized_mime(mime: Seq<char>) -> Seq<char> {
    let m = ascii_lower(mime);
    if m == "image/jpg"@ || m == "image/jpeg"@ {
        "image/jpeg"@
    } else if starts_with(m, "image/"@) {
        m
    } else {
        "image/jpeg"@
    }
}

/// Normalize a cover-art MIME type (ASCII case-insensitive).
pub fn normalize_mime(mime: &str) -> (r: String)
    ensures
        r@ == normalized_mime(mime@),
{
    let m = ascii_lower_chars(chars_of(mime).as_slice());
    let jpg = chars_of("image/jpg");
    let jpeg = chars_of("image/jpeg");
    let image = chars_of("image/");
    if chars_eq(m.as_slice(), jpg.as_slice()) || chars_eq(m.as_slice(), jpeg.as_slice()) {
        String::from_str("image/jpeg")
    } else if starts_with_chars(m.as_slice(), image.as_slice()) {
        string_of(m.as_slice())
    } else {
        String::from_str("image/jpeg")
    }
}

// ── Thumb naming ──────────────────────────────────────────────────────────

/// `thumbs/{id}.jpg`: where a thumb lives relative to the cover root.
pub open spec fn thumb_relative(id: Seq<char>) -> Seq<char> {
    THUMBS_DIR@ + seq!['/'] + id + seq!['.', 'j', 'p', 'g']
}

/// Path of a thumb relative to the cover root.
pub fn thumb_relative_path(id: &str) -> (r: String)
    ensures
        r@ == thumb_relative(id@),
{
    let mut out = String::from_str(THUMBS_DIR);
    push_char(&mut out, '/');
    push_str(&mut out, id);
    push_char(&mut out, '.');
    push_char(&mut out, 'j');
    push_char(&mut out, 'p');
    push_char(&mut out, 'g');
    out
}

/// Lower-case hexadecimal digit for `v < 16`.
pub open spec fn hex_digit(v: int) -> char {
    if v < 10 {
        (48 + v) as char
    } else {
        (87 + v) as char
    }
}

/// Lower-case hexadecimal form of bytes, two digits per byte.
pub open spec fn hex_lower(b: Seq<u8>) -> Seq<char>
    decreases b.len(),
{
    if b.len() == 0 {
        Seq::empty()
    } else {
        hex_lower(b.drop_last()) + seq![hex_digit(b.last() as int / 16), hex_digit(b.last() as int % 16)]
    }
}

/// The hex digit character for `v < 16`.
fn hex_digit_of(v: u8) -> (r: char)
    requires
        v < 16,
    ensures
        r == hex_digit(v as int),
{
    if v < 10 {
        let c: u8 = 48 + v;
        c as char
    } else {
        let c: u8 = 87 + v;
        c as char
    }
}

/// `format!("{:x}", bytes)` for a digest: lower-case hex.
pub fn hex_string(bytes: &[u8]) -> (r: String)
    ensures
        r@ == hex_lower(bytes@),
{
    let mut out = String::new();
    let mut i: usize = 0;
    while i < bytes.len()
        invariant
            i <= bytes@.len(),
            out@ == hex_lower(bytes@.take(i as int)),
        decreases bytes.len() - i,
    {
        let b = bytes[i];
        assert(bytes@.take((i + 1) as int).drop_last() == bytes@.take(i as int));
        push_char(&mut out, hex_digit_of(b / 16));
        push_char(&mut out, hex_digit_of(b % 16));
        i += 1;
    }
    assert(bytes@.take(bytes@.len() as int) == bytes@);
    out
}

/// What SHA-256 returns for `data` (32 bytes).
pub uninterp spec fn sha256(data: Seq<u8>) -> Seq<u8>;

/// `sha2::Sha256` over `data`: the 32-byte digest, named by `sha256`.
#[verifier::external_body]
fn sha256_digest(data: &[u8]) -> (r: Vec<u8>)
    ensures
        r@ == sha256(data@),
        r@.len() == 32,
{
    <sha2::Sha256 as sha2::Digest>::digest(data).to_vec()
}

/// Lower-case hex SHA-256 of `data`: the content id of a thumb.
pub fn hex_sha256(data: &[u8]) -> (r: String)
    ensures
        r@ == hex_lower(sha256(data@)),
        r@.len() == 64,
{
    let digest = sha256_digest(data);
    proof {
        lemma_hex_len(digest@);
    }
    hex_string(digest.as_slice())
}

/// Two hex digits per byte.
pub proof fn lemma_hex_len(b: Seq<u8>)
    ensures
        hex_lower(b).len() == 2 * b.len(),
    decreases b.len(),
{
    if b.len() > 0 {
        lemma_hex_len(b.drop_last());
    }
}

/// The 16-hex-digit content hash used to name imported files.
pub fn short_content_hash(data: &[u8]) -> (r: String)
    ensures
        r@ == hex_lower(sha256(data@)).take(16),
{
    let full = hex_sha256(data);
    let cs = chars_of(full.as_str());
    string_of_range(cs.as_slice(), 0, 16)
}

// ── Size-bounded JPEG re-encoding ────────────────────────────────────────

/// The next (lower) quality to try.
pub open spec fn next_quality(q: u8) -> u8 {
    if q < 15 + MIN_JPEG_QUALITY {
        MIN_JPEG_QUALITY
    } else {
        (q - 15) as u8
    }
}

/// Quality after a failed attempt at `q`: 15 lower, never below the floor.
pub fn lower_quality(q: u8) -> (r: u8)
    ensures
        r == next_quality(q),
{
    if q < 15 + MIN_JPEG_QUALITY {
        MIN_JPEG_QUALITY
    } else {
        q - 15
    }
}

/// Whether an encoding of `len` bytes at quality `q` is the one to keep: it
/// fits the budget, or the quality cannot go lower.
pub fn accept_encoding(len: usize, max_bytes: usize, q: u8) -> (r: bool)
    ensures
        r == (len <= max_bytes || q <= MIN_JPEG_QUALITY),
{
    len <= max_bytes || q <= MIN_JPEG_QUALITY
}

/// Why an image could not be turned into a sized JPEG, with the `image`
/// crate's message.
pub enum JpegFailure {
    /// The bytes did not decode as an image.
    Load(String),
    /// The JPEG encoder refused the resized pixels.
    Encode(String),
}

/// Whether `image::load_from_memory` decodes `data`: the format is guessed
/// from the bytes and decoded by the formats this build enables, so the
/// outcome depends on the bytes alone.
pub uninterp spec fn image_decodes(data: Seq<u8>) -> bool;

/// The JPEG the `image` crate makes of `data` scaled to fit
/// `max_edge` x `max_edge` at `quality`, or `None` when decoding or encoding
/// fails. Decoding, `DynamicImage::thumbnail` and `JpegEncoder` are all
/// deterministic, so the bytes depend on the three arguments alone.
pub uninterp spec fn sized_jpeg(data: Seq<u8>, max_edge: u32, quality: u8) -> Option<Seq<u8>>;

/// The `image` crate's error text when making the JPEG of `sized_jpeg`
/// fails: the `Display` of the decoding or encoding error, which depends on
/// the three arguments alone.
pub uninterp spec fn sized_jpeg_error(data: Seq<u8>, max_edge: u32, quality: u8) -> Seq<char>;

/// `image::load_from_memory`, `DynamicImage::thumbnail(max_edge, max_edge)`
/// and `JpegEncoder::new_with_quality(.., quality).encode` on the RGB8
/// pixels: the encoded bytes, named by `sized_jpeg`. A load failure happens
/// exactly when `image_decodes` fails; the error's text is named by
/// `sized_jpeg_error`.
#[verifier::external_body]
fn encode_sized_jpeg(data: &[u8], max_edge: u32, quality: u8) -> (r: Result<Vec<u8>, JpegFailure>)
    ensures
        (r matches Err(JpegFailure::Load(_))) <==> !image_decodes(data@),
        r is Ok <==> sized_jpeg(data@, max_edge, quality) is Some,
        r matches Ok(b) ==> sized_jpeg(data@, max_edge, quality) == Some(b@),
        r matches Err(JpegFailure::Load(m)) ==> m@ == sized_jpeg_error(data@, max_edge, quality),
        r matches Err(JpegFailure::Encode(m)) ==> m@ == sized_jpeg_error(data@, max_edge, quality),
{
    let img = match image::load_from_memory(data) {
        Ok(i) => i,
        Err(e) => return Err(JpegFailure::Load(format!("{e}"))),
    };
    let rgb = img.thumbnail(max_edge, max_edge).to_rgb8();
    let mut buf = Vec::new();
    let mut encoder = image::codecs::jpeg::JpegEncoder::new_with_quality(&mut buf, quality);
    match encoder.encode(rgb.as_raw(), rgb.width(), rgb.height(), image::ExtendedColorType::Rgb8) {
        Ok(()) => Ok(buf),
        Err(e) => Err(JpegFailure::Encode(format!("{e}"))),
    }
}

/// The JPEG `make_sized_jpeg` settles on from quality `q` down: the first
/// encoding that fits `max_bytes`, or the one at the lowest quality; `None`
/// when an attempted encoding fails.
pub open spec fn chosen_jpeg(data: Seq<u8>, max_edge: u32, max_bytes: nat, q: u8) -> Option<Seq<u8>>
    decreases q,
{
    match sized_jpeg(data, max_edge, q) {
        None => None,
        Some(b) => if b.len() <= max_bytes || q <= MIN_JPEG_QUALITY {
            Some(b)
        } else {
            chosen_jpeg(data, max_edge, max_bytes, next_quality(q))
        },
    }
}

/// The error text for a JPEG that could not be made of `data`: it starts
/// with `Failed to load image: ` when the bytes do not decode, and with
/// `Failed to encode cover art: ` when they do.
pub open spec fn jpeg_failure_text(m: Seq<char>, data: Seq<u8>) -> bool {
    if image_decodes(data) {
        "Failed to encode cover art: "@.is_prefix_of(m)
    } else {
        "Failed to load image: "@.is_prefix_of(m)
    }
}

/// The error `make_sized_jpeg` reports from quality `q` down: at the first
/// attempt that fails, `Failed to load image: ` (bytes that do not decode)
/// or `Failed to encode cover art: `, then the crate's text.
pub open spec fn jpeg_failure_message(data: Seq<u8>, max_edge: u32, max_bytes: nat, q: u8) -> Seq<char>
    decreases q,
{
    match sized_jpeg(data, max_edge, q) {
        None => (if image_decodes(data) {
            "Failed to encode cover art: "@
        } else {
            "Failed to load image: "@
        }) + sized_jpeg_error(data, max_edge, q),
        Some(b) => if b.len() <= max_bytes || q <= MIN_JPEG_QUALITY {
            Seq::empty()
        } else {
            jpeg_failure_message(data, max_edge, max_bytes, next_quality(q))
        },
    }
}

/// What `make_sized_jpeg` answers: the chosen JPEG, or an error whose text
/// starts with `Failed to load image: ` exactly when the bytes do not decode
/// and with `Failed to encode cover art: ` when an encoding fails.
pub open spec fn sized_jpeg_outcome(r: Result<Vec<u8>, String>, data: Seq<u8>, max_edge: u32, max_bytes: nat, q: u8) -> bool {
    match chosen_jpeg(data, max_edge, max_bytes, q) {
        Some(b) => r matches Ok(v) && v@ == b,
        None => r matches Err(m) && jpeg_failure_text(m@, data) && m@ == jpeg_failure_message(
            data,
            max_edge,
            max_bytes,
            q,
        ),
    }
}

/// `prefix` followed by `detail`.
fn prefixed(prefix: &str, detail: String) -> (r: String)
    ensures
        r@ == prefix@ + detail@,
        prefix@.is_prefix_of(r@),
{
    let mut msg = String::from_str(prefix);
    push_str(&mut msg, detail.as_str());
    assert(msg@.take(prefix@.len() as int) =~= prefix@);
    msg
}

/// Resize to fit `max_edge` and encode as JPEG, starting at `start_quality`
/// and lowering it 15 at a time (not below 35) until the result fits
/// `max_bytes`; the attempt at the lowest quality is kept whatever its size.
pub fn make_sized_jpeg(data: &[u8], max_edge: u32, max_bytes: usize, start_quality: u8) -> (r:
    Result<Vec<u8>, String>)
    ensures
        sized_jpeg_outcome(r, data@, max_edge, max_bytes as nat, start_quality),
        r is Ok ==> image_decodes(data@),
{
    let mut quality = start_quality;
    loop
        invariant
            chosen_jpeg(data@, max_edge, max_bytes as nat, quality) == chosen_jpeg(
                data@,
                max_edge,
                max_bytes as nat,
                start_quality,
            ),
            jpeg_failure_message(data@, max_edge, max_bytes as nat, quality) == jpeg_failure_message(
                data@,
                max_edge,
                max_bytes as nat,
                start_quality,
            ),
        decreases quality,
    {
        match encode_sized_jpeg(data, max_edge, quality) {
            Ok(buf) => {
                if accept_encoding(buf.len(), max_bytes, quality) {
                    return Ok(buf);
                }
                quality = lower_quality(quality);
            },
            Err(JpegFailure::Load(e)) => {
                return Err(prefixed("Failed to load image: ", e));
            },
            Err(JpegFailure::Encode(e)) => {
                return Err(prefixed("Failed to encode cover art: ", e));
            },
        }
    }
}

/// A tiny JPEG thumb of `data`: `make_sized_jpeg` at the thumb's edge,
/// budget and starting quality.
pub fn make_thumb_jpeg(data: &[u8]) -> (r: Result<Vec<u8>, String>)
    ensures
        sized_jpeg_outcome(r, data@, THUMB_MAX_EDGE, THUMB_MAX_BYTES as nat, THUMB_JPEG_QUALITY),
{
    make_sized_jpeg(data, THUMB_MAX_EDGE, THUMB_MAX_BYTES, THUMB_JPEG_QUALITY)
}

/// The thumb `make_thumb_jpeg` makes of `data`, if any.
pub open spec fn thumb_jpeg(data: Seq<u8>) -> Option<Seq<u8>> {
    chosen_jpeg(data, THUMB_MAX_EDGE, THUMB_MAX_BYTES as nat, THUMB_JPEG_QUALITY)
}

/// Encode a tiny thumb of `data` as a JPEG data URL (not persisted). The
/// MIME type the caller reports is not used: the thumb is always a JPEG.
pub fn encode_cover_data_url(data: Vec<u8>, mime: &str) -> (r: Result<String, String>)
    ensures
        match thumb_jpeg(data@) {
            Some(b) => r matches Ok(u) && u@ == data_url("image/jpeg"@, b),
            None => r matches Err(m) && jpeg_failure_text(m@, data@) && m@ == jpeg_failure_message(
                data@,
                THUMB_MAX_EDGE,
                THUMB_MAX_BYTES as nat,
                THUMB_JPEG_QUALITY,
            ),
        },
{
    let thumb = make_thumb_jpeg(data.as_slice())?;
    let url = to_data_url("image/jpeg", thumb.as_slice());
    assert(url@ == data_url("image/jpeg"@, thumb@));
    Ok(url)
}

// ── Shared album-art files ────────────────────────────────────────────────

/// The media-session image `make_sized_jpeg` makes of `data`, if any.
pub open spec fn media_jpeg(data: Seq<u8>) -> Option<Seq<u8>> {
    chosen_jpeg(data, MEDIA_MAX_EDGE, MEDIA_MAX_BYTES as nat, MEDIA_JPEG_QUALITY)
}

/// `{id}.jpg`.
pub open spec fn jpg_name(id: Seq<char>) -> Seq<char> {
    id + seq!['.', 'j', 'p', 'g']
}

/// The files one cover becomes below the cover root: the thumb and the
/// media-session image, both named by the content id of the thumb.
pub struct AlbumArtFiles {
    /// The record the library keeps for the thumb.
    pub art: SavedAlbumArt,
    /// The thumb's JPEG bytes.
    pub thumb: Vec<u8>,
    /// The media-session JPEG bytes.
    pub media: Vec<u8>,
    /// Where the media-session image goes.
    pub media_abs_path: String,
}

/// What `album_art_files` builds from a thumb `t` and media image `m` below
/// `root`.
pub open spec fn album_art_files_of(f: AlbumArtFiles, root: Seq<char>, t: Seq<u8>, m: Seq<u8>) -> bool {
    let id = hex_lower(sha256(t));
    &&& f.thumb@ == t
    &&& f.media@ == m
    &&& f.art.id@ == id
    &&& f.art.relative_path@ == thumb_relative(id)
    &&& f.art.thumb_abs_path@ == joined(joined(root, THUMBS_DIR@), jpg_name(id))
    &&& f.media_abs_path@ == joined(joined(root, MEDIA_DIR@), jpg_name(id))
    &&& f.art.mime@ == "image/jpeg"@
    &&& f.art.byte_size == t.len() as i64
}

/// Make the shared album-art files for cover bytes below `cover_root`: a
/// tiny JPEG thumb and a 512px media-session JPEG, deduplicated by the hex
/// SHA-256 of the thumb (`thumbs/{id}.jpg`, `media/{id}.jpg`). Fails as
/// `make_sized_jpeg` does, thumb first.
pub fn album_art_files(cover_root: &str, data: &[u8]) -> (r: Result<AlbumArtFiles, String>)
    ensures
        match thumb_jpeg(data@) {
            None => r matches Err(e) && jpeg_failure_text(e@, data@) && e@ == jpeg_failure_message(
                data@,
                THUMB_MAX_EDGE,
                THUMB_MAX_BYTES as nat,
                THUMB_JPEG_QUALITY,
            ),
            Some(t) => match media_jpeg(data@) {
                None => r matches Err(e) && jpeg_failure_text(e@, data@) && e@ == jpeg_failure_message(
                    data@,
                    MEDIA_MAX_EDGE,
                    MEDIA_MAX_BYTES as nat,
                    MEDIA_JPEG_QUALITY,
                ),
                Some(m) => r matches Ok(f) && album_art_files_of(f, cover_root@, t, m),
            },
        },
{
    let thumb = match make_sized_jpeg(data, THUMB_MAX_EDGE, THUMB_MAX_BYTES, THUMB_JPEG_QUALITY) {
        Ok(t) => t,
        Err(e) => {
            return Err(e);
        },
    };
    let media = match make_sized_jpeg(data, MEDIA_MAX_EDGE, MEDIA_MAX_BYTES, MEDIA_JPEG_QUALITY) {
        Ok(m) => m,
        Err(e) => {
            return Err(e);
        },
    };
    let id = hex_sha256(thumb.as_slice());
    let mut name = id.clone();
    push_str(&mut name, ".jpg");
    let thumb_abs = join_path(join_path(cover_root, THUMBS_DIR).as_str(), name.as_str());
    let media_abs = join_path(join_path(cover_root, MEDIA_DIR).as_str(), name.as_str());
    let relative = thumb_relative_path(id.as_str());
    proof {
        reveal_strlit(".jpg");
    }
    let byte_size = #[verifier::truncate] (thumb.len() as i64);
    assert(name@ == jpg_name(id@));
    assert(thumb_abs@ == joined(joined(cover_root@, THUMBS_DIR@), jpg_name(id@)));
    assert(media_abs@ == joined(joined(cover_root@, MEDIA_DIR@), jpg_name(id@)));
    assert(byte_size == thumb@.len() as i64);
    Ok(AlbumArtFiles {
        art: SavedAlbumArt {
            id,
            thumb_abs_path: thumb_abs,
            relative_path: relative,
            mime: String::from_str("image/jpeg"),
            byte_size,
        },
        thumb,
        media,
        media_abs_path: media_abs,
    })
}

// ── Media-session artwork ─────────────────────────────────────────────────

/// The local path a cover URL names: trimmed, without a `file://` prefix.
pub open spec fn artwork_path_of(url: Seq<char>) -> Seq<char> {
    let t = trim(url);
    if starts_with(t, "file://"@) {
        t.skip(7)
    } else {
        t
    }
}

/// The local path a cover URL names, where the media-session twin of a UI
/// thumb (`…/thumbs/{id}.jpg` → `…/media/{id}.jpg`) is looked for.
pub fn artwork_path(cover_url: &str) -> (r: String)
    ensures
        r@ == artwork_path_of(cover_url@),
{
    let t = trim_str(cover_url);
    let cs = chars_of(t.as_str());
    let scheme = chars_of("file://");
    proof {
        reveal_strlit("file://");
    }
    if starts_with_chars(cs.as_slice(), scheme.as_slice()) {
        string_of_range(cs.as_slice(), 7, cs.len())
    } else {
        t
    }
}

/// The media-session twin of a UI thumb, read with `Path` as std does on
/// Unix: `p` is the cover's local path (`artwork_path_of`); when its parent
/// is named `thumbs` and it has a file name, the twin is the parent's
/// parent joined with `media` and that file name (a parent without its own
/// parent stands for itself); `None` otherwise.
pub open spec fn media_twin_of(url: Seq<char>) -> Option<Seq<char>> {
    let p = artwork_path_of(url);
    match path_parent_len(p, p.len()) {
        None => None,
        Some(pl) => match (path_file_name(p, pl), path_file_name(p, p.len())) {
            (Some(dir), Some(name)) => if dir == THUMBS_DIR@ {
                let gl = match path_parent_len(p, pl) {
                    Some(g) => g,
                    None => pl,
                };
                Some(joined(joined(p.take(gl as int), MEDIA_DIR@), name))
            } else {
                None
            },
            _ => None,
        },
    }
}

/// Where the media-session twin of the UI thumb `cover_url` names would
/// be (see `media_twin_of`); the caller checks that the file exists.
pub fn media_twin_path(cover_url: &str) -> (r: Option<String>)
    ensures
        match media_twin_of(cover_url@) {
            Some(m) => r matches Some(v) && v@ == m,
            None => r is None,
        },
{
    let p = artwork_path(cover_url);
    let cs = chars_of(p.as_str());
    let n = cs.len();
    let pl = match path_parent_prefix(cs.as_slice(), n) {
        Some(l) => l,
        None => {
            return None;
        },
    };
    let (da, db) = match path_file_name_range(cs.as_slice(), pl) {
        Some(r) => r,
        None => {
            return None;
        },
    };
    let (na, nb) = match path_file_name_range(cs.as_slice(), n) {
        Some(r) => r,
        None => {
            return None;
        },
    };
    let thumbs = chars_of(THUMBS_DIR);
    if !chars_eq(vstd::slice::slice_subrange(cs.as_slice(), da, db), thumbs.as_slice()) {
        return None;
    }
    let gl = match path_parent_prefix(cs.as_slice(), pl) {
        Some(g) => g,
        None => pl,
    };
    let grand = string_of_range(cs.as_slice(), 0, gl);
    assert(grand@ =~= cs@.take(gl as int));
    let name = string_of_range(cs.as_slice(), na, nb);
    let media = join_path(grand.as_str(), MEDIA_DIR);
    Some(join_path(media.as_str(), name.as_str()))
}

/// Prefer the media-session artwork for a cover: nothing for a missing or
/// blank URL; the media-session twin of a UI thumb (`media_twin_path`) when
/// the caller found that file (`twin_is_file`); otherwise the trimmed URL.
pub fn prefer_media_artwork_url(cover_url: Option<&str>, twin_is_file: bool) -> (r: Option<String>)
    ensures
        match cover_url {
            None => r is None,
            Some(u) => if trim(u@).len() == 0 {
                r is None
            } else {
                match media_twin_of(u@) {
                    Some(m) if twin_is_file => r matches Some(v) && v@ == m,
                    _ => r matches Some(v) && v@ == trim(u@),
                }
            },
        },
{
    let url = match cover_url {
        Some(u) => u,
        None => {
            return None;
        },
    };
    let t = trim_str(url);
    if t.unicode_len() == 0 {
        return None;
    }
    if twin_is_file {
        match media_twin_path(url) {
            Some(m) => {
                return Some(m);
            },
            None => {},
        }
    }
    Some(t)
}

// ── Locating cover files ──────────────────────────────────────────────────

/// Whether a thumb reference names a file under the cover root directly: a
/// relative path, or a bare file name with a known image extension.
pub open spec fn names_file(r: Seq<char>) -> bool {
    r.contains('/') || r.contains('\\') || crate::text::ends_with(r, ".jpg"@) || crate::text::ends_with(
        r,
        ".png"@,
    ) || crate::text::ends_with(r, ".webp"@)
}

/// Where to look, in order, for the thumb a database row refers to
/// (`relative_or_id` is a relative path or an art id), relative to the cover
/// root: the path itself or `thumbs/{id}.jpg`, then the legacy per-track
/// files `{id}.jpg`, `{id}.png`, `{id}.webp`.
pub open spec fn thumb_candidates_of(r: Seq<char>) -> Seq<Seq<char>> {
    if r.len() == 0 {
        Seq::empty()
    } else {
        seq![
            if names_file(r) {
                r
            } else {
                thumb_relative(r)
            },
            r + ".jpg"@,
            r + ".png"@,
            r + ".webp"@,
        ]
    }
}

/// Whether `cs` holds `c` (exec).
fn has_char(cs: &[char], c: char) -> (r: bool)
    ensures
        r == cs@.contains(c),
{
    match crate::text::find_char(cs, c) {
        Some(i) => {
            assert(cs@[i as int] == c);
            true
        },
        None => false,
    }
}

/// Candidate files, relative to the cover root, for a thumb reference.
pub fn thumb_candidates(relative_or_id: &str) -> (r: Vec<String>)
    ensures
        r@.map_values(|s: String| s@) == thumb_candidates_of(relative_or_id@),
{
    let cs = chars_of(relative_or_id);
    let mut out: Vec<String> = Vec::new();
    if cs.len() == 0 {
        assert(out@.map_values(|s: String| s@) =~= Seq::<Seq<char>>::empty());
        return out;
    }
    let jpg = chars_of(".jpg");
    let png = chars_of(".png");
    let webp = chars_of(".webp");
    let direct = has_char(cs.as_slice(), '/') || has_char(cs.as_slice(), '\\') || crate::text::ends_with_chars(
        cs.as_slice(),
        jpg.as_slice(),
    ) || crate::text::ends_with_chars(cs.as_slice(), png.as_slice()) || crate::text::ends_with_chars(
        cs.as_slice(),
        webp.as_slice(),
    );
    let first = if direct {
        String::from_str(relative_or_id)
    } else {
        thumb_relative_path(relative_or_id)
    };
    out.push(first);
    let mut a = String::from_str(relative_or_id);
    push_str(&mut a, ".jpg");
    out.push(a);
    let mut b = String::from_str(relative_or_id);
    push_str(&mut b, ".png");
    out.push(b);
    let mut c = String::from_str(relative_or_id);
    push_str(&mut c, ".webp");
    out.push(c);
    assert(out@.map_values(|s: String| s@) =~= thumb_candidates_of(relative_or_id@));
    out
}

/// The files a track row's cover may be shown from, in order: its thumb
/// path (absolute, or under the cover root), then the shared thumb of its
/// album-art id. Empty references are skipped.
pub open spec fn display_candidates_of(
    root: Seq<char>,
    thumb_rel: Option<Seq<char>>,
    art_id: Option<Seq<char>>,
) -> Seq<Seq<char>> {
    let a: Seq<Seq<char>> = match thumb_rel {
        Some(r) => if r.len() == 0 {
            Seq::empty()
        } else if r[0] == '/' {
            seq![r]
        } else {
            seq![joined(root, r)]
        },
        None => Seq::empty(),
    };
    let b: Seq<Seq<char>> = match art_id {
        Some(id) => if id.len() == 0 {
            Seq::empty()
        } else {
            seq![joined(root, thumb_relative(id))]
        },
        None => Seq::empty(),
    };
    a + b
}

/// Candidate cover files for a track row, to be checked for existence in
/// order.
pub fn cover_display_candidates(cover_root: &str, thumb_rel: Option<&str>, album_art_id: Option<&str>) -> (r:
    Vec<String>)
    ensures
        r@.map_values(|s: String| s@) == display_candidates_of(
            cover_root@,
            match thumb_rel {
                Some(x) => Some(x@),
                None => None,
            },
            match album_art_id {
                Some(x) => Some(x@),
                None => None,
            },
        ),
{
    let mut out: Vec<String> = Vec::new();
    if let Some(rel) = thumb_rel {
        let n = rel.unicode_len();
        if n > 0 {
            if rel.get_char(0) == '/' {
                out.push(String::from_str(rel));
            } else {
                out.push(join_path(cover_root, rel));
            }
        }
    }
    let ghost first = out@.map_values(|s: String| s@);
    if let Some(id) = album_art_id {
        if id.unicode_len() > 0 {
            let rel = thumb_relative_path(id);
            out.push(join_path(cover_root, rel.as_str()));
        }
    }
    assert(out@.map_values(|s: String| s@) =~= display_candidates_of(
        cover_root@,
        match thumb_rel {
            Some(x) => Some(x@),
            None => None,
        },
        match album_art_id {
            Some(x) => Some(x@),
            None => None,
        },
    ));
    out
}

/// Largest full-size cover sent to the user interface as is.
pub const MAX_FULL_COVER_BYTES: usize = 1536 * 1024;

/// The data URL for a full-size cover: the image as it is (MIME type
/// normalized) when it fits `MAX_FULL_COVER_BYTES`; otherwise the
/// `downscaled` JPEG the caller produced, or an empty image when that
/// failed or was not made.
pub fn full_cover_data_url(data: &[u8], mime: &str, downscaled: Option<Result<(Vec<u8>, String), String>>) -> (r:
    String)
    ensures
        r@ == if data@.len() <= MAX_FULL_COVER_BYTES {
            data_url(normalized_mime(mime@), data@)
        } else {
            match downscaled {
                Some(Ok((bytes, out_mime))) => data_url(out_mime@, bytes@),
                _ => data_url(normalized_mime(mime@), Seq::empty()),
            }
        },
{
    let m = normalize_mime(mime);
    if data.len() <= MAX_FULL_COVER_BYTES {
        return to_data_url(m.as_str(), data);
    }
    match downscaled {
        Some(Ok((bytes, out_mime))) => to_data_url(out_mime.as_str(), bytes.as_slice()),
        _ => {
            let empty: Vec<u8> = Vec::new();
            let r = to_data_url(m.as_str(), empty.as_slice());
            assert(empty@ =~= Seq::<u8>::empty());
            r
        },
    }
}

} // verus!
