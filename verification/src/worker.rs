//! The hash worker's decision logic: given one candidate file's size and the
//! outcome of reading its bytes, produce either an accepted record or a typed
//! failure, together with the number of bytes that were read for it.
//!
//! Reading the file is the caller's job; decoding and hashing call into the
//! image codecs through the trusted wrappers below.

use vstd::prelude::*;

verus! {

use crate::phash::PHash;
use crate::record::{ErrorKind, ErrorKindV, Failure, Image, ImageV, Pixels};

/// Files below this byte size are rejected before decoding: icons and
/// thumbnails would pass decode but are too small to hash meaningfully.
pub const MIN_IMAGE_SIZE: u64 = 10 * 1024;

/// What decoding a byte string yields: `None` when the bytes are not a valid
/// image, otherwise the RGBA8 width, height and pixel data. Decoding is a
/// deterministic function of the bytes alone; only the codec computes it.
pub uninterp spec fn decode_of(bytes: Seq<u8>) -> Option<(u32, u32, Seq<u8>)>;

/// The perceptual hash of an RGBA8 pixel buffer: a deterministic, content-only
/// function of the dimensions and pixel data. Only the hasher computes it.
pub uninterp spec fn hash_of(width: u32, height: u32, data: Seq<u8>) -> Seq<u8>;

/// Relies on `image::load_from_memory`: decoding succeeds or fails as a
/// deterministic function of the bytes alone. `DynamicImage::to_rgba8`
/// converts the decoded image to an RGBA8 buffer of exactly
/// `width * height * 4` bytes, and `ImageBuffer::into_raw` hands that buffer
/// out unchanged.
#[verifier::external_body]
fn decode_rgba(bytes: &Vec<u8>) -> (r: Result<Pixels, String>)
    ensures
        r is Ok <==> decode_of(bytes@) is Some,
        r matches Ok(p) ==> decode_of(bytes@) == Some((p.width, p.height, p.data@)) && p.wf(),
{
    match image::load_from_memory(bytes) {
        Ok(img) => {
            let buf = img.to_rgba8();
            let (width, height) = buf.dimensions();
            Ok(Pixels { width, height, data: buf.into_raw() })
        },
        Err(e) => Err(e.to_string()),
    }
}

/// Relies on `img_hash::Hasher::hash_image` with a fixed 16x16 double-gradient
/// hasher: the hash is a deterministic function of the pixel dimensions and
/// contents alone, and is 144 bits (`HASH_BYTES` bytes) long for this
/// configuration. `image::ImageBuffer::from_raw` rebuilds the RGBA8 buffer
/// that is hashed; it accepts any buffer of `width * height * 4` bytes.
#[verifier::external_body]
fn hash_pixels(p: &Pixels) -> (h: PHash)
    requires
        p.wf(),
        p.width > 0,
        p.height > 0,
    ensures
        h@ == hash_of(p.width, p.height, p@.data),
        h.valid(),
{
    let buf: image::RgbaImage =
        image::ImageBuffer::from_raw(p.width, p.height, p.data.clone()).unwrap();
    let hasher = img_hash::HasherConfig::new()
        .hash_size(16, 16)
        .hash_alg(img_hash::HashAlg::DoubleGradient)
        .to_hasher();
    let hash = hasher.hash_image(&buf);
    PHash { bits: hash.as_bytes().to_vec() }
}

/// The decoded image has at least one pixel to hash.
pub open spec fn decoded_nonempty(d: (u32, u32, Seq<u8>)) -> bool {
    d.0 > 0 && d.1 > 0
}

/// The accepted record built for `path` from the decoded image `d`.
pub open spec fn accepted_record(path: Seq<char>, d: (u32, u32, Seq<u8>), img: ImageV) -> bool {
    &&& img.path == path
    &&& img.hash == hash_of(d.0, d.1, d.2)
    &&& img.pixels.width == d.0
    &&& img.pixels.height == d.1
    &&& img.pixels.data == d.2
    &&& img.wf()
}

/// One worker step, after the file has been read: apply the minimum-size
/// floor, decode, and hash. Returns the number of bytes read for this file
/// and either the accepted record or the failure to report.
///
/// `file_len` is the file's size on disk; `read` is the outcome of reading
/// its bytes (not consulted when the size floor already rejects the file,
/// so the caller may skip the read in that case).
pub fn analyze_image(path: String, file_len: u64, read: Result<Vec<u8>, String>) -> (r: (
    u64,
    Result<Image, Failure>,
))
    ensures
        file_len < MIN_IMAGE_SIZE ==> r.0 == file_len && r.1 is Err && r.1->Err_0@.path == path@
            && r.1->Err_0@.kind is TooSmall,
        file_len >= MIN_IMAGE_SIZE && read is Err ==> r.0 == 0 && r.1 is Err
            && r.1->Err_0@.path == path@ && r.1->Err_0@.kind == ErrorKindV::Io(read->Err_0@),
        file_len >= MIN_IMAGE_SIZE && read is Ok ==> r.0 == read->Ok_0@.len(),
        file_len >= MIN_IMAGE_SIZE && read is Ok && decode_of(read->Ok_0@) is None ==> r.1 is Err
            && r.1->Err_0@.path == path@ && r.1->Err_0@.kind is Decode,
        file_len >= MIN_IMAGE_SIZE && read is Ok && decode_of(read->Ok_0@) is Some
            && !decoded_nonempty(decode_of(read->Ok_0@)->Some_0) ==> r.1 is Err
            && r.1->Err_0@.path == path@ && r.1->Err_0@.kind is TooSmall,
        file_len >= MIN_IMAGE_SIZE && read is Ok && decode_of(read->Ok_0@) is Some
            && decoded_nonempty(decode_of(read->Ok_0@)->Some_0) ==> r.1 is Ok
            && accepted_record(path@, decode_of(read->Ok_0@)->Some_0, r.1->Ok_0@),
{
    if file_len < MIN_IMAGE_SIZE {
        return (file_len, Err(Failure { path, kind: ErrorKind::TooSmall }));
    }
    match read {
        Err(msg) => (0, Err(Failure { path, kind: ErrorKind::Io(msg) })),
        Ok(bytes) => {
            let byte_count = bytes.len() as u64;
            match decode_rgba(&bytes) {
                Err(msg) => (byte_count, Err(Failure { path, kind: ErrorKind::Decode(msg) })),
                Ok(pixels) => {
                    if pixels.width == 0 || pixels.height == 0 {
                        (byte_count, Err(Failure { path, kind: ErrorKind::TooSmall }))
                    } else {
                        let hash = hash_pixels(&pixels);
                        (byte_count, Ok(Image { path, hash, pixels }))
                    }
                },
            }
        },
    }
}

} // verus!
