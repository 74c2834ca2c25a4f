//! The iPod-safe profile: where residual ID3v1 and APEv2 tags end a file, and
//! the re-encoding of the cover as a bounded JPEG.
use vstd::prelude::*;

use image::codecs::jpeg::JpegEncoder;
use image::DynamicImage;

use crate::model::{AppError, CoverArt, CoverView, NormalizationOptions, TagData, TagDataView};
use crate::repository::{ape_marker, has_id3v1_at_end, is_file_tail, marker_at_end, marker_at_end_of};

verus! {

/// Applies the iPod-safe profile to a file.
pub struct IpodSafeNormalizer;

// ---------------------------------------------------------------------------
// Residual tags at the end of a file
// ---------------------------------------------------------------------------

/// The length of a file of `file_len` bytes ending in `tail` once its ID3v1
/// tag (the last 128 bytes, starting with `TAG`) is cut off.
pub open spec fn without_id3v1_len(tail: Seq<u8>, file_len: u64) -> int {
    if has_id3v1_at_end(tail) {
        file_len - 128
    } else {
        file_len as int
    }
}

/// The number that four bytes denote, least significant first.
pub open spec fn le_u32(b0: u8, b1: u8, b2: u8, b3: u8) -> int {
    b0 + 256 * b1 + 65536 * b2 + 16777216 * b3
}

/// The size that an APEv2 footer declares (bytes 12 to 15).
pub open spec fn ape_declared_size(footer: Seq<u8>) -> int {
    le_u32(footer[12], footer[13], footer[14], footer[15])
}

/// What the last 32 bytes of a file say of an APEv2 tag there: none
/// (`Ok(None)`), a tag whose body starts at the given offset, or a footer
/// whose declared size does not fit in the file (`Err`).
pub open spec fn ape_body_start(footer: Seq<u8>, file_len: u64) -> Result<Option<int>, ()> {
    if file_len < 32 || !marker_at_end(footer, 32, ape_marker()) {
        Ok(None)
    } else if ape_declared_size(footer) < 32 || ape_declared_size(footer) > file_len {
        Err(())
    } else {
        Ok(Some(file_len - ape_declared_size(footer)))
    }
}

/// Where a file is cut to remove an APEv2 tag whose body starts at `start`:
/// the 32-byte header before the body goes too when `probe`, the 8 bytes
/// found 32 bytes before the body, is `APETAGEX`.
pub open spec fn ape_cut(start: int, probe: Seq<u8>) -> int {
    if start >= 32 && probe == ape_marker() {
        start - 32
    } else {
        start
    }
}

/// The message for an APEv2 footer whose size is not valid.
pub open spec fn invalid_ape_text() -> Seq<char> {
    "Se detectó APEv2, pero su tamaño es inválido; no se modificó"@
}

/// The length of a whole file once its trailing APEv2 tag is removed, or
/// `Err` when its footer declares a size that does not fit.
pub open spec fn without_apev2_len(file: Seq<u8>) -> Result<int, ()> {
    let len = file.len();
    let footer = if len >= 32 { file.subrange(len - 32, len as int) } else { file };
    match ape_body_start(footer, len as u64) {
        Err(()) => Err(()),
        Ok(None) => Ok(len as int),
        Ok(Some(start)) => Ok(
            ape_cut(
                start,
                if start >= 32 { file.subrange(start - 32, start - 24) } else { Seq::empty() },
            ),
        ),
    }
}

/// Removing a residual tag only ever cuts a file short: the length kept lies
/// between zero and the file's length, and a file with no tag of the kind is
/// kept whole.
pub proof fn lemma_stripping_cuts_short(file: Seq<u8>, tail: Seq<u8>)
    requires
        file.len() <= u64::MAX,
        is_file_tail(tail, file.len() as u64),
    ensures
        0 <= without_id3v1_len(tail, file.len() as u64) <= file.len(),
        file.len() - 128 <= without_id3v1_len(tail, file.len() as u64),
        !has_id3v1_at_end(tail) ==> without_id3v1_len(tail, file.len() as u64) == file.len(),
        without_apev2_len(file) matches Ok(n) ==> 0 <= n <= file.len(),
        file.len() < 32 ==> without_apev2_len(file) == Ok::<int, ()>(file.len() as int),
{
}

impl IpodSafeNormalizer {
    /// The length of a file once its ID3v1 tag is cut off, from its last
    /// bytes (as many as the file has, up to 160).
    pub fn id3v1_stripped_len(tail: &[u8], file_len: u64) -> (r: u64)
        requires
            crate::repository::is_file_tail(tail@, file_len),
        ensures
            r == without_id3v1_len(tail@, file_len),
    {
        let marker: [u8; 3] = [0x54, 0x41, 0x47];
        assert(marker@ =~= crate::repository::id3v1_marker());
        if marker_at_end_of(tail, 128, &marker) {
            file_len - 128
        } else {
            file_len
        }
    }

    /// What the last bytes of a file (as many as it has, up to 32) say of an
    /// APEv2 tag at its end: none, the offset where its body starts, or an
    /// error when the declared size does not fit in the file.
    pub fn apev2_body_start(footer: &[u8], file_len: u64) -> (r: Result<Option<u64>, AppError>)
        requires
            footer@.len() == (if file_len < 32 { file_len as int } else { 32 }),
        ensures
            match ape_body_start(footer@, file_len) {
                Ok(None) => r == Ok::<Option<u64>, AppError>(None),
                Ok(Some(s)) => r matches Ok(Some(t)) && t == s,
                Err(()) => r matches Err(AppError::Message(m)) && m@ == invalid_ape_text(),
            },
    {
        let ape: [u8; 8] = [0x41, 0x50, 0x45, 0x54, 0x41, 0x47, 0x45, 0x58];
        assert(ape@ =~= ape_marker());
        if file_len < 32 || !marker_at_end_of(footer, 32, &ape) {
            return Ok(None);
        }
        let size: u64 = (footer[12] as u64) + 256 * (footer[13] as u64) + 65536 * (footer[14] as u64)
            + 16777216 * (footer[15] as u64);
        if size < 32 || size > file_len {
            return Err(
                AppError::Message(
                    String::from_str("Se detectó APEv2, pero su tamaño es inválido; no se modificó"),
                ),
            );
        }
        Ok(Some(file_len - size))
    }

    /// Where a file is cut to remove an APEv2 tag whose body starts at
    /// `start`, given the 8 bytes found 32 bytes before the body (empty when
    /// the body starts before byte 32).
    pub fn apev2_cut(start: u64, probe: &[u8]) -> (r: u64)
        ensures
            r == ape_cut(start as int, probe@),
    {
        let ape: [u8; 8] = [0x41, 0x50, 0x45, 0x54, 0x41, 0x47, 0x45, 0x58];
        assert(ape@ =~= ape_marker());
        if start >= 32 && probe.len() == 8 && marker_at_end_of(probe, 8, &ape) {
            assert(probe@.subrange(0, 8) =~= probe@);
            start - 32
        } else {
            proof {
                if start >= 32 && probe@.len() == 8 {
                    assert(probe@.subrange(0, 8) =~= probe@);
                }
            }
            start
        }
    }

    /// The length of a whole file once its trailing APEv2 tag is removed.
    pub fn apev2_stripped_len(file: &[u8]) -> (r: Result<u64, AppError>)
        ensures
            match without_apev2_len(file@) {
                Ok(n) => r matches Ok(m) && m == n,
                Err(()) => r matches Err(AppError::Message(m)) && m@ == invalid_ape_text(),
            },
    {
        let len = file.len();
        let footer = if len >= 32 {
            vstd::slice::slice_subrange(file, len - 32, len)
        } else {
            file
        };
        match Self::apev2_body_start(footer, len as u64) {
            Err(e) => Err(e),
            Ok(None) => Ok(len as u64),
            Ok(Some(start)) => {
                if start >= 32 {
                    let probe = vstd::slice::slice_subrange(file, (start - 32) as usize, (start - 24) as usize);
                    Ok(Self::apev2_cut(start, probe))
                } else {
                    let empty: [u8; 0] = [];
                    assert(empty@ =~= Seq::<u8>::empty());
                    Ok(Self::apev2_cut(start, &empty))
                }
            },
        }
    }
}

// ---------------------------------------------------------------------------
// The steps of normalisation
// ---------------------------------------------------------------------------

/// A step of normalising a file. The original is only read: it is copied
/// into the backup folder and into the output folder, and every change is
/// made to the copy in the output folder.
#[derive(Clone, Copy, Debug, PartialEq, Eq, Structural)]
pub enum NormalizeStep {
    /// Copy the original into the backup folder, unless a copy is there.
    BackupOriginal,
    /// Copy the original into the output folder.
    CopyToOutput,
    /// Cut a trailing ID3v1 tag off the copy.
    StripId3v1,
    /// Cut a trailing APEv2 tag off the copy.
    StripApev2,
    /// Re-encode the cover as the options ask and write the fields into the
    /// copy as a clean ID3v2.3 tag.
    WriteCleanTag,
}

/// The steps for the given options, in the order they run: the backup when
/// asked, the copy, the cuts that are asked, and the clean tag last.
pub open spec fn normalize_steps(options: NormalizationOptions) -> Seq<NormalizeStep> {
    (if options.create_backup { seq![NormalizeStep::BackupOriginal] } else { seq![] })
        + seq![NormalizeStep::CopyToOutput]
        + (if options.strip_id3v1 { seq![NormalizeStep::StripId3v1] } else { seq![] })
        + (if options.strip_apev2 { seq![NormalizeStep::StripApev2] } else { seq![] })
        + seq![NormalizeStep::WriteCleanTag]
}

/// Whether a step only reads the original file.
pub open spec fn reads_original(step: NormalizeStep) -> bool {
    step is BackupOriginal || step is CopyToOutput
}

/// Normalisation leaves the original as it was: every step that changes a
/// file comes after the copy into the output folder, the backup (when
/// asked) comes before that copy, and the clean tag is written last.
pub proof fn lemma_steps_change_only_the_copy(options: NormalizationOptions)
    ensures
        ({
            let p = normalize_steps(options);
            &&& forall|i: int|
                0 <= i < p.len() && !reads_original(#[trigger] p[i]) ==> exists|j: int|
                    0 <= j < i && p[j] == NormalizeStep::CopyToOutput
            &&& forall|i: int|
                0 <= i < p.len() && #[trigger] p[i] == NormalizeStep::BackupOriginal ==> i == 0
            &&& p.last() == NormalizeStep::WriteCleanTag
        }),
{
    let p = normalize_steps(options);
    let c: int = if options.create_backup { 1 } else { 0 };
    assert(p[c] == NormalizeStep::CopyToOutput);
    assert forall|i: int| 0 <= i < p.len() && !reads_original(#[trigger] p[i]) implies exists|j: int|
        0 <= j < i && p[j] == NormalizeStep::CopyToOutput by {
        assert(i > c);
        assert(p[c] == NormalizeStep::CopyToOutput);
    }
}

impl IpodSafeNormalizer {
    /// The steps of normalising a file with the given options.
    pub fn steps(options: &NormalizationOptions) -> (r: Vec<NormalizeStep>)
        ensures
            r@ == normalize_steps(*options),
    {
        let mut r: Vec<NormalizeStep> = Vec::new();
        if options.create_backup {
            r.push(NormalizeStep::BackupOriginal);
        }
        r.push(NormalizeStep::CopyToOutput);
        if options.strip_id3v1 {
            r.push(NormalizeStep::StripId3v1);
        }
        if options.strip_apev2 {
            r.push(NormalizeStep::StripApev2);
        }
        r.push(NormalizeStep::WriteCleanTag);
        r
    }
}

// ---------------------------------------------------------------------------
// The cover
// ---------------------------------------------------------------------------

/// The size, width then height, of the image that `data` decodes to (its
/// format guessed from the bytes), or the text of the decoding error.
pub uninterp spec fn decoded_size(data: Seq<u8>) -> Result<(u32, u32), Seq<char>>;

/// The image that `data` decodes to, converted to 8-bit RGB and encoded as
/// JPEG at `quality`, or the text of the error.
pub uninterp spec fn jpeg_of(data: Seq<u8>, quality: u8) -> Result<Seq<u8>, Seq<char>>;

/// The image that `data` decodes to, scaled down to fit in a square of side
/// `max` keeping its aspect ratio, converted to 8-bit RGB and encoded as JPEG
/// at `quality`, or the text of the error.
pub uninterp spec fn jpeg_thumbnail_of(data: Seq<u8>, max: u32, quality: u8) -> Result<
    Seq<u8>,
    Seq<char>,
>;

/// A result with its error text taken by its view.
pub open spec fn text_error<T>(r: Result<T, String>) -> Result<T, Seq<char>> {
    match r {
        Ok(v) => Ok(v),
        Err(e) => Err(e@),
    }
}

/// A result of bytes with both sides taken by their views.
pub open spec fn bytes_result(r: Result<Vec<u8>, String>) -> Result<Seq<u8>, Seq<char>> {
    match r {
        Ok(v) => Ok(v@),
        Err(e) => Err(e@),
    }
}

/// `image::load_from_memory`, then `DynamicImage::width` and `height`: the
/// size of the decoded image, or the error's text (its `Display`). Decoding
/// depends on the bytes alone, so the result is named.
#[verifier::external_body]
fn decode_size(data: &[u8]) -> (r: Result<(u32, u32), String>)
    ensures
        text_error(r) == decoded_size(data@),
{
    match image::load_from_memory(data) {
        Ok(img) => Ok((img.width(), img.height())),
        Err(e) => Err(format!("{e}")),
    }
}

/// `image::load_from_memory`, `DynamicImage::to_rgb8`, then
/// `JpegEncoder::new_with_quality` (which clamps the quality to 1..=100) and
/// `encode_image`: the JPEG bytes, or the error's text.
#[verifier::external_body]
fn encode_as_jpeg(data: &[u8], quality: u8) -> (r: Result<Vec<u8>, String>)
    ensures
        bytes_result(r) == jpeg_of(data@, quality),
{
    let img = match image::load_from_memory(data) {
        Ok(img) => img,
        Err(e) => return Err(format!("{e}")),
    };
    let rgb = DynamicImage::ImageRgb8(img.to_rgb8());
    let mut output = Vec::new();
    match JpegEncoder::new_with_quality(&mut output, quality).encode_image(&rgb) {
        Ok(()) => Ok(output),
        Err(e) => Err(format!("{e}")),
    }
}

/// As `encode_as_jpeg`, with `DynamicImage::thumbnail(max, max)` applied to
/// the decoded image first.
#[verifier::external_body]
fn encode_thumbnail_as_jpeg(data: &[u8], max: u32, quality: u8) -> (r: Result<Vec<u8>, String>)
    ensures
        bytes_result(r) == jpeg_thumbnail_of(data@, max, quality),
{
    let img = match image::load_from_memory(data) {
        Ok(img) => img,
        Err(e) => return Err(format!("{e}")),
    };
    let rgb = DynamicImage::ImageRgb8(img.thumbnail(max, max).to_rgb8());
    let mut output = Vec::new();
    match JpegEncoder::new_with_quality(&mut output, quality).encode_image(&rgb) {
        Ok(()) => Ok(output),
        Err(e) => Err(format!("{e}")),
    }
}

/// Whether an image must be scaled down to fit in a square of side `max`.
pub open spec fn exceeds(width: u32, height: u32, max: u32) -> bool {
    width > max || height > max
}

/// Whether a cover of the given size is scaled down before re-encoding.
pub fn cover_needs_resize(width: u32, height: u32, max: u32) -> (r: bool)
    ensures
        r == exceeds(width, height, max),
{
    width > max || height > max
}

/// The fields with the cover re-encoded: a JPEG cover keeps its description.
pub open spec fn with_jpeg_cover(d: TagDataView, description: Seq<char>, data: Seq<u8>) -> TagDataView {
    TagDataView {
        cover: Some(CoverView { mime_type: "image/jpeg"@, description, data }),
        ..d
    }
}

/// The cover re-encoded as the options ask: the decoded image, scaled down
/// when it does not fit in a square of side `max`, as JPEG at `quality`; or
/// the text of the error.
pub open spec fn reencoded_cover(data: Seq<u8>, max: u32, quality: u8) -> Result<Seq<u8>, Seq<char>> {
    match decoded_size(data) {
        Err(t) => Err(t),
        Ok((w, h)) => if exceeds(w, h, max) {
            jpeg_thumbnail_of(data, max, quality)
        } else {
            jpeg_of(data, quality)
        },
    }
}

impl IpodSafeNormalizer {
    /// The fields with their cover replaced by the JPEG bytes `encoded`
    /// (keeping the cover's description), or the image error that `encoded`
    /// reports.
    pub fn with_encoded_cover(data: &TagData, encoded: Result<Vec<u8>, String>) -> (r: Result<
        TagData,
        AppError,
    >)
        requires
            data.cover is Some,
        ensures
            match encoded {
                Ok(b) => r matches Ok(t) && t@ == with_jpeg_cover(
                    data@,
                    data.cover->0@.description,
                    b@,
                ),
                Err(e) => r matches Err(AppError::Image(m)) && m@ == e@,
            },
    {
        match encoded {
            Err(e) => Err(AppError::Image(e)),
            Ok(output) => {
                let description = match &data.cover {
                    Some(c) => c.description.clone(),
                    None => String::new(),
                };
                let result = TagData {
                    cover: Some(
                        CoverArt { mime_type: String::from_str("image/jpeg"), description, data: output },
                    ),
                    ..data.duplicate()
                };
                Ok(result)
            },
        }
    }

    /// The fields with the cover re-encoded as JPEG, scaled down to fit in a
    /// square of `max_cover_size` pixels, when the options ask for it and
    /// there is a cover; the fields unchanged otherwise.
    pub fn normalize_cover(data: &TagData, options: &NormalizationOptions) -> (r: Result<TagData, AppError>)
        ensures
            (!options.normalize_cover || data.cover is None) ==> (r matches Ok(t) && t@ == data@),
            (options.normalize_cover && data.cover is Some) ==> match reencoded_cover(
                data.cover->0@.data,
                options.max_cover_size,
                options.jpeg_quality,
            ) {
                Ok(b) => r matches Ok(t) && t@ == with_jpeg_cover(
                    data@,
                    data.cover->0@.description,
                    b,
                ),
                Err(e) => r matches Err(AppError::Image(m)) && m@ == e,
            },
    {
        if !options.normalize_cover {
            return Ok(data.duplicate());
        }
        let cover = match &data.cover {
            Some(c) => c,
            None => {
                return Ok(data.duplicate());
            },
        };
        let max = options.max_cover_size;
        let quality = options.jpeg_quality;
        let encoded = match decode_size(cover.data.as_slice()) {
            Err(e) => Err(e),
            Ok((w, h)) => if cover_needs_resize(w, h, max) {
                encode_thumbnail_as_jpeg(cover.data.as_slice(), max, quality)
            } else {
                encode_as_jpeg(cover.data.as_slice(), quality)
            },
        };
        Self::with_encoded_cover(data, encoded)
    }
}

} // verus!

verus! {

/// The size that an APEv2 footer declares is the little-endian number of
/// its bytes 12 to 15: a footer written with size `s` gives a tag body that
/// starts `s` bytes before the end of the file when `32 <= s <= file_len`,
/// and an invalid size otherwise. A file that ends in such a tag with no
/// header before it is cut `s` bytes short; with the 32-byte header before
/// it, `s + 32` bytes short.
pub proof fn lemma_ape_footer_size(file: Seq<u8>, s: u32)
    requires
        32 <= file.len() <= u64::MAX,
        file.subrange(file.len() - 32, file.len() - 24) == ape_marker(),
        file[file.len() - 20] == s % 256,
        file[file.len() - 19] == (s / 256) % 256,
        file[file.len() - 18] == (s / 65536) % 256,
        file[file.len() - 17] == s / 16777216,
    ensures
        ({
            let footer = file.subrange(file.len() - 32, file.len() as int);
            &&& 32 <= s <= file.len() ==> ape_body_start(footer, file.len() as u64) == Ok::<
                Option<int>,
                (),
            >(Some(file.len() - s))
            &&& (s < 32 || s > file.len()) ==> ape_body_start(footer, file.len() as u64) is Err
        }),
        32 <= s <= file.len() && (s + 32 > file.len() || file.subrange(
            file.len() - s - 32,
            file.len() - s - 24,
        ) != ape_marker()) ==> without_apev2_len(file) == Ok::<int, ()>(file.len() - s),
        32 <= s && s + 32 <= file.len() && file.subrange(file.len() - s - 32, file.len() - s - 24)
            == ape_marker() ==> without_apev2_len(file) == Ok::<int, ()>(file.len() - s - 32),
{
    let n = file.len();
    let footer = file.subrange(n - 32, n as int);
    assert(footer.subrange(0, 8) =~= file.subrange(n - 32, n - 24));
    assert(footer[12] == file[n - 20]);
    assert(footer[13] == file[n - 19]);
    assert(footer[14] == file[n - 18]);
    assert(footer[15] == file[n - 17]);
    assert(s == (s % 256) + 256 * ((s / 256) % 256) + 65536 * ((s / 65536) % 256) + 16777216 * (s
        / 16777216)) by (bit_vector);
    assert(ape_declared_size(footer) == s);
}

/// Normalising a cover that decodes always re-encodes it as JPEG at the
/// requested quality: as it is when it fits in a square of side `max`,
/// scaled down otherwise; a cover that does not decode gives the decoding
/// error.
pub proof fn lemma_cover_always_reencoded(data: Seq<u8>, max: u32, quality: u8)
    ensures
        match decoded_size(data) {
            Err(t) => reencoded_cover(data, max, quality) == Err::<Seq<u8>, Seq<char>>(t),
            Ok((w, h)) => reencoded_cover(data, max, quality) == (if w <= max && h <= max {
                jpeg_of(data, quality)
            } else {
                jpeg_thumbnail_of(data, max, quality)
            }),
        },
{
}

} // verus!

verus! {

/// A file whose last 128 bytes start with `TAG` is cut 128 bytes short;
/// any other file keeps its length.
pub proof fn lemma_id3v1_cut(tail: Seq<u8>, file_len: u64)
    requires
        tail.len() == (if file_len < 160 { file_len as int } else { 160 }),
    ensures
        file_len >= 128 && tail[tail.len() - 128] == 0x54 && tail[tail.len() - 127] == 0x41
            && tail[tail.len() - 126] == 0x47 ==> without_id3v1_len(tail, file_len) == file_len
            - 128,
        !(file_len >= 128 && tail[tail.len() - 128] == 0x54 && tail[tail.len() - 127] == 0x41
            && tail[tail.len() - 126] == 0x47) ==> without_id3v1_len(tail, file_len) == file_len,
{
    if file_len >= 128 {
        let m = tail.subrange(tail.len() - 128, tail.len() - 125);
        if tail[tail.len() - 128] == 0x54 && tail[tail.len() - 127] == 0x41 && tail[tail.len() - 126]
            == 0x47 {
            assert(m =~= seq![0x54u8, 0x41, 0x47]);
        } else {
            assert(m[0] == tail[tail.len() - 128]);
            assert(m[1] == tail[tail.len() - 127]);
            assert(m[2] == tail[tail.len() - 126]);
        }
    }
}

/// The re-encoded cover replaces only the cover: it is a JPEG cover with
/// the given description and bytes, and every other field stays.
pub proof fn lemma_jpeg_cover_fields(d: TagDataView, description: Seq<char>, data: Seq<u8>)
    ensures
        with_jpeg_cover(d, description, data).cover == Some(
            CoverView { mime_type: "image/jpeg"@, description, data },
        ),
        with_jpeg_cover(d, description, data).title == d.title,
        with_jpeg_cover(d, description, data).artist == d.artist,
        with_jpeg_cover(d, description, data).album == d.album,
        with_jpeg_cover(d, description, data).genre == d.genre,
        with_jpeg_cover(d, description, data).year == d.year,
        with_jpeg_cover(d, description, data).track == d.track,
        with_jpeg_cover(d, description, data).disc == d.disc,
        with_jpeg_cover(d, description, data).comment == d.comment,
{
}

} // verus!
