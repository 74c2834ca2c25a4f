//! Reading the editable fields and the diagnostics of a file from its tag and
//! its bytes, and writing edited fields back into a tag.
use vstd::prelude::*;

use id3::Tag;

use crate::id3_tag::{
    add_comment_frame, add_frame, add_front_cover_frame, disc_of_tag, first_comment,
    first_comment_of, first_picture, first_picture_of, frame_text, frame_text_of,
    is_text_frame_id, new_tag, pair_first, pair_text, pair_total, remove_frames, remove_id, set_disc_frame,
    set_text, set_text_frame, set_track_frame, set_year_frame, tag_frames, track_of_tag, year_of,
    year_of_tag, FrameView, Replaces,
};
use crate::model::{
    opt_text, AppError, AudioFile, AudioFileView, Diagnostics, DiagnosticsView, TagData, TagDataView,
};
use crate::text::{
    dec, int_text, padded4, parse_i32, parse_i32_spec, parse_u32, parse_unsigned, trim,
    trim_text, u64_text, i64_text,
};

verus! {

/// Reads and writes the editable ID3 fields of MP3 files.
pub struct Id3TagRepository;

/// A text, or the empty text when there is none.
pub open spec fn or_empty(t: Option<Seq<char>>) -> Seq<char> {
    match t {
        Some(t) => t,
        None => Seq::empty(),
    }
}

/// The editable fields that a tag holds.
pub open spec fn tag_data_of(fs: Seq<FrameView>) -> TagDataView {
    TagDataView {
        title: or_empty(frame_text(fs, "TIT2"@)),
        artist: or_empty(frame_text(fs, "TPE1"@)),
        album: or_empty(frame_text(fs, "TALB"@)),
        genre: or_empty(frame_text(fs, "TCON"@)),
        year: match year_of(fs) {
            Some(y) => int_text(y),
            None => Seq::empty(),
        },
        track: match pair_first(fs, "TRCK"@) {
            Some(n) => dec(n),
            None => Seq::empty(),
        },
        disc: match pair_first(fs, "TPOS"@) {
            Some(n) => dec(n),
            None => Seq::empty(),
        },
        comment: or_empty(first_comment(fs)),
        cover: first_picture(fs),
    }
}

/// A field whose text is not a number.
pub enum FieldError {
    Year,
    Track,
    Disc,
}

/// The message reported for a field that is not a number.
pub open spec fn field_error_text(e: FieldError) -> Seq<char> {
    match e {
        FieldError::Year => "El año debe ser un número entero"@,
        FieldError::Track => "La pista debe ser un número entero"@,
        FieldError::Disc => "El disco debe ser un número entero"@,
    }
}

/// A text field: removed when its trimmed value is empty, otherwise set to
/// the trimmed value.
pub open spec fn text_step(fs: Seq<FrameView>, id: Seq<char>, value: Seq<char>) -> Seq<FrameView> {
    if trim(value).len() == 0 {
        remove_id(fs, id)
    } else {
        set_text(fs, id, trim(value))
    }
}

/// The four plain text fields.
pub open spec fn text_fields_step(fs: Seq<FrameView>, d: TagDataView) -> Seq<FrameView> {
    text_step(
        text_step(text_step(text_step(fs, "TIT2"@, d.title), "TPE1"@, d.artist), "TALB"@, d.album),
        "TCON"@,
        d.genre,
    )
}

/// The year: both year frames are removed, then `TYER` is set when the
/// trimmed text is a number.
pub open spec fn year_step(fs: Seq<FrameView>, year: Seq<char>) -> (Seq<FrameView>, Option<FieldError>) {
    let f = remove_id(remove_id(fs, "TYER"@), "TDRC"@);
    if trim(year).len() == 0 {
        (f, None)
    } else {
        match parse_i32_spec(trim(year)) {
            Some(y) => (set_text(f, "TYER"@, padded4(y)), None),
            None => (f, Some(FieldError::Year)),
        }
    }
}

/// A number field (track or disc): its frame is removed, then set when the
/// trimmed text is a number.
pub open spec fn number_step(fs: Seq<FrameView>, id: Seq<char>, value: Seq<char>, err: FieldError) -> (
    Seq<FrameView>,
    Option<FieldError>,
) {
    let f = remove_id(fs, id);
    if trim(value).len() == 0 {
        (f, None)
    } else {
        match parse_unsigned(trim(value), u32::MAX as nat) {
            Some(n) => (set_text(f, id, pair_text(n, pair_total(f, id))), None),
            None => (f, Some(err)),
        }
    }
}

/// The comment: all comments are removed, then one in Spanish with an empty
/// description is added when the trimmed text is not empty.
pub open spec fn comment_step(fs: Seq<FrameView>, comment: Seq<char>) -> Seq<FrameView> {
    let f = remove_id(fs, "COMM"@);
    if trim(comment).len() == 0 {
        f
    } else {
        add_frame(
            f,
            Replaces::Comment("spa"@, Seq::empty()),
            FrameView::Comment {
                id: "COMM"@,
                lang: "spa"@,
                description: Seq::empty(),
                text: trim(comment),
            },
        )
    }
}

/// The cover: all pictures are removed, then the cover is added as the front
/// cover when there is one.
pub open spec fn cover_step(fs: Seq<FrameView>, cover: Option<crate::model::CoverView>) -> Seq<
    FrameView,
> {
    let f = remove_id(fs, "APIC"@);
    match cover {
        None => f,
        Some(c) => add_frame(
            f,
            Replaces::FrontCover,
            FrameView::Picture {
                id: "APIC"@,
                mime_type: c.mime_type,
                picture_type: "Front cover"@,
                description: c.description,
                data: c.data,
            },
        ),
    }
}

/// The frames after writing the fields `d` into a tag with frames `fs`, and
/// the field that stopped the writing, if any. The steps run in order and
/// the first field that is not a number stops them.
pub open spec fn apply_fields(fs: Seq<FrameView>, d: TagDataView) -> (Seq<FrameView>, Option<FieldError>) {
    let f1 = text_fields_step(fs, d);
    let (f2, e2) = year_step(f1, d.year);
    if e2 is Some {
        (f2, e2)
    } else {
        let (f3, e3) = number_step(f2, "TRCK"@, d.track, FieldError::Track);
        if e3 is Some {
            (f3, e3)
        } else {
            let (f4, e4) = number_step(f3, "TPOS"@, d.disc, FieldError::Disc);
            if e4 is Some {
                (f4, e4)
            } else {
                (cover_step(comment_step(f4, d.comment), d.cover), None)
            }
        }
    }
}

/// Whether a result reports the given field error.
pub open spec fn reports(r: Result<(), AppError>, e: Option<FieldError>) -> bool {
    match e {
        None => r is Ok,
        Some(e) => r matches Err(AppError::Message(m)) && m@ == field_error_text(e),
    }
}

/// The ID3v2 version shown for a file whose first bytes are `header`.
pub open spec fn id3_version_text(header: Seq<u8>) -> Seq<char> {
    if header.len() < 4 || header[0] != 0x49 || header[1] != 0x44 || header[2] != 0x33 {
        "Sin ID3v2"@
    } else if header[3] == 2 {
        "ID3v2.2"@
    } else if header[3] == 3 {
        "ID3v2.3"@
    } else if header[3] == 4 {
        "ID3v2.4"@
    } else {
        "ID3v2 desconocido ("@ + dec(header[3] as nat) + ")"@
    }
}

/// Whether `marker` stands `back` bytes before the end of a file whose last
/// bytes are `tail`.
pub open spec fn marker_at_end(tail: Seq<u8>, back: int, marker: Seq<u8>) -> bool {
    &&& tail.len() >= back
    &&& tail.subrange(tail.len() - back, tail.len() - back + marker.len()) == marker
}

/// The bytes `TAG` that start an ID3v1 tag.
pub open spec fn id3v1_marker() -> Seq<u8> {
    seq![0x54u8, 0x41, 0x47]
}

/// The bytes `APETAGEX` that start an APEv2 header or footer.
pub open spec fn ape_marker() -> Seq<u8> {
    seq![0x41u8, 0x50, 0x45, 0x54, 0x41, 0x47, 0x45, 0x58]
}

/// Whether a file ending in `tail` has an ID3v1 tag: `TAG` 128 bytes before its end.
pub open spec fn has_id3v1_at_end(tail: Seq<u8>) -> bool {
    marker_at_end(tail, 128, id3v1_marker())
}

/// Whether a file ending in `tail` has an APEv2 footer: `APETAGEX` 32 bytes
/// before its end, or before the ID3v1 tag when there is one.
pub open spec fn has_apev2_at_end(tail: Seq<u8>) -> bool {
    marker_at_end(tail, if has_id3v1_at_end(tail) { 160 } else { 32 }, ape_marker())
}

/// Whether `tail` holds the last bytes of a file of `file_len` bytes: as many
/// as the file has, up to 160.
pub open spec fn is_file_tail(tail: Seq<u8>, file_len: u64) -> bool {
    tail.len() == (if file_len < 160 { file_len as int } else { 160 })
}

fn bytes_match(data: &[u8], start: usize, marker: &[u8]) -> (r: bool)
    requires
        start + marker@.len() <= data@.len(),
    ensures
        r == (data@.subrange(start as int, start + marker@.len()) == marker@),
{
    let mut i: usize = 0;
    let n = data.len();
    while i < marker.len()
        invariant
            start + marker@.len() <= data@.len(),
            n == data@.len(),
            i <= marker@.len(),
            forall|k: int| 0 <= k < i ==> data@[start + k] == marker@[k],
        decreases marker@.len() - i,
    {
        if data[start + i] != marker[i] {
            assert(data@.subrange(start as int, start + marker@.len())[i as int] != marker@[i as int]);
            return false;
        }
        i = i + 1;
    }
    assert(data@.subrange(start as int, start + marker@.len()) =~= marker@);
    true
}

/// Whether `marker` stands `back` bytes before the end of `tail`.
pub fn marker_at_end_of(tail: &[u8], back: usize, marker: &[u8]) -> (r: bool)
    requires
        marker@.len() <= back,
    ensures
        r == marker_at_end(tail@, back as int, marker@),
{
    if tail.len() < back {
        false
    } else {
        bytes_match(tail, tail.len() - back, marker)
    }
}

impl Id3TagRepository {
    /// The ID3v2 version shown for a file whose first bytes are `header`
    /// (at most four of them are read).
    pub fn detect_id3_version(header: &[u8]) -> (r: String)
        ensures
            r@ == id3_version_text(header@),
    {
        if header.len() < 4 || header[0] != 0x49 || header[1] != 0x44 || header[2] != 0x33 {
            return String::from_str("Sin ID3v2");
        }
        if header[3] == 2 {
            String::from_str("ID3v2.2")
        } else if header[3] == 3 {
            String::from_str("ID3v2.3")
        } else if header[3] == 4 {
            String::from_str("ID3v2.4")
        } else {
            let mut s = String::from_str("ID3v2 desconocido (");
            let n = u64_text(header[3] as u64);
            s.append(n.as_str());
            s.append(")");
            s
        }
    }

    /// Whether a file ends in an ID3v1 tag and whether it has an APEv2 footer,
    /// from its last bytes.
    pub fn detect_tail_tags(tail: &[u8]) -> (r: (bool, bool))
        ensures
            r.0 == has_id3v1_at_end(tail@),
            r.1 == has_apev2_at_end(tail@),
    {
        let id3v1: [u8; 3] = [0x54, 0x41, 0x47];
        let ape: [u8; 8] = [0x41, 0x50, 0x45, 0x54, 0x41, 0x47, 0x45, 0x58];
        assert(id3v1@ =~= id3v1_marker());
        assert(ape@ =~= ape_marker());
        let has_id3v1 = marker_at_end_of(tail, 128, &id3v1);
        let offset: usize = if has_id3v1 { 160 } else { 32 };
        let has_apev2 = marker_at_end_of(tail, offset, &ape);
        (has_id3v1, has_apev2)
    }

    /// The editable fields that a tag holds.
    pub fn from_tag(tag: &Tag) -> (r: TagData)
        ensures
            r@ == tag_data_of(tag_frames(*tag)),
    {
        let comment = match first_comment_of(tag) {
            Some(c) => c,
            None => String::new(),
        };
        let cover = first_picture_of(tag);
        let year = match year_of_tag(tag) {
            Some(y) => i64_text(y as i64),
            None => String::new(),
        };
        let track = match track_of_tag(tag) {
            Some(t) => u64_text(t as u64),
            None => String::new(),
        };
        let disc = match disc_of_tag(tag) {
            Some(d) => u64_text(d as u64),
            None => String::new(),
        };
        TagData {
            title: text_or_empty(frame_text_of(tag, "TIT2")),
            artist: text_or_empty(frame_text_of(tag, "TPE1")),
            album: text_or_empty(frame_text_of(tag, "TALB")),
            genre: text_or_empty(frame_text_of(tag, "TCON")),
            year,
            track,
            disc,
            comment,
            cover,
        }
    }

    /// Writes one text field: the frame is removed when the trimmed value is
    /// empty, otherwise set to the trimmed value.
    pub fn set_text_field(tag: &mut Tag, id: &str, value: &str)
        requires
            is_text_frame_id(id@),
        ensures
            tag_frames(*final(tag)) == text_step(tag_frames(*old(tag)), id@, value@),
    {
        let trimmed = trim_text(value);
        if trimmed.unicode_len() == 0 {
            remove_frames(tag, id);
        } else {
            set_text_frame(tag, id, trimmed.as_str());
        }
    }

    /// Writes the editable fields into a tag. Each text field is trimmed; an
    /// empty field removes its frames; year, track and disc must be numbers.
    pub fn apply_common_fields(tag: &mut Tag, data: &TagData) -> (r: Result<(), AppError>)
        ensures
            tag_frames(*final(tag)) == apply_fields(tag_frames(*old(tag)), data@).0,
            reports(r, apply_fields(tag_frames(*old(tag)), data@).1),
    {
        let ghost f0 = tag_frames(*tag);
        let ghost d = data@;
        proof {
            reveal_strlit("TIT2");
            reveal_strlit("TPE1");
            reveal_strlit("TALB");
            reveal_strlit("TCON");
        }
        Self::set_text_field(tag, "TIT2", data.title.as_str());
        Self::set_text_field(tag, "TPE1", data.artist.as_str());
        Self::set_text_field(tag, "TALB", data.album.as_str());
        Self::set_text_field(tag, "TCON", data.genre.as_str());
        assert(tag_frames(*tag) == text_fields_step(f0, d));
        let ghost f1 = tag_frames(*tag);

        remove_frames(tag, "TYER");
        remove_frames(tag, "TDRC");
        let year = trim_text(data.year.as_str());
        if year.unicode_len() != 0 {
            match parse_i32(year.as_str()) {
                Some(y) => set_year_frame(tag, y),
                None => {
                    return Err(AppError::Message(String::from_str("El año debe ser un número entero")));
                },
            }
        }
        assert(tag_frames(*tag) == year_step(f1, d.year).0);
        let ghost f2 = tag_frames(*tag);

        remove_frames(tag, "TRCK");
        let track = trim_text(data.track.as_str());
        if track.unicode_len() != 0 {
            match parse_u32(track.as_str()) {
                Some(t) => set_track_frame(tag, t),
                None => {
                    return Err(
                        AppError::Message(String::from_str("La pista debe ser un número entero")),
                    );
                },
            }
        }
        assert(tag_frames(*tag) == number_step(f2, "TRCK"@, d.track, FieldError::Track).0);
        let ghost f3 = tag_frames(*tag);

        remove_frames(tag, "TPOS");
        let disc = trim_text(data.disc.as_str());
        if disc.unicode_len() != 0 {
            match parse_u32(disc.as_str()) {
                Some(n) => set_disc_frame(tag, n),
                None => {
                    return Err(
                        AppError::Message(String::from_str("El disco debe ser un número entero")),
                    );
                },
            }
        }
        assert(tag_frames(*tag) == number_step(f3, "TPOS"@, d.disc, FieldError::Disc).0);

        remove_frames(tag, "COMM");
        let comment = trim_text(data.comment.as_str());
        if comment.unicode_len() != 0 {
            add_comment_frame(tag, String::from_str("spa"), String::new(), comment);
        }
        remove_frames(tag, "APIC");
        match &data.cover {
            Some(cover) => add_front_cover_frame(tag, cover.duplicate()),
            None => {},
        }
        Ok(())
    }

    /// The text of the `TLEN` frame, when it is a text frame.
    pub fn tlen(tag: &Tag) -> (r: Option<String>)
        ensures
            opt_text(r) == frame_text(tag_frames(*tag), "TLEN"@),
    {
        frame_text_of(tag, "TLEN")
    }
}

/// The diagnostics of a file, from its tag, its first bytes and its last
/// bytes, with the given description of its cover.
pub open spec fn diagnostics_of(
    fs: Seq<FrameView>,
    header: Seq<u8>,
    tail: Seq<u8>,
    cover_description: Option<Seq<char>>,
) -> DiagnosticsView {
    DiagnosticsView {
        id3_version: id3_version_text(header),
        raw_tlen: frame_text(fs, "TLEN"@),
        has_id3v1: has_id3v1_at_end(tail),
        has_apev2: has_apev2_at_end(tail),
        cover_description,
    }
}

/// The frames of the tag written by normalisation: the fields written into
/// an empty tag, without any `TLEN` frame.
pub open spec fn clean_frames(d: TagDataView) -> (Seq<FrameView>, Option<FieldError>) {
    let (f, e) = apply_fields(Seq::empty(), d);
    (remove_id(f, "TLEN"@), e)
}

impl Id3TagRepository {
    /// A loaded file: its path, the fields its tag holds and its
    /// diagnostics, from its tag, its first bytes (up to four) and its last
    /// bytes (as many as it has, up to 160); not edited.
    pub fn audio_file_from(
        path: String,
        tag: &Tag,
        header: &[u8],
        tail: &[u8],
        cover_description: Option<String>,
    ) -> (r: AudioFile)
        ensures
            r@ == (AudioFileView {
                path: path@,
                tags: tag_data_of(tag_frames(*tag)),
                diagnostics: diagnostics_of(
                    tag_frames(*tag),
                    header@,
                    tail@,
                    opt_text(cover_description),
                ),
                dirty: false,
            }),
    {
        let id3_version = Self::detect_id3_version(header);
        let (has_id3v1, has_apev2) = Self::detect_tail_tags(tail);
        let raw_tlen = Self::tlen(tag);
        let tags = Self::from_tag(tag);
        AudioFile {
            path,
            tags,
            diagnostics: Diagnostics { id3_version, raw_tlen, has_id3v1, has_apev2, cover_description },
            dirty: false,
        }
    }

    /// The tag that saving writes: the tag read from the file with the
    /// edited fields written into it, so that the frames this library does
    /// not edit are kept.
    pub fn prepare_preserving(tag: Tag, file: &AudioFile) -> (r: Result<Tag, AppError>)
        ensures
            match r {
                Ok(t) => apply_fields(tag_frames(tag), file.tags@).1 is None && tag_frames(t)
                    == apply_fields(tag_frames(tag), file.tags@).0,
                Err(e) => reports(Err(e), apply_fields(tag_frames(tag), file.tags@).1)
                    && apply_fields(tag_frames(tag), file.tags@).1 is Some,
            },
    {
        let mut tag = tag;
        match Self::apply_common_fields(&mut tag, &file.tags) {
            Ok(()) => Ok(tag),
            Err(e) => Err(e),
        }
    }

    /// The tag that normalisation writes: a new tag holding the fields,
    /// without `TLEN`.
    pub fn prepare_clean_v23(tags: &TagData) -> (r: Result<Tag, AppError>)
        ensures
            match r {
                Ok(t) => clean_frames(tags@).1 is None && tag_frames(t) == clean_frames(tags@).0,
                Err(e) => reports(Err(e), clean_frames(tags@).1) && clean_frames(tags@).1 is Some,
            },
    {
        let mut tag = new_tag();
        match Self::apply_common_fields(&mut tag, tags) {
            Ok(()) => {
                remove_frames(&mut tag, "TLEN");
                Ok(tag)
            },
            Err(e) => Err(e),
        }
    }
}

/// A text, or the empty text.
fn text_or_empty(t: Option<String>) -> (r: String)
    ensures
        r@ == or_empty(opt_text(t)),
{
    match t {
        Some(t) => t,
        None => String::new(),
    }
}

} // verus!
