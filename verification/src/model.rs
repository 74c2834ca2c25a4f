//! The data the library works on: tag fields, cover art, per-file diagnostics,
//! loaded files, normalisation options and errors.
use vstd::prelude::*;

use crate::text::{parse_u64, parse_unsigned, text_eq, trim, trim_text};

verus! {

/// Name of the folder, beside the source files, that receives normalised copies.
pub const NORMALIZED_FOLDER_NAME: &'static str = "MP3 normalizados";

// ---------------------------------------------------------------------------
// Tag data
// ---------------------------------------------------------------------------

/// An embedded picture: MIME type, description and encoded image bytes.
#[derive(Clone, Debug, Default)]
pub struct CoverArt {
    pub mime_type: String,
    pub description: String,
    pub data: Vec<u8>,
}

/// The mathematical value of a [`CoverArt`].
pub struct CoverView {
    pub mime_type: Seq<char>,
    pub description: Seq<char>,
    pub data: Seq<u8>,
}

impl View for CoverArt {
    type V = CoverView;

    open spec fn view(&self) -> CoverView {
        CoverView { mime_type: self.mime_type@, description: self.description@, data: self.data@ }
    }
}

impl CoverArt {
    /// A field-by-field copy.
    pub fn duplicate(&self) -> (r: CoverArt)
        ensures
            r@ == self@,
    {
        CoverArt {
            mime_type: self.mime_type.clone(),
            description: self.description.clone(),
            data: self.data.clone(),
        }
    }
}

/// The editable tag fields of one file, as texts.
#[derive(Clone, Debug, Default)]
pub struct TagData {
    pub title: String,
    pub artist: String,
    pub album: String,
    pub genre: String,
    pub year: String,
    pub track: String,
    pub disc: String,
    pub comment: String,
    pub cover: Option<CoverArt>,
}

/// The mathematical value of a [`TagData`].
pub struct TagDataView {
    pub title: Seq<char>,
    pub artist: Seq<char>,
    pub album: Seq<char>,
    pub genre: Seq<char>,
    pub year: Seq<char>,
    pub track: Seq<char>,
    pub disc: Seq<char>,
    pub comment: Seq<char>,
    pub cover: Option<CoverView>,
}

/// The view of an optional cover.
pub open spec fn cover_view(c: Option<CoverArt>) -> Option<CoverView> {
    match c {
        Some(c) => Some(c@),
        None => None,
    }
}

impl View for TagData {
    type V = TagDataView;

    open spec fn view(&self) -> TagDataView {
        TagDataView {
            title: self.title@,
            artist: self.artist@,
            album: self.album@,
            genre: self.genre@,
            year: self.year@,
            track: self.track@,
            disc: self.disc@,
            comment: self.comment@,
            cover: cover_view(self.cover),
        }
    }
}

/// A copy of an optional cover.
pub fn duplicate_cover(c: &Option<CoverArt>) -> (r: Option<CoverArt>)
    ensures
        cover_view(r) == cover_view(*c),
{
    match c {
        Some(c) => Some(c.duplicate()),
        None => None,
    }
}

impl TagData {
    /// A field-by-field copy.
    pub fn duplicate(&self) -> (r: TagData)
        ensures
            r@ == self@,
    {
        TagData {
            title: self.title.clone(),
            artist: self.artist.clone(),
            album: self.album.clone(),
            genre: self.genre.clone(),
            year: self.year.clone(),
            track: self.track.clone(),
            disc: self.disc.clone(),
            comment: self.comment.clone(),
            cover: duplicate_cover(&self.cover),
        }
    }
}

// ---------------------------------------------------------------------------
// Diagnostics
// ---------------------------------------------------------------------------

/// What was found in a file besides its editable fields.
#[derive(Clone, Debug, Default)]
pub struct Diagnostics {
    pub id3_version: String,
    pub raw_tlen: Option<String>,
    pub has_id3v1: bool,
    pub has_apev2: bool,
    pub cover_description: Option<String>,
}

/// The mathematical value of [`Diagnostics`].
pub struct DiagnosticsView {
    pub id3_version: Seq<char>,
    pub raw_tlen: Option<Seq<char>>,
    pub has_id3v1: bool,
    pub has_apev2: bool,
    pub cover_description: Option<Seq<char>>,
}

/// The view of an optional text.
pub open spec fn opt_text(s: Option<String>) -> Option<Seq<char>> {
    match s {
        Some(s) => Some(s@),
        None => None,
    }
}

impl View for Diagnostics {
    type V = DiagnosticsView;

    open spec fn view(&self) -> DiagnosticsView {
        DiagnosticsView {
            id3_version: self.id3_version@,
            raw_tlen: opt_text(self.raw_tlen),
            has_id3v1: self.has_id3v1,
            has_apev2: self.has_apev2,
            cover_description: opt_text(self.cover_description),
        }
    }
}

/// The warning about the ID3v2 version, if any.
pub open spec fn version_warnings(version: Seq<char>) -> Seq<Seq<char>> {
    if version == "ID3v2.4"@ {
        seq!["ID3v2.4: conviene normalizar a ID3v2.3"@]
    } else if version == "Sin ID3v2"@ {
        seq!["Sin ID3v2: se puede crear una etiqueta nueva"@]
    } else {
        seq![]
    }
}

/// The warning about a TLEN frame: suspicious when it is a number below 1000 ms.
pub open spec fn tlen_warning(tlen: Seq<char>) -> Seq<char> {
    match parse_unsigned(tlen, u64::MAX as nat) {
        Some(v) if v < 1000 => "TLEN sospechoso: "@ + tlen + " ms"@,
        _ => "TLEN presente: "@ + tlen,
    }
}

/// The compatibility warnings of a file, in the order they are shown.
pub open spec fn warnings_of(d: DiagnosticsView) -> Seq<Seq<char>> {
    version_warnings(d.id3_version) + (match d.raw_tlen {
        Some(t) => seq![tlen_warning(t)],
        None => seq![],
    }) + (if d.has_id3v1 {
        seq!["Contiene ID3v1 al final del archivo"@]
    } else {
        seq![]
    }) + (if d.has_apev2 {
        seq!["Contiene APEv2 al final del archivo"@]
    } else {
        seq![]
    })
}

/// The views of a vector of texts.
pub open spec fn texts(v: Seq<String>) -> Seq<Seq<char>> {
    v.map_values(|s: String| s@)
}

fn push_text(v: &mut Vec<String>, s: String)
    ensures
        texts(final(v)@) == texts(old(v)@).push(s@),
{
    v.push(s);
    assert(texts(final(v)@) =~= texts(old(v)@).push(s@));
}

/// A copy of an optional text.
pub fn duplicate_text(t: &Option<String>) -> (r: Option<String>)
    ensures
        opt_text(r) == opt_text(*t),
{
    match t {
        Some(t) => Some(t.clone()),
        None => None,
    }
}

impl Diagnostics {
    /// A field-by-field copy.
    pub fn duplicate(&self) -> (r: Diagnostics)
        ensures
            r@ == self@,
    {
        Diagnostics {
            id3_version: self.id3_version.clone(),
            raw_tlen: duplicate_text(&self.raw_tlen),
            has_id3v1: self.has_id3v1,
            has_apev2: self.has_apev2,
            cover_description: duplicate_text(&self.cover_description),
        }
    }

    /// The compatibility warnings for this file.
    pub fn warnings(&self) -> (r: Vec<String>)
        ensures
            texts(r@) == warnings_of(self@),
    {
        let mut warnings: Vec<String> = Vec::new();
        if text_eq(self.id3_version.as_str(), "ID3v2.4") {
            push_text(&mut warnings, String::from_str("ID3v2.4: conviene normalizar a ID3v2.3"));
        } else if text_eq(self.id3_version.as_str(), "Sin ID3v2") {
            push_text(
                &mut warnings,
                String::from_str("Sin ID3v2: se puede crear una etiqueta nueva"),
            );
        }
        let ghost after_version = texts(warnings@);
        assert(after_version =~= version_warnings(self@.id3_version));
        if let Some(tlen) = &self.raw_tlen {
            let detail = match parse_u64(tlen.as_str()) {
                Some(value) if value < 1000 => {
                    let mut d = String::from_str("TLEN sospechoso: ");
                    d.append(tlen.as_str());
                    d.append(" ms");
                    d
                },
                _ => {
                    let mut d = String::from_str("TLEN presente: ");
                    d.append(tlen.as_str());
                    d
                },
            };
            push_text(&mut warnings, detail);
        }
        let ghost after_tlen = texts(warnings@);
        if self.has_id3v1 {
            push_text(&mut warnings, String::from_str("Contiene ID3v1 al final del archivo"));
        }
        let ghost after_v1 = texts(warnings@);
        if self.has_apev2 {
            push_text(&mut warnings, String::from_str("Contiene APEv2 al final del archivo"));
        }
        assert(texts(warnings@) =~= warnings_of(self@));
        warnings
    }

    /// The number of compatibility warnings for this file.
    pub fn warning_count(&self) -> (r: usize)
        ensures
            r == warnings_of(self@).len(),
    {
        let w = self.warnings();
        assert(texts(w@).len() == w@.len());
        w.len()
    }
}

// ---------------------------------------------------------------------------
// Loaded files
// ---------------------------------------------------------------------------

/// A file in the library: its path, edited fields, diagnostics and whether
/// the fields were edited since they were last read.
#[derive(Clone, Debug)]
pub struct AudioFile {
    pub path: String,
    pub tags: TagData,
    pub diagnostics: Diagnostics,
    pub dirty: bool,
}

/// The mathematical value of an [`AudioFile`].
pub struct AudioFileView {
    pub path: Seq<char>,
    pub tags: TagDataView,
    pub diagnostics: DiagnosticsView,
    pub dirty: bool,
}

impl View for AudioFile {
    type V = AudioFileView;

    open spec fn view(&self) -> AudioFileView {
        AudioFileView {
            path: self.path@,
            tags: self.tags@,
            diagnostics: self.diagnostics@,
            dirty: self.dirty,
        }
    }
}

/// Whether `part` occurs as a contiguous piece of `whole`.
pub open spec fn is_infix(part: Seq<char>, whole: Seq<char>) -> bool {
    exists|i: int| 0 <= i && i + part.len() <= whole.len() && #[trigger] whole.subrange(i, i + part.len()) == part
}

/// Whether `c` separates path components on some platform.
pub open spec fn is_separator(c: char) -> bool {
    c == '/' || c == '\\'
}

/// The part of `s` after its last `ch` (all of `s` when it holds none).
pub open spec fn after_last(s: Seq<char>, ch: char) -> Seq<char>
    decreases s.len(),
{
    if s.len() == 0 {
        s
    } else if s.last() == ch {
        Seq::empty()
    } else {
        after_last(s.drop_last(), ch).push(s.last())
    }
}

/// The part of `s` before its last `ch`, when it holds one.
pub open spec fn before_last(s: Seq<char>, ch: char) -> Seq<char> {
    s.subrange(0, s.len() - after_last(s, ch).len() - 1)
}

/// The last component of a path: what follows its last `/`.
pub open spec fn final_component(path: Seq<char>) -> Seq<char> {
    after_last(path, '/')
}

/// Whether every platform reads the last component of `path` alike: the
/// path holds no `:` and does not start with two separators (so it has no
/// drive or network prefix), and what follows its last `/` is not empty, not
/// `.` or `..`, and holds no `\\`.
pub open spec fn plain_path(path: Seq<char>) -> bool {
    let c = final_component(path);
    &&& !path.contains(':')
    &&& !(path.len() >= 2 && is_separator(path[0]) && is_separator(path[1]))
    &&& c.len() > 0
    &&& c != "."@
    &&& c != ".."@
    &&& !c.contains('\\')
}

/// The extension of the last component of a plain path: what follows its
/// last `.`, when it has one that is not its first character.
pub open spec fn plain_extension(path: Seq<char>) -> Option<Seq<char>> {
    let c = final_component(path);
    if c.contains('.') && before_last(c, '.').len() > 0 {
        Some(after_last(c, '.'))
    } else {
        None
    }
}

/// Whether `c` ends a path prefix or component on some platform: a
/// separator, or the `:` of a drive.
pub open spec fn is_part_end(c: char) -> bool {
    c == '/' || c == '\\' || c == ':'
}

/// The part of a path after its last `/`, backslash or `:`.
pub open spec fn last_part(s: Seq<char>) -> Seq<char>
    decreases s.len(),
{
    if s.len() == 0 {
        s
    } else if is_part_end(s.last()) {
        Seq::empty()
    } else {
        last_part(s.drop_last()).push(s.last())
    }
}

/// Whether every platform reads the same extension from `path`: the path
/// does not start with two separators (no network or device prefix), and
/// its part after the last `/`, backslash or `:` is not `.` or `..` and
/// holds a `.` after its first character. Drive paths such as
/// `C:\Music\a.mp3` are of this kind.
pub open spec fn portable_extension_path(path: Seq<char>) -> bool {
    let c = last_part(path);
    &&& !(path.len() >= 2 && is_separator(path[0]) && is_separator(path[1]))
    &&& c != "."@
    &&& c != ".."@
    &&& c.contains('.')
    &&& before_last(c, '.').len() > 0
}

/// The extension that every platform reads from such a path: what follows
/// the last `.` of its last part.
pub open spec fn portable_extension(path: Seq<char>) -> Seq<char> {
    after_last(last_part(path), '.')
}

/// The final component of a path, as the platform's path rules read it.
///
/// Calls `std::path::Path::file_name`. Its documentation says that the file
/// name is the final component of the path and that there is none when the
/// path ends in `..`; components are split at separators, and a trailing
/// `.` is normalised away. The contract claims that a file name, when there
/// is one, is a non-empty piece of the path, and that a plain path (one
/// every platform reads alike) has its last component as file name. Which
/// characters separate the components in other paths depends on the
/// platform, so nothing more is stated.
#[verifier::external_body]
pub(crate) fn path_file_name(path: &str) -> (r: Option<String>)
    ensures
        r matches Some(n) ==> n@.len() > 0 && is_infix(n@, path@),
        plain_path(path@) ==> opt_text(r) == Some(final_component(path@)),
{
    match std::path::Path::new(path).file_name() {
        Some(name) => Some(name.to_string_lossy().into_owned()),
        None => None,
    }
}

/// The extension of the final component of a path, as the platform's path
/// rules read it.
///
/// Calls `std::path::Path::extension`. Its documentation says that there is
/// none when there is no file name, when the file name holds no `.`, or when
/// it begins with `.` and holds no other; otherwise it is the part after the
/// final `.`. Components are split at `/` (and, on Windows, at backslashes
/// after a drive prefix such as `C:`). The contract claims that an
/// extension, when there is one, is a piece of the path, and gives the
/// extension of a plain path and of a path whose last part every platform
/// reads alike.
#[verifier::external_body]
pub(crate) fn path_extension(path: &str) -> (r: Option<String>)
    ensures
        r matches Some(e) ==> is_infix(e@, path@),
        plain_path(path@) ==> opt_text(r) == plain_extension(path@),
        portable_extension_path(path@) ==> opt_text(r) == Some(portable_extension(path@)),
{
    match std::path::Path::new(path).extension() {
        Some(ext) => Some(ext.to_string_lossy().into_owned()),
        None => None,
    }
}

/// The name shown for a file: its file name, or `MP3` when the path has none.
pub open spec fn shown_name(file_name: Option<Seq<char>>) -> Seq<char> {
    match file_name {
        Some(n) => n,
        None => "MP3"@,
    }
}

/// The shown name for a given file name.
pub fn display_name_from(file_name: Option<String>) -> (r: String)
    ensures
        r@ == shown_name(opt_text(file_name)),
{
    match file_name {
        Some(n) => n,
        None => String::from_str("MP3"),
    }
}

/// The title shown in the file list, given the file's shown name: the title,
/// or the name when the title is blank.
pub fn shown_title_from(title: &str, name: String) -> (r: String)
    ensures
        trim(title@).len() != 0 ==> r@ == title@,
        trim(title@).len() == 0 ==> r@ == name@,
{
    let t = trim_text(title);
    if t.unicode_len() == 0 {
        name
    } else {
        String::from_str(title)
    }
}

impl AudioFile {
    /// A field-by-field copy.
    pub fn duplicate(&self) -> (r: AudioFile)
        ensures
            r@ == self@,
    {
        AudioFile {
            path: self.path.clone(),
            tags: self.tags.duplicate(),
            diagnostics: self.diagnostics.duplicate(),
            dirty: self.dirty,
        }
    }

    /// The title shown in the file list: the title, or the file's name when
    /// the title is blank.
    pub fn shown_title(&self) -> (r: String)
        ensures
            trim(self.tags.title@).len() != 0 ==> r@ == self.tags.title@,
            trim(self.tags.title@).len() == 0 ==> (plain_path(self.path@) ==> r@ == final_component(
                self.path@,
            )),
            trim(self.tags.title@).len() == 0 ==> exists|name: Option<Seq<char>>|
                #![trigger shown_name(name)]
                (name matches Some(n) ==> n.len() > 0 && is_infix(n, self.path@)) && r@
                    == shown_name(name),
    {
        shown_title_from(self.tags.title.as_str(), self.display_name())
    }

    /// The name shown for this file: its file name, or `MP3` when the path
    /// has none. The file name is read by the platform's path rules: for a
    /// plain path it is the last component; for any path it is a non-empty
    /// piece of it.
    pub fn display_name(&self) -> (r: String)
        ensures
            plain_path(self.path@) ==> r@ == final_component(self.path@),
            exists|name: Option<Seq<char>>|
                #![trigger shown_name(name)]
                (name matches Some(n) ==> n.len() > 0 && is_infix(n, self.path@)) && r@
                    == shown_name(name),
    {
        let name = path_file_name(self.path.as_str());
        let ghost v = opt_text(name);
        let r = display_name_from(name);
        assert(r@ == shown_name(v));
        r
    }
}

// ---------------------------------------------------------------------------
// Normalisation options
// ---------------------------------------------------------------------------

/// Which steps normalisation performs, and the cover limits it uses.
#[derive(Clone, Debug)]
pub struct NormalizationOptions {
    pub create_backup: bool,
    pub strip_id3v1: bool,
    pub strip_apev2: bool,
    pub normalize_cover: bool,
    pub max_cover_size: u32,
    pub jpeg_quality: u8,
}

impl Default for NormalizationOptions {
    /// The iPod-safe profile: backup, strip ID3v1 and APEv2, and re-encode the
    /// cover as JPEG of at most 600 px at quality 88.
    fn default() -> (r: NormalizationOptions)
        ensures
            r.create_backup,
            r.strip_id3v1,
            r.strip_apev2,
            r.normalize_cover,
            r.max_cover_size == 600,
            r.jpeg_quality == 88,
    {
        NormalizationOptions {
            create_backup: true,
            strip_id3v1: true,
            strip_apev2: true,
            normalize_cover: true,
            max_cover_size: 600,
            jpeg_quality: 88,
        }
    }
}

// ---------------------------------------------------------------------------
// Errors
// ---------------------------------------------------------------------------

/// Why an operation failed. The texts of outside errors are carried as
/// they were reported.
#[derive(Clone, Debug)]
pub enum AppError {
    Io(String),
    Id3(String),
    Image(String),
    Message(String),
}

/// The text that reports an error.
pub open spec fn error_text(e: AppError) -> Seq<char> {
    match e {
        AppError::Io(m) => "Error de archivo: "@ + m@,
        AppError::Id3(m) => "Error ID3: "@ + m@,
        AppError::Image(m) => "Error de imagen: "@ + m@,
        AppError::Message(m) => m@,
    }
}

impl AppError {
    /// The text that reports this error.
    pub fn message(&self) -> (r: String)
        ensures
            r@ == error_text(*self),
    {
        match self {
            AppError::Io(m) => {
                let mut s = String::from_str("Error de archivo: ");
                s.append(m.as_str());
                s
            },
            AppError::Id3(m) => {
                let mut s = String::from_str("Error ID3: ");
                s.append(m.as_str());
                s
            },
            AppError::Image(m) => {
                let mut s = String::from_str("Error de imagen: ");
                s.append(m.as_str());
                s
            },
            AppError::Message(m) => m.clone(),
        }
    }
}

} // verus!

verus! {

/// A file has one warning for each thing to fix: an ID3v2.4 tag or none at
/// all, a TLEN frame, an ID3v1 tag, an APEv2 tag.
pub proof fn lemma_warning_count(d: DiagnosticsView)
    ensures
        warnings_of(d).len() == (if d.id3_version == "ID3v2.4"@ || d.id3_version == "Sin ID3v2"@ {
            1int
        } else {
            0int
        }) + (if d.raw_tlen is Some {
            1int
        } else {
            0int
        }) + (if d.has_id3v1 {
            1int
        } else {
            0int
        }) + (if d.has_apev2 {
            1int
        } else {
            0int
        }),
{
}

} // verus!
