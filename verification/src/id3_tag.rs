//! The frames of an ID3v2 tag as this library reads and edits them, and the
//! operations of the `id3` crate that it calls on a tag.
use vstd::prelude::*;

use id3::frame::{Comment, Picture, PictureType};
use id3::{Tag, TagLike};

use crate::model::{CoverArt, CoverView};
use crate::text::{dec, parse_i32_spec, parse_unsigned};
use vstd::utf8::encode_utf8;

verus! {

#[verifier::external_type_specification]
#[verifier::external_body]
pub struct ExTag(Tag);

/// What the `id3` crate compares, between two frames with the same
/// identifier, to decide that a newly added frame replaces an old one.
pub enum UniqueKey {
    /// Contents of which a tag keeps one frame per identifier.
    Same,
    /// Contents told apart by these byte strings (such as a comment's
    /// language and description).
    Parts(Seq<Seq<u8>>),
    /// Contents never taken as equal to another (unknown frames).
    Incomparable,
}

/// One frame of a tag: its identifier and its content.
///
/// `Text`, `Comment` and `Picture` are the contents of those kinds (a
/// picture's type is held by its name, such as `Front cover`); `Other`
/// stands for every other content, with the key that the crate compares
/// when a frame with the same identifier is added, and a byte string that
/// tells contents apart (two frames have the same one exactly when their
/// contents are equal).
pub enum FrameView {
    Text { id: Seq<char>, text: Seq<char> },
    Comment { id: Seq<char>, lang: Seq<char>, description: Seq<char>, text: Seq<char> },
    Picture {
        id: Seq<char>,
        mime_type: Seq<char>,
        picture_type: Seq<char>,
        description: Seq<char>,
        data: Seq<u8>,
    },
    Other { id: Seq<char>, key: UniqueKey, content: Seq<u8> },
}

impl FrameView {
    /// The frame's identifier.
    pub open spec fn id(self) -> Seq<char> {
        match self {
            FrameView::Text { id, .. } => id,
            FrameView::Comment { id, .. } => id,
            FrameView::Picture { id, .. } => id,
            FrameView::Other { id, .. } => id,
        }
    }
}

/// The frames of a tag, in order.
pub uninterp spec fn tag_frames(tag: Tag) -> Seq<FrameView>;

// ---------------------------------------------------------------------------
// The model of the tag operations
// ---------------------------------------------------------------------------

/// The kind of frame being added, which decides the existing frame it
/// replaces.
pub enum Replaces {
    /// A text frame with this identifier.
    Text(Seq<char>),
    /// A `COMM` comment with this language and description.
    Comment(Seq<char>, Seq<char>),
    /// An `APIC` front-cover picture.
    FrontCover,
}

/// The identifier of the frame being added.
pub open spec fn replaced_id(r: Replaces) -> Seq<char> {
    match r {
        Replaces::Text(id) => id,
        Replaces::Comment(..) => "COMM"@,
        Replaces::FrontCover => "APIC"@,
    }
}

/// The key of the frame being added: text contents are the same for one
/// identifier; a comment is told apart by its language and description; a
/// picture by the name of its type.
pub open spec fn new_key(r: Replaces) -> UniqueKey {
    match r {
        Replaces::Text(_) => UniqueKey::Same,
        Replaces::Comment(lang, description) => UniqueKey::Parts(
            seq![encode_utf8(lang), encode_utf8(description)],
        ),
        Replaces::FrontCover => UniqueKey::Parts(seq![encode_utf8("Front cover"@)]),
    }
}

/// Whether `f` is replaced by a new frame of kind `r`: it has the same
/// identifier and an equal key.
pub open spec fn replaced_by(f: FrameView, r: Replaces) -> bool {
    &&& f.id() == replaced_id(r)
    &&& match f {
        FrameView::Text { .. } => r is Text,
        FrameView::Comment { lang: l, description: d, .. } => match r {
            Replaces::Comment(lang, description) => l == lang && d == description,
            _ => false,
        },
        FrameView::Picture { picture_type, .. } => r is FrontCover && picture_type == "Front cover"@,
        FrameView::Other { key, .. } => key == new_key(r),
    }
}

/// The index of the first frame replaced by a new frame of kind `r`.
pub open spec fn first_replaced(fs: Seq<FrameView>, r: Replaces) -> Option<int>
    decreases fs.len(),
{
    if fs.len() == 0 {
        None
    } else {
        match first_replaced(fs.drop_last(), r) {
            Some(i) => Some(i),
            None => if replaced_by(fs.last(), r) {
                Some(fs.len() - 1)
            } else {
                None
            },
        }
    }
}

/// The frames after adding `new`: the first frame it replaces is removed and
/// `new` is appended.
pub open spec fn add_frame(fs: Seq<FrameView>, r: Replaces, new: FrameView) -> Seq<FrameView> {
    match first_replaced(fs, r) {
        Some(i) => fs.remove(i).push(new),
        None => fs.push(new),
    }
}

/// The frames after setting the text frame `id` to `text`.
pub open spec fn set_text(fs: Seq<FrameView>, id: Seq<char>, text: Seq<char>) -> Seq<FrameView> {
    add_frame(fs, Replaces::Text(id), FrameView::Text { id, text })
}

/// The frames without those with identifier `id`, in their order.
pub open spec fn remove_id(fs: Seq<FrameView>, id: Seq<char>) -> Seq<FrameView>
    decreases fs.len(),
{
    if fs.len() == 0 {
        fs
    } else if fs.last().id() == id {
        remove_id(fs.drop_last(), id)
    } else {
        remove_id(fs.drop_last(), id).push(fs.last())
    }
}

/// The first frame with identifier `id`.
pub open spec fn first_with_id(fs: Seq<FrameView>, id: Seq<char>) -> Option<FrameView>
    decreases fs.len(),
{
    if fs.len() == 0 {
        None
    } else {
        match first_with_id(fs.drop_last(), id) {
            Some(f) => Some(f),
            None => if fs.last().id() == id {
                Some(fs.last())
            } else {
                None
            },
        }
    }
}

/// The text of the first frame with identifier `id`, when that frame is a
/// text frame.
pub open spec fn frame_text(fs: Seq<FrameView>, id: Seq<char>) -> Option<Seq<char>> {
    match first_with_id(fs, id) {
        Some(FrameView::Text { text, .. }) => Some(text),
        _ => None,
    }
}

/// `t` without its leading `0` characters.
pub open spec fn strip_zeros(t: Seq<char>) -> Seq<char>
    decreases t.len(),
{
    if t.len() > 0 && t[0] == '0' {
        strip_zeros(t.drop_first())
    } else {
        t
    }
}

/// The year: the text of the first `TYER` frame without leading zeros, read
/// as an `i32`.
pub open spec fn year_of(fs: Seq<FrameView>) -> Option<int> {
    match frame_text(fs, "TYER"@) {
        Some(t) => parse_i32_spec(strip_zeros(t)),
        None => None,
    }
}

/// Whether `c` separates the two numbers of a number pair.
pub open spec fn is_pair_separator(c: char) -> bool {
    c == '\0' || c == '/'
}

/// The part of `t` before its first separator (all of `t` when there is none).
pub open spec fn pair_head(t: Seq<char>) -> Seq<char>
    decreases t.len(),
{
    if t.len() == 0 {
        t
    } else if is_pair_separator(t[0]) {
        Seq::empty()
    } else {
        seq![t[0]] + pair_head(t.drop_first())
    }
}

/// The part of `t` after its first separator, when it has one.
pub open spec fn pair_tail(t: Seq<char>) -> Option<Seq<char>>
    decreases t.len(),
{
    if t.len() == 0 {
        None
    } else if is_pair_separator(t[0]) {
        Some(t.drop_first())
    } else {
        pair_tail(t.drop_first())
    }
}

/// The first number of the pair in text frame `id` (such as track of tracks).
pub open spec fn pair_first(fs: Seq<FrameView>, id: Seq<char>) -> Option<nat> {
    match frame_text(fs, id) {
        Some(t) => parse_unsigned(pair_head(t), u32::MAX as nat),
        None => None,
    }
}

/// The second number of the pair in text frame `id`, read only when the
/// first one can be read.
pub open spec fn pair_total(fs: Seq<FrameView>, id: Seq<char>) -> Option<nat> {
    match frame_text(fs, id) {
        Some(t) => if parse_unsigned(pair_head(t), u32::MAX as nat) is Some {
            match pair_tail(t) {
                Some(rest) => parse_unsigned(rest, u32::MAX as nat),
                None => None,
            }
        } else {
            None
        },
        None => None,
    }
}

/// The text of a number pair: `n`, or `n/total` when a total is known.
pub open spec fn pair_text(n: nat, total: Option<nat>) -> Seq<char> {
    match total {
        Some(t) => dec(n) + seq!['/'] + dec(t),
        None => dec(n),
    }
}

/// The text of the first comment frame.
pub open spec fn first_comment(fs: Seq<FrameView>) -> Option<Seq<char>>
    decreases fs.len(),
{
    if fs.len() == 0 {
        None
    } else {
        match first_comment(fs.drop_last()) {
            Some(t) => Some(t),
            None => match fs.last() {
                FrameView::Comment { text, .. } => Some(text),
                _ => None,
            },
        }
    }
}

/// The first picture frame.
pub open spec fn first_picture(fs: Seq<FrameView>) -> Option<CoverView>
    decreases fs.len(),
{
    if fs.len() == 0 {
        None
    } else {
        match first_picture(fs.drop_last()) {
            Some(c) => Some(c),
            None => match fs.last() {
                FrameView::Picture { mime_type, description, data, .. } => Some(
                    CoverView { mime_type, description, data },
                ),
                _ => None,
            },
        }
    }
}

/// Whether `id` names a text frame that `set_text` accepts: four ASCII
/// characters starting with `T`.
pub open spec fn is_text_frame_id(id: Seq<char>) -> bool {
    &&& id.len() == 4
    &&& id[0] == 'T'
    &&& forall|k: int| 0 <= k < 4 ==> (#[trigger] id[k] as u32) < 128
}

// ---------------------------------------------------------------------------
// The calls into the `id3` crate
// ---------------------------------------------------------------------------

/// `id3::Tag::new`: a tag with no frames.
#[verifier::external_body]
pub(crate) fn new_tag() -> (t: Tag)
    ensures
        tag_frames(t) == Seq::<FrameView>::empty(),
{
    Tag::new()
}

/// `TagLike::remove`: removes every frame with identifier `id` and keeps the
/// others in their order.
#[verifier::external_body]
pub(crate) fn remove_frames(tag: &mut Tag, id: &str)
    ensures
        tag_frames(*final(tag)) == remove_id(tag_frames(*old(tag)), id@),
{
    tag.remove(id);
}

/// `TagLike::set_text`: a text frame `id` holding `text` is added; the first
/// frame that it replaces (see `replaced_by`) is removed. The identifier must have four ASCII characters (the crate
/// asserts a length of 3 or 4 bytes); it starts with `T`, as text frame
/// identifiers do.
#[verifier::external_body]
pub(crate) fn set_text_frame(tag: &mut Tag, id: &str, text: &str)
    requires
        is_text_frame_id(id@),
    ensures
        tag_frames(*final(tag)) == set_text(tag_frames(*old(tag)), id@, text@),
{
    tag.set_text(id, text);
}

/// `TagLike::set_year`: sets the `TYER` text frame to the year written with
/// at least four characters, zero-padded after the sign.
#[verifier::external_body]
pub(crate) fn set_year_frame(tag: &mut Tag, year: i32)
    ensures
        tag_frames(*final(tag)) == set_text(
            tag_frames(*old(tag)),
            "TYER"@,
            crate::text::padded4(year as int),
        ),
{
    tag.set_year(year);
}

/// `TagLike::set_track`: sets the `TRCK` text frame to the track number,
/// keeping the total number of tracks that the frame held.
#[verifier::external_body]
pub(crate) fn set_track_frame(tag: &mut Tag, track: u32)
    ensures
        tag_frames(*final(tag)) == set_text(
            tag_frames(*old(tag)),
            "TRCK"@,
            pair_text(track as nat, pair_total(tag_frames(*old(tag)), "TRCK"@)),
        ),
{
    tag.set_track(track);
}

/// `TagLike::set_disc`: sets the `TPOS` text frame to the disc number,
/// keeping the total number of discs that the frame held.
#[verifier::external_body]
pub(crate) fn set_disc_frame(tag: &mut Tag, disc: u32)
    ensures
        tag_frames(*final(tag)) == set_text(
            tag_frames(*old(tag)),
            "TPOS"@,
            pair_text(disc as nat, pair_total(tag_frames(*old(tag)), "TPOS"@)),
        ),
{
    tag.set_disc(disc);
}

/// `TagLike::add_frame` with a comment: a `COMM` frame is added; the first
/// frame that it replaces (the first `COMM` frame with the same language and
/// description) is removed.
#[verifier::external_body]
pub(crate) fn add_comment_frame(tag: &mut Tag, lang: String, description: String, text: String)
    ensures
        tag_frames(*final(tag)) == add_frame(
            tag_frames(*old(tag)),
            Replaces::Comment(lang@, description@),
            FrameView::Comment { id: "COMM"@, lang: lang@, description: description@, text: text@ },
        ),
{
    tag.add_frame(Comment { lang, description, text });
}

/// `TagLike::add_frame` with a front-cover picture: an `APIC` frame is added;
/// the first frame that it replaces (the first `APIC` front cover) is
/// removed.
#[verifier::external_body]
pub(crate) fn add_front_cover_frame(tag: &mut Tag, cover: CoverArt)
    ensures
        tag_frames(*final(tag)) == add_frame(
            tag_frames(*old(tag)),
            Replaces::FrontCover,
            FrameView::Picture {
                id: "APIC"@,
                mime_type: cover@.mime_type,
                picture_type: "Front cover"@,
                description: cover@.description,
                data: cover@.data,
            },
        ),
{
    tag.add_frame(Picture {
        mime_type: cover.mime_type,
        picture_type: PictureType::CoverFront,
        description: cover.description,
        data: cover.data,
    });
}

/// `TagLike::get` followed by the frame content's `text`: the text of the
/// first frame with identifier `id`, when it is a text frame.
#[verifier::external_body]
pub(crate) fn frame_text_of(tag: &Tag, id: &str) -> (r: Option<String>)
    ensures
        crate::model::opt_text(r) == frame_text(tag_frames(*tag), id@),
{
    match tag.get(id) {
        Some(frame) => match frame.content().text() {
            Some(t) => Some(t.to_owned()),
            None => None,
        },
        None => None,
    }
}

/// `TagLike::year`: the first `TYER` frame's text without leading zeros,
/// read as an `i32`.
#[verifier::external_body]
pub(crate) fn year_of_tag(tag: &Tag) -> (r: Option<i32>)
    ensures
        r == (match year_of(tag_frames(*tag)) {
            Some(y) => Some(y as i32),
            None => None::<i32>,
        }),
{
    tag.year()
}

/// `TagLike::track`: the first number of the `TRCK` frame.
#[verifier::external_body]
pub(crate) fn track_of_tag(tag: &Tag) -> (r: Option<u32>)
    ensures
        r == (match pair_first(tag_frames(*tag), "TRCK"@) {
            Some(n) => Some(n as u32),
            None => None::<u32>,
        }),
{
    tag.track()
}

/// `TagLike::disc`: the first number of the `TPOS` frame.
#[verifier::external_body]
pub(crate) fn disc_of_tag(tag: &Tag) -> (r: Option<u32>)
    ensures
        r == (match pair_first(tag_frames(*tag), "TPOS"@) {
            Some(n) => Some(n as u32),
            None => None::<u32>,
        }),
{
    tag.disc()
}

/// `Tag::comments`: the text of the first comment frame.
#[verifier::external_body]
pub(crate) fn first_comment_of(tag: &Tag) -> (r: Option<String>)
    ensures
        crate::model::opt_text(r) == first_comment(tag_frames(*tag)),
{
    match tag.comments().next() {
        Some(c) => Some(c.text.clone()),
        None => None,
    }
}

/// `Tag::pictures`: the first picture frame.
#[verifier::external_body]
pub(crate) fn first_picture_of(tag: &Tag) -> (r: Option<CoverArt>)
    ensures
        crate::model::cover_view(r) == first_picture(tag_frames(*tag)),
{
    match tag.pictures().next() {
        Some(p) => Some(
            CoverArt {
                mime_type: p.mime_type.clone(),
                description: p.description.clone(),
                data: p.data.clone(),
            },
        ),
        None => None,
    }
}

} // verus!
