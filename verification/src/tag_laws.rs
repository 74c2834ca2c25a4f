//! Properties of reading back the fields written into a tag.
use vstd::prelude::*;

use crate::id3_tag::{
    add_frame, first_comment, first_picture, first_replaced, first_with_id, frame_text,
    pair_first, pair_head, pair_tail, pair_text, pair_total, remove_id, replaced_by, replaced_id, set_text,
    strip_zeros, year_of, FrameView, Replaces,
};
use crate::model::{CoverView, TagDataView};
use crate::repository::{
    apply_fields, clean_frames, comment_step, cover_step, number_step, or_empty, tag_data_of, text_fields_step, text_step,
    year_step, FieldError,
};
use crate::text::{
    all_digits, dec, digit_char, digit_value, digits_value, int_text, is_digit, padded4,
    parse_i32_spec, parse_unsigned, trim, unsigned_digits, zeros,
};

verus! {

/// A kind of frame picked out of a tag.
pub enum Sel {
    /// Frames with this identifier.
    Id(Seq<char>),
    /// Frames with this identifier that a new text frame would not replace.
    StrayText(Seq<char>),
    /// Comment frames.
    Comment,
    /// Comment frames whose identifier is not `COMM`.
    StrayComment,
    /// Picture frames.
    Picture,
    /// Picture frames whose identifier is not `APIC`.
    StrayPicture,
    /// Frames that meet a condition.
    Pred(spec_fn(FrameView) -> bool),
}

/// Whether `s` picks `f`.
pub open spec fn selects(s: Sel, f: FrameView) -> bool {
    match s {
        Sel::Id(y) => f.id() == y,
        Sel::StrayText(y) => f.id() == y && !replaced_by(f, Replaces::Text(y)),
        Sel::Comment => f is Comment,
        Sel::StrayComment => f is Comment && f.id() != "COMM"@,
        Sel::Picture => f is Picture,
        Sel::StrayPicture => f is Picture && f.id() != "APIC"@,
        Sel::Pred(p) => p(f),
    }
}

/// The frames that `s` picks, in order.
pub open spec fn keep(fs: Seq<FrameView>, s: Sel) -> Seq<FrameView>
    decreases fs.len(),
{
    if fs.len() == 0 {
        fs
    } else if selects(s, fs.last()) {
        keep(fs.drop_last(), s).push(fs.last())
    } else {
        keep(fs.drop_last(), s)
    }
}

/// Whether a text identifier appears at most once, on a frame that a new text
/// frame replaces.
pub open spec fn single_text(fs: Seq<FrameView>, id: Seq<char>) -> bool {
    &&& keep(fs, Sel::Id(id)).len() <= 1
    &&& keep(fs, Sel::StrayText(id)).len() == 0
}

/// The tags whose written fields read back unchanged: each of the four plain
/// text fields has at most one frame, which is a text frame or one that a
/// text frame replaces; every comment has identifier `COMM` and every picture
/// identifier `APIC`.
pub open spec fn frames_well_formed(fs: Seq<FrameView>) -> bool {
    &&& single_text(fs, "TIT2"@)
    &&& single_text(fs, "TPE1"@)
    &&& single_text(fs, "TALB"@)
    &&& single_text(fs, "TCON"@)
    &&& keep(fs, Sel::StrayComment).len() == 0
    &&& keep(fs, Sel::StrayPicture).len() == 0
}

/// The number that a non-empty field denotes, as text: empty stays empty.
pub open spec fn canonical_unsigned(t: Seq<char>) -> Seq<char> {
    if t.len() == 0 {
        t
    } else {
        match parse_unsigned(t, u32::MAX as nat) {
            Some(n) => dec(n),
            None => Seq::empty(),
        }
    }
}

/// The fields as they read back after being written: texts trimmed, numbers
/// in their plain decimal form, comment trimmed, cover unchanged.
pub open spec fn canonical_fields(d: TagDataView) -> TagDataView {
    TagDataView {
        title: trim(d.title),
        artist: trim(d.artist),
        album: trim(d.album),
        genre: trim(d.genre),
        year: if trim(d.year).len() == 0 {
            Seq::empty()
        } else {
            match parse_i32_spec(trim(d.year)) {
                Some(y) => int_text(y),
                None => Seq::empty(),
            }
        },
        track: canonical_unsigned(trim(d.track)),
        disc: canonical_unsigned(trim(d.disc)),
        comment: trim(d.comment),
        cover: d.cover,
    }
}

/// Whether year, track and disc are each empty or a number.
pub open spec fn numbers_accepted(d: TagDataView) -> bool {
    &&& (trim(d.year).len() == 0 || parse_i32_spec(trim(d.year)) is Some)
    &&& (trim(d.track).len() == 0 || parse_unsigned(trim(d.track), u32::MAX as nat) is Some)
    &&& (trim(d.disc).len() == 0 || parse_unsigned(trim(d.disc), u32::MAX as nat) is Some)
}

proof fn lemma_digit_char(d: nat)
    requires
        d < 10,
    ensures
        is_digit(digit_char(d)),
        digit_value(digit_char(d)) == d,
{
}

pub proof fn lemma_dec(n: nat)
    ensures
        dec(n).len() > 0,
        all_digits(dec(n)),
        digits_value(dec(n)) == n,
        n > 0 ==> dec(n)[0] != '0',
    decreases n,
{
    if n < 10 {
        lemma_digit_char(n);
        assert(dec(n).drop_last() =~= Seq::<char>::empty());
        assert(digits_value(dec(n)) == digits_value(Seq::<char>::empty()) * 10 + n);
    } else {
        lemma_dec(n / 10);
        lemma_digit_char(n % 10);
        let s = dec(n / 10).push(digit_char(n % 10));
        assert(s.drop_last() =~= dec(n / 10));
        assert(s[0] == dec(n / 10)[0]);
        assert(digits_value(s) == digits_value(dec(n / 10)) * 10 + digit_value(digit_char(n % 10)));
        assert((n / 10) * 10 + n % 10 == n);
    }
}

} // verus!

verus! {

// ---------------------------------------------------------------------------
// Picking frames
// ---------------------------------------------------------------------------

proof fn lemma_keep_push(fs: Seq<FrameView>, g: FrameView, s: Sel)
    ensures
        keep(fs.push(g), s) == (if selects(s, g) {
            keep(fs, s).push(g)
        } else {
            keep(fs, s)
        }),
{
    assert(fs.push(g).drop_last() =~= fs);
}

proof fn lemma_keep_selected(fs: Seq<FrameView>, s: Sel)
    ensures
        forall|k: int| 0 <= k < keep(fs, s).len() ==> selects(s, #[trigger] keep(fs, s)[k]),
    decreases fs.len(),
{
    if fs.len() > 0 {
        let dl = fs.drop_last();
        lemma_keep_selected(dl, s);
        if selects(s, fs.last()) {
            assert forall|k: int| 0 <= k < keep(fs, s).len() implies selects(
                s,
                #[trigger] keep(fs, s)[k],
            ) by {
                if k < keep(dl, s).len() {
                    assert(keep(fs, s)[k] == keep(dl, s)[k]);
                }
            }
        }
    }
}

proof fn lemma_keep_empty(fs: Seq<FrameView>, s: Sel)
    ensures
        (keep(fs, s).len() == 0) == (forall|j: int| 0 <= j < fs.len() ==> !selects(s, #[trigger] fs[j])),
    decreases fs.len(),
{
    if fs.len() > 0 {
        let dl = fs.drop_last();
        lemma_keep_empty(dl, s);
        assert forall|j: int| 0 <= j < dl.len() implies #[trigger] dl[j] == fs[j] by {}
        if keep(fs, s).len() == 0 {
            assert forall|j: int| 0 <= j < fs.len() implies !selects(s, #[trigger] fs[j]) by {
                if j < fs.len() - 1 {
                    assert(dl[j] == fs[j]);
                }
            }
        }
        if forall|j: int| 0 <= j < fs.len() ==> !selects(s, #[trigger] fs[j]) {
            assert(!selects(s, fs[fs.len() - 1]));
            assert forall|j: int| 0 <= j < dl.len() implies !selects(s, #[trigger] dl[j]) by {
                assert(dl[j] == fs[j]);
            }
        }
    }
}

proof fn lemma_keep_contains(fs: Seq<FrameView>, s: Sel, j: int)
    requires
        0 <= j < fs.len(),
        selects(s, fs[j]),
    ensures
        keep(fs, s).contains(fs[j]),
    decreases fs.len(),
{
    let dl = fs.drop_last();
    if j == fs.len() - 1 {
        assert(keep(fs, s).last() == fs[j]);
    } else {
        assert(dl[j] == fs[j]);
        lemma_keep_contains(dl, s, j);
        let k = choose|k: int| 0 <= k < keep(dl, s).len() && keep(dl, s)[k] == fs[j];
        if selects(s, fs.last()) {
            assert(keep(fs, s)[k] == fs[j]);
        }
    }
}

proof fn lemma_keep_remove_id(fs: Seq<FrameView>, x: Seq<char>, s: Sel)
    requires
        forall|j: int| 0 <= j < fs.len() && selects(s, #[trigger] fs[j]) ==> fs[j].id() != x,
    ensures
        keep(remove_id(fs, x), s) == keep(fs, s),
    decreases fs.len(),
{
    if fs.len() > 0 {
        let dl = fs.drop_last();
        assert forall|j: int| 0 <= j < dl.len() && selects(s, #[trigger] dl[j]) implies dl[j].id()
            != x by {
            assert(dl[j] == fs[j]);
        }
        lemma_keep_remove_id(dl, x, s);
        assert(fs.last() == fs[fs.len() - 1]);
        if fs.last().id() != x {
            lemma_keep_push(remove_id(dl, x), fs.last(), s);
        }
    }
}

proof fn lemma_keep_remove_id_le(fs: Seq<FrameView>, x: Seq<char>, s: Sel)
    ensures
        keep(remove_id(fs, x), s).len() <= keep(fs, s).len(),
    decreases fs.len(),
{
    if fs.len() > 0 {
        let dl = fs.drop_last();
        lemma_keep_remove_id_le(dl, x, s);
        if fs.last().id() != x {
            lemma_keep_push(remove_id(dl, x), fs.last(), s);
        }
    }
}

proof fn lemma_keep_remove_id_all(fs: Seq<FrameView>, x: Seq<char>, s: Sel)
    requires
        forall|j: int| 0 <= j < fs.len() && selects(s, #[trigger] fs[j]) ==> fs[j].id() == x,
    ensures
        keep(remove_id(fs, x), s).len() == 0,
    decreases fs.len(),
{
    if fs.len() > 0 {
        let dl = fs.drop_last();
        assert forall|j: int| 0 <= j < dl.len() && selects(s, #[trigger] dl[j]) implies dl[j].id()
            == x by {
            assert(dl[j] == fs[j]);
        }
        lemma_keep_remove_id_all(dl, x, s);
        assert(fs.last() == fs[fs.len() - 1]);
        if fs.last().id() != x {
            lemma_keep_push(remove_id(dl, x), fs.last(), s);
        }
    }
}

/// No frame with identifier `x` is left after removing them.
proof fn lemma_no_id_left(fs: Seq<FrameView>, x: Seq<char>)
    ensures
        forall|j: int|
            0 <= j < remove_id(fs, x).len() ==> (#[trigger] remove_id(fs, x)[j]).id() != x,
{
    lemma_keep_remove_id_all(fs, x, Sel::Id(x));
    lemma_keep_empty(remove_id(fs, x), Sel::Id(x));
}

proof fn lemma_keep_remove_at(fs: Seq<FrameView>, i: int, s: Sel)
    requires
        0 <= i < fs.len(),
    ensures
        selects(s, fs[i]) ==> keep(fs.remove(i), s).len() + 1 == keep(fs, s).len(),
        !selects(s, fs[i]) ==> keep(fs.remove(i), s) == keep(fs, s),
    decreases fs.len(),
{
    let dl = fs.drop_last();
    if i == fs.len() - 1 {
        assert(fs.remove(i) =~= dl);
    } else {
        assert(fs.remove(i) =~= dl.remove(i).push(fs.last()));
        assert(dl[i] == fs[i]);
        lemma_keep_remove_at(dl, i, s);
        lemma_keep_push(dl.remove(i), fs.last(), s);
    }
}

proof fn lemma_first_replaced(fs: Seq<FrameView>, r: Replaces)
    ensures
        match first_replaced(fs, r) {
            Some(i) => 0 <= i < fs.len() && replaced_by(fs[i], r),
            None => forall|j: int| 0 <= j < fs.len() ==> !replaced_by(#[trigger] fs[j], r),
        },
    decreases fs.len(),
{
    if fs.len() > 0 {
        let dl = fs.drop_last();
        lemma_first_replaced(dl, r);
        assert forall|j: int| 0 <= j < dl.len() implies #[trigger] dl[j] == fs[j] by {}
        if first_replaced(dl, r) is None && !replaced_by(fs.last(), r) {
            assert forall|j: int| 0 <= j < fs.len() implies !replaced_by(#[trigger] fs[j], r) by {
                if j < fs.len() - 1 {
                    assert(dl[j] == fs[j]);
                }
            }
        }
    }
}

proof fn lemma_add_frame_keep(fs: Seq<FrameView>, r: Replaces, new: FrameView, s: Sel)
    requires
        forall|j: int| 0 <= j < fs.len() && replaced_by(#[trigger] fs[j], r) ==> !selects(s, fs[j]),
        !selects(s, new),
    ensures
        keep(add_frame(fs, r, new), s) == keep(fs, s),
{
    lemma_first_replaced(fs, r);
    match first_replaced(fs, r) {
        Some(i) => {
            lemma_keep_remove_at(fs, i, s);
            lemma_keep_push(fs.remove(i), new, s);
        },
        None => {
            lemma_keep_push(fs, new, s);
        },
    }
}

proof fn lemma_add_frame_keep_le(fs: Seq<FrameView>, r: Replaces, new: FrameView, s: Sel)
    requires
        !selects(s, new),
    ensures
        keep(add_frame(fs, r, new), s).len() <= keep(fs, s).len(),
{
    lemma_first_replaced(fs, r);
    match first_replaced(fs, r) {
        Some(i) => {
            lemma_keep_remove_at(fs, i, s);
            lemma_keep_push(fs.remove(i), new, s);
        },
        None => {
            lemma_keep_push(fs, new, s);
        },
    }
}

/// Adding a frame to a tag that holds none that it replaces and none that
/// `s` picks leaves exactly the new frame picked, when `s` picks it.
proof fn lemma_add_frame_alone(fs: Seq<FrameView>, r: Replaces, new: FrameView, s: Sel)
    requires
        keep(fs, s).len() == 0,
        forall|j: int| 0 <= j < fs.len() ==> !replaced_by(#[trigger] fs[j], r),
        selects(s, new),
    ensures
        keep(add_frame(fs, r, new), s) == seq![new],
{
    lemma_first_replaced(fs, r);
    lemma_keep_push(fs, new, s);
    assert(keep(fs, s).push(new) =~= seq![new]);
}

// ---------------------------------------------------------------------------
// Getters in terms of picked frames
// ---------------------------------------------------------------------------

proof fn lemma_first_with_id(fs: Seq<FrameView>, y: Seq<char>)
    ensures
        first_with_id(fs, y) == (if keep(fs, Sel::Id(y)).len() > 0 {
            Some(keep(fs, Sel::Id(y))[0])
        } else {
            None
        }),
    decreases fs.len(),
{
    if fs.len() > 0 {
        lemma_first_with_id(fs.drop_last(), y);
    }
}

/// The text of a comment frame.
pub open spec fn comment_text(f: FrameView) -> Option<Seq<char>> {
    match f {
        FrameView::Comment { text, .. } => Some(text),
        _ => None,
    }
}

/// The cover that a picture frame holds.
pub open spec fn picture_cover(f: FrameView) -> Option<CoverView> {
    match f {
        FrameView::Picture { mime_type, description, data, .. } => Some(
            CoverView { mime_type, description, data },
        ),
        _ => None,
    }
}

proof fn lemma_first_comment(fs: Seq<FrameView>)
    ensures
        first_comment(fs) == (if keep(fs, Sel::Comment).len() > 0 {
            comment_text(keep(fs, Sel::Comment)[0])
        } else {
            None
        }),
    decreases fs.len(),
{
    if fs.len() > 0 {
        let dl = fs.drop_last();
        lemma_first_comment(dl);
        lemma_keep_push(dl, fs.last(), Sel::Comment);
        lemma_keep_selected(dl, Sel::Comment);
        assert(fs =~= dl.push(fs.last()));
        if keep(dl, Sel::Comment).len() > 0 {
            assert(keep(fs, Sel::Comment)[0] == keep(dl, Sel::Comment)[0]);
        }
    }
}

proof fn lemma_first_picture(fs: Seq<FrameView>)
    ensures
        first_picture(fs) == (if keep(fs, Sel::Picture).len() > 0 {
            picture_cover(keep(fs, Sel::Picture)[0])
        } else {
            None
        }),
    decreases fs.len(),
{
    if fs.len() > 0 {
        let dl = fs.drop_last();
        lemma_first_picture(dl);
        lemma_keep_push(dl, fs.last(), Sel::Picture);
        lemma_keep_selected(dl, Sel::Picture);
        assert(fs =~= dl.push(fs.last()));
        if keep(dl, Sel::Picture).len() > 0 {
            assert(keep(fs, Sel::Picture)[0] == keep(dl, Sel::Picture)[0]);
        }
    }
}

} // verus!

verus! {

// ---------------------------------------------------------------------------
// Steps of writing the fields
// ---------------------------------------------------------------------------

proof fn lemma_set_text_keep(fs: Seq<FrameView>, x: Seq<char>, t: Seq<char>, s: Sel)
    requires
        forall|f: FrameView| selects(s, f) ==> f.id() != x,
    ensures
        keep(set_text(fs, x, t), s) == keep(fs, s),
{
    assert forall|j: int| 0 <= j < fs.len() && replaced_by(#[trigger] fs[j], Replaces::Text(x)) implies !selects(
        s,
        fs[j],
    ) by {}
    let new = FrameView::Text { id: x, text: t };
    assert(new.id() == x);
    assert(selects(s, new) ==> new.id() != x);
    lemma_add_frame_keep(fs, Replaces::Text(x), FrameView::Text { id: x, text: t }, s);
}

proof fn lemma_remove_keep(fs: Seq<FrameView>, x: Seq<char>, s: Sel)
    requires
        forall|f: FrameView| selects(s, f) ==> f.id() != x,
    ensures
        keep(remove_id(fs, x), s) == keep(fs, s),
{
    lemma_keep_remove_id(fs, x, s);
}

proof fn lemma_set_text_le(fs: Seq<FrameView>, x: Seq<char>, t: Seq<char>, s: Sel)
    requires
        forall|f: FrameView| selects(s, f) ==> !(f is Text),
    ensures
        keep(set_text(fs, x, t), s).len() <= keep(fs, s).len(),
{
    lemma_add_frame_keep_le(fs, Replaces::Text(x), FrameView::Text { id: x, text: t }, s);
}

proof fn lemma_text_step_keep(fs: Seq<FrameView>, x: Seq<char>, v: Seq<char>, s: Sel)
    requires
        forall|f: FrameView| selects(s, f) ==> f.id() != x,
    ensures
        keep(text_step(fs, x, v), s) == keep(fs, s),
{
    if trim(v).len() == 0 {
        lemma_remove_keep(fs, x, s);
    } else {
        lemma_set_text_keep(fs, x, trim(v), s);
    }
}

proof fn lemma_text_step_le(fs: Seq<FrameView>, x: Seq<char>, v: Seq<char>, s: Sel)
    requires
        forall|f: FrameView| selects(s, f) ==> !(f is Text),
    ensures
        keep(text_step(fs, x, v), s).len() <= keep(fs, s).len(),
{
    if trim(v).len() == 0 {
        lemma_keep_remove_id_le(fs, x, s);
    } else {
        lemma_set_text_le(fs, x, trim(v), s);
    }
}

/// Setting a text frame whose identifier appears at most once, on a
/// replaceable frame, leaves exactly the new frame with that identifier.
proof fn lemma_set_text_single(fs: Seq<FrameView>, y: Seq<char>, t: Seq<char>)
    requires
        single_text(fs, y),
    ensures
        keep(set_text(fs, y, t), Sel::Id(y)) == seq![FrameView::Text { id: y, text: t }],
{
    let new = FrameView::Text { id: y, text: t };
    lemma_keep_empty(fs, Sel::StrayText(y));
    lemma_first_replaced(fs, Replaces::Text(y));
    match first_replaced(fs, Replaces::Text(y)) {
        Some(i) => {
            lemma_keep_remove_at(fs, i, Sel::Id(y));
            lemma_keep_push(fs.remove(i), new, Sel::Id(y));
            assert(keep(fs.remove(i), Sel::Id(y)).push(new) =~= seq![new]);
        },
        None => {
            assert forall|j: int| 0 <= j < fs.len() implies !selects(Sel::Id(y), #[trigger] fs[j]) by {
                assert(!selects(Sel::StrayText(y), fs[j]));
            }
            lemma_keep_empty(fs, Sel::Id(y));
            lemma_add_frame_alone(fs, Replaces::Text(y), new, Sel::Id(y));
        },
    }
}

/// A tag with no frame of identifier `y` holds a single one.
proof fn lemma_none_is_single(fs: Seq<FrameView>, y: Seq<char>)
    requires
        keep(fs, Sel::Id(y)).len() == 0,
    ensures
        single_text(fs, y),
{
    lemma_keep_empty(fs, Sel::Id(y));
    lemma_keep_empty(fs, Sel::StrayText(y));
}

proof fn lemma_text_step_own(fs: Seq<FrameView>, y: Seq<char>, v: Seq<char>)
    requires
        single_text(fs, y),
    ensures
        keep(text_step(fs, y, v), Sel::Id(y)) == (if trim(v).len() == 0 {
            Seq::<FrameView>::empty()
        } else {
            seq![FrameView::Text { id: y, text: trim(v) }]
        }),
{
    if trim(v).len() == 0 {
        lemma_keep_remove_id_all(fs, y, Sel::Id(y));
        assert(keep(remove_id(fs, y), Sel::Id(y)) =~= Seq::<FrameView>::empty());
    } else {
        lemma_set_text_single(fs, y, trim(v));
    }
}

/// Removing frame `y` and setting it again leaves exactly the new frame.
proof fn lemma_reset_text(fs: Seq<FrameView>, y: Seq<char>, t: Seq<char>)
    requires
        keep(fs, Sel::Id(y)).len() == 0,
    ensures
        keep(set_text(fs, y, t), Sel::Id(y)) == seq![FrameView::Text { id: y, text: t }],
{
    lemma_none_is_single(fs, y);
    lemma_set_text_single(fs, y, t);
}

proof fn lemma_year_step_keep(fs: Seq<FrameView>, year: Seq<char>, s: Sel)
    requires
        forall|f: FrameView| selects(s, f) ==> f.id() != "TYER"@ && f.id() != "TDRC"@,
    ensures
        keep(year_step(fs, year).0, s) == keep(fs, s),
{
    let f = remove_id(remove_id(fs, "TYER"@), "TDRC"@);
    lemma_remove_keep(fs, "TYER"@, s);
    lemma_remove_keep(remove_id(fs, "TYER"@), "TDRC"@, s);
    if trim(year).len() != 0 {
        if let Some(y) = parse_i32_spec(trim(year)) {
            lemma_set_text_keep(f, "TYER"@, padded4(y), s);
        }
    }
}

proof fn lemma_year_step_le(fs: Seq<FrameView>, year: Seq<char>, s: Sel)
    requires
        forall|f: FrameView| selects(s, f) ==> !(f is Text),
    ensures
        keep(year_step(fs, year).0, s).len() <= keep(fs, s).len(),
{
    let f = remove_id(remove_id(fs, "TYER"@), "TDRC"@);
    lemma_keep_remove_id_le(fs, "TYER"@, s);
    lemma_keep_remove_id_le(remove_id(fs, "TYER"@), "TDRC"@, s);
    if trim(year).len() != 0 {
        if let Some(y) = parse_i32_spec(trim(year)) {
            lemma_set_text_le(f, "TYER"@, padded4(y), s);
        }
    }
}

proof fn lemma_year_step_own(fs: Seq<FrameView>, year: Seq<char>)
    ensures
        trim(year).len() == 0 ==> keep(year_step(fs, year).0, Sel::Id("TYER"@)).len() == 0,
        trim(year).len() != 0 ==> (parse_i32_spec(trim(year)) matches Some(y) ==> keep(
            year_step(fs, year).0,
            Sel::Id("TYER"@),
        ) == seq![FrameView::Text { id: "TYER"@, text: padded4(y) }]),
{
    reveal_strlit("TYER");
    reveal_strlit("TDRC");
    assert("TYER"@ != "TDRC"@) by {
        assert("TYER"@[1] != "TDRC"@[1]);
    }
    let f1 = remove_id(fs, "TYER"@);
    let f = remove_id(f1, "TDRC"@);
    lemma_keep_remove_id_all(fs, "TYER"@, Sel::Id("TYER"@));
    lemma_remove_keep(f1, "TDRC"@, Sel::Id("TYER"@));
    if trim(year).len() != 0 {
        if let Some(y) = parse_i32_spec(trim(year)) {
            lemma_reset_text(f, "TYER"@, padded4(y));
        }
    }
}

proof fn lemma_number_step_keep(fs: Seq<FrameView>, id: Seq<char>, v: Seq<char>, err: FieldError, s: Sel)
    requires
        forall|f: FrameView| selects(s, f) ==> f.id() != id,
    ensures
        keep(number_step(fs, id, v, err).0, s) == keep(fs, s),
{
    let f = remove_id(fs, id);
    lemma_remove_keep(fs, id, s);
    if trim(v).len() != 0 {
        if let Some(n) = parse_unsigned(trim(v), u32::MAX as nat) {
            lemma_set_text_keep(f, id, pair_text(n, pair_total(f, id)), s);
        }
    }
}

proof fn lemma_number_step_le(fs: Seq<FrameView>, id: Seq<char>, v: Seq<char>, err: FieldError, s: Sel)
    requires
        forall|f: FrameView| selects(s, f) ==> !(f is Text),
    ensures
        keep(number_step(fs, id, v, err).0, s).len() <= keep(fs, s).len(),
{
    let f = remove_id(fs, id);
    lemma_keep_remove_id_le(fs, id, s);
    if trim(v).len() != 0 {
        if let Some(n) = parse_unsigned(trim(v), u32::MAX as nat) {
            lemma_set_text_le(f, id, pair_text(n, pair_total(f, id)), s);
        }
    }
}

proof fn lemma_number_step_own(fs: Seq<FrameView>, id: Seq<char>, v: Seq<char>, err: FieldError)
    ensures
        trim(v).len() == 0 ==> keep(number_step(fs, id, v, err).0, Sel::Id(id)).len() == 0,
        trim(v).len() != 0 ==> (parse_unsigned(trim(v), u32::MAX as nat) matches Some(n) ==> keep(
            number_step(fs, id, v, err).0,
            Sel::Id(id),
        ) == seq![FrameView::Text { id: id, text: dec(n) }]),
{
    let f = remove_id(fs, id);
    lemma_keep_remove_id_all(fs, id, Sel::Id(id));
    if trim(v).len() != 0 {
        if let Some(n) = parse_unsigned(trim(v), u32::MAX as nat) {
            lemma_first_with_id(f, id);
            assert(pair_total(f, id) is None);
            lemma_reset_text(f, id, dec(n));
        }
    }
}

proof fn lemma_comment_step_keep(fs: Seq<FrameView>, c: Seq<char>, s: Sel)
    requires
        forall|j: int| 0 <= j < fs.len() && selects(s, #[trigger] fs[j]) ==> fs[j].id() != "COMM"@,
        forall|f: FrameView| selects(s, f) && (f is Comment) ==> f.id() != "COMM"@,
    ensures
        keep(comment_step(fs, c), s) == keep(fs, s),
{
    let f = remove_id(fs, "COMM"@);
    lemma_keep_remove_id(fs, "COMM"@, s);
    if trim(c).len() != 0 {
        let r = Replaces::Comment("spa"@, Seq::empty());
        let new = FrameView::Comment {
            id: "COMM"@,
            lang: "spa"@,
            description: Seq::empty(),
            text: trim(c),
        };
        lemma_no_id_left(fs, "COMM"@);
        assert forall|j: int| 0 <= j < f.len() && replaced_by(#[trigger] f[j], r) implies !selects(
            s,
            f[j],
        ) by {
            assert(!selects(Sel::Id("COMM"@), f[j]));
        }
        assert(new is Comment && new.id() == "COMM"@);
        assert(!selects(s, new));
        lemma_add_frame_keep(f, r, new, s);
    }
}

proof fn lemma_comment_step_le(fs: Seq<FrameView>, c: Seq<char>, s: Sel)
    requires
        forall|f: FrameView| selects(s, f) ==> !(f is Comment),
    ensures
        keep(comment_step(fs, c), s).len() <= keep(fs, s).len(),
{
    let f = remove_id(fs, "COMM"@);
    lemma_keep_remove_id_le(fs, "COMM"@, s);
    if trim(c).len() != 0 {
        lemma_add_frame_keep_le(
            f,
            Replaces::Comment("spa"@, Seq::empty()),
            FrameView::Comment {
                id: "COMM"@,
                lang: "spa"@,
                description: Seq::empty(),
                text: trim(c),
            },
            s,
        );
    }
}

proof fn lemma_comment_step_own(fs: Seq<FrameView>, c: Seq<char>)
    requires
        keep(fs, Sel::StrayComment).len() == 0,
    ensures
        keep(comment_step(fs, c), Sel::Comment) == (if trim(c).len() == 0 {
            Seq::<FrameView>::empty()
        } else {
            seq![
                FrameView::Comment {
                    id: "COMM"@,
                    lang: "spa"@,
                    description: Seq::empty(),
                    text: trim(c),
                },
            ]
        }),
{
    let f = remove_id(fs, "COMM"@);
    lemma_keep_empty(fs, Sel::StrayComment);
    assert forall|j: int| 0 <= j < fs.len() && selects(Sel::Comment, #[trigger] fs[j]) implies fs[j].id()
        == "COMM"@ by {
        assert(!selects(Sel::StrayComment, fs[j]));
    }
    lemma_keep_remove_id_all(fs, "COMM"@, Sel::Comment);
    if trim(c).len() == 0 {
        assert(keep(f, Sel::Comment) =~= Seq::<FrameView>::empty());
    } else {
        lemma_keep_empty(f, Sel::Comment);
        let r = Replaces::Comment("spa"@, Seq::empty());
        lemma_no_id_left(fs, "COMM"@);
        assert forall|j: int| 0 <= j < f.len() implies !replaced_by(#[trigger] f[j], r) by {
            assert(!selects(Sel::Id("COMM"@), f[j]));
        }
        lemma_add_frame_alone(
            f,
            r,
            FrameView::Comment {
                id: "COMM"@,
                lang: "spa"@,
                description: Seq::empty(),
                text: trim(c),
            },
            Sel::Comment,
        );
    }
}

/// The picture frame that a cover becomes.
pub open spec fn cover_frame(c: CoverView) -> FrameView {
    FrameView::Picture {
        id: "APIC"@,
        mime_type: c.mime_type,
        picture_type: "Front cover"@,
        description: c.description,
        data: c.data,
    }
}

proof fn lemma_cover_step_keep(fs: Seq<FrameView>, cover: Option<CoverView>, s: Sel)
    requires
        forall|j: int| 0 <= j < fs.len() && selects(s, #[trigger] fs[j]) ==> fs[j].id() != "APIC"@,
        forall|f: FrameView| selects(s, f) && (f is Picture) ==> f.id() != "APIC"@,
    ensures
        keep(cover_step(fs, cover), s) == keep(fs, s),
{
    let f = remove_id(fs, "APIC"@);
    lemma_keep_remove_id(fs, "APIC"@, s);
    if let Some(c) = cover {
        assert(cover_step(fs, cover) == add_frame(f, Replaces::FrontCover, cover_frame(c)));
        lemma_no_id_left(fs, "APIC"@);
        assert forall|j: int| 0 <= j < f.len() && replaced_by(#[trigger] f[j], Replaces::FrontCover) implies !selects(
            s,
            f[j],
        ) by {
            assert(!selects(Sel::Id("APIC"@), f[j]));
        }
        assert(cover_frame(c) is Picture && cover_frame(c).id() == "APIC"@);
        assert(!selects(s, cover_frame(c)));
        lemma_add_frame_keep(f, Replaces::FrontCover, cover_frame(c), s);
    }
}

proof fn lemma_cover_step_own(fs: Seq<FrameView>, cover: Option<CoverView>)
    requires
        keep(fs, Sel::StrayPicture).len() == 0,
    ensures
        keep(cover_step(fs, cover), Sel::Picture) == (match cover {
            None => Seq::<FrameView>::empty(),
            Some(c) => seq![cover_frame(c)],
        }),
{
    let f = remove_id(fs, "APIC"@);
    lemma_keep_empty(fs, Sel::StrayPicture);
    assert forall|j: int| 0 <= j < fs.len() && selects(Sel::Picture, #[trigger] fs[j]) implies fs[j].id()
        == "APIC"@ by {
        assert(!selects(Sel::StrayPicture, fs[j]));
    }
    lemma_keep_remove_id_all(fs, "APIC"@, Sel::Picture);
    match cover {
        None => {
            assert(keep(f, Sel::Picture) =~= Seq::<FrameView>::empty());
        },
        Some(c) => {
            assert(cover_step(fs, cover) == add_frame(f, Replaces::FrontCover, cover_frame(c)));
            lemma_keep_empty(f, Sel::Picture);
            lemma_no_id_left(fs, "APIC"@);
            assert forall|j: int| 0 <= j < f.len() implies !replaced_by(
                #[trigger] f[j],
                Replaces::FrontCover,
            ) by {
                assert(!selects(Sel::Id("APIC"@), f[j]));
            }
            lemma_add_frame_alone(f, Replaces::FrontCover, cover_frame(c), Sel::Picture);
        },
    }
}

} // verus!

verus! {

// ---------------------------------------------------------------------------
// Numbers written and read back
// ---------------------------------------------------------------------------

proof fn lemma_zeros_prefix(k: int, s: Seq<char>)
    ensures
        strip_zeros(zeros(k) + s) == strip_zeros(s),
        all_digits(s) ==> all_digits(zeros(k) + s),
        all_digits(s) ==> digits_value(zeros(k) + s) == digits_value(s),
    decreases k,
{
    if k > 0 {
        lemma_zeros_prefix(k - 1, s);
        let t = zeros(k) + s;
        assert(t.drop_first() =~= zeros(k - 1) + s);
        assert(t[0] == '0');
        if all_digits(s) {
            assert(all_digits(t)) by {
                assert forall|i: int| 0 <= i < t.len() implies is_digit(#[trigger] t[i]) by {
                    if i >= k {
                        assert(t[i] == s[i - k]);
                    }
                }
            }
            lemma_leading_zero_value(zeros(k - 1) + s);
            assert(t =~= seq!['0'] + (zeros(k - 1) + s));
        }
    } else {
        assert(zeros(k) + s =~= s);
    }
}

proof fn lemma_leading_zero_value(s: Seq<char>)
    ensures
        digits_value(seq!['0'] + s) == digits_value(s),
    decreases s.len(),
{
    let t = seq!['0'] + s;
    assert(digit_value('0') == 0);
    if s.len() == 0 {
        assert(t.drop_last() =~= Seq::<char>::empty());
        assert(t.last() == '0');
        assert(digits_value(t) == digits_value(t.drop_last()) * 10 + digit_value(t.last()));
    } else {
        lemma_leading_zero_value(s.drop_last());
        assert(t.drop_last() =~= seq!['0'] + s.drop_last());
        assert(t.last() == s.last());
    }
}

proof fn lemma_pair_head_digits(s: Seq<char>)
    requires
        all_digits(s),
    ensures
        pair_head(s) == s,
        pair_tail(s) is None,
    decreases s.len(),
{
    if s.len() > 0 {
        assert(is_digit(s[0]));
        let t = s.drop_first();
        assert(all_digits(t)) by {
            assert forall|i: int| 0 <= i < t.len() implies is_digit(#[trigger] t[i]) by {
                assert(t[i] == s[i + 1]);
            }
        }
        lemma_pair_head_digits(t);
        assert(seq![s[0]] + t =~= s);
    }
}

/// A number written as a track or disc reads back as the same number.
pub proof fn lemma_number_read_back(n: nat)
    requires
        n <= u32::MAX,
    ensures
        parse_unsigned(pair_head(dec(n)), u32::MAX as nat) == Some(n),
{
    lemma_dec(n);
    lemma_pair_head_digits(dec(n));
    assert(is_digit(dec(n)[0]));
    assert(unsigned_digits(dec(n)) == dec(n));
}

/// A year other than zero, written zero-padded, reads back as the same year.
pub proof fn lemma_year_read_back(y: int)
    requires
        i32::MIN <= y <= i32::MAX,
        y != 0,
    ensures
        parse_i32_spec(strip_zeros(padded4(y))) == Some(y),
{
    if y > 0 {
        let d = dec(y as nat);
        lemma_dec(y as nat);
        lemma_zeros_prefix(4 - d.len(), d);
        assert(strip_zeros(d) == d);
        assert(is_digit(d[0]));
        assert(unsigned_digits(d) == d);
    } else {
        let d = dec((-y) as nat);
        lemma_dec((-y) as nat);
        let z = zeros(3 - d.len());
        let p = seq!['-'] + z + d;
        assert(padded4(y) == p);
        assert(strip_zeros(p) == p);
        assert(p.drop_first() =~= z + d);
        lemma_zeros_prefix(3 - d.len(), d);
        assert(zeros(3 - d.len()) == zeros(if 3 - d.len() > 0 { 3 - d.len() } else { 0 }));
    }
}

} // verus!

verus! {

// ---------------------------------------------------------------------------
// Reading back what was written
// ---------------------------------------------------------------------------

/// The frame identifiers that writing the fields uses are all different.
pub proof fn lemma_ids_distinct()
    ensures
        "TIT2"@ != "TPE1"@,
        "TIT2"@ != "TALB"@,
        "TIT2"@ != "TCON"@,
        "TIT2"@ != "TYER"@,
        "TIT2"@ != "TDRC"@,
        "TIT2"@ != "TRCK"@,
        "TIT2"@ != "TPOS"@,
        "TIT2"@ != "COMM"@,
        "TIT2"@ != "APIC"@,
        "TPE1"@ != "TALB"@,
        "TPE1"@ != "TCON"@,
        "TPE1"@ != "TYER"@,
        "TPE1"@ != "TDRC"@,
        "TPE1"@ != "TRCK"@,
        "TPE1"@ != "TPOS"@,
        "TPE1"@ != "COMM"@,
        "TPE1"@ != "APIC"@,
        "TALB"@ != "TCON"@,
        "TALB"@ != "TYER"@,
        "TALB"@ != "TDRC"@,
        "TALB"@ != "TRCK"@,
        "TALB"@ != "TPOS"@,
        "TALB"@ != "COMM"@,
        "TALB"@ != "APIC"@,
        "TCON"@ != "TYER"@,
        "TCON"@ != "TDRC"@,
        "TCON"@ != "TRCK"@,
        "TCON"@ != "TPOS"@,
        "TCON"@ != "COMM"@,
        "TCON"@ != "APIC"@,
        "TYER"@ != "TDRC"@,
        "TYER"@ != "TRCK"@,
        "TYER"@ != "TPOS"@,
        "TYER"@ != "COMM"@,
        "TYER"@ != "APIC"@,
        "TDRC"@ != "TRCK"@,
        "TDRC"@ != "TPOS"@,
        "TDRC"@ != "COMM"@,
        "TDRC"@ != "APIC"@,
        "TRCK"@ != "TPOS"@,
        "TRCK"@ != "COMM"@,
        "TRCK"@ != "APIC"@,
        "TPOS"@ != "COMM"@,
        "TPOS"@ != "APIC"@,
        "COMM"@ != "APIC"@,
{
    reveal_strlit("TIT2");
    reveal_strlit("TPE1");
    reveal_strlit("TALB");
    reveal_strlit("TCON");
    reveal_strlit("TYER");
    reveal_strlit("TDRC");
    reveal_strlit("TRCK");
    reveal_strlit("TPOS");
    reveal_strlit("COMM");
    reveal_strlit("APIC");
    assert("TIT2"@[1] != "TPE1"@[1]);
    assert("TIT2"@[1] != "TALB"@[1]);
    assert("TIT2"@[1] != "TCON"@[1]);
    assert("TIT2"@[1] != "TYER"@[1]);
    assert("TIT2"@[1] != "TDRC"@[1]);
    assert("TIT2"@[1] != "TRCK"@[1]);
    assert("TIT2"@[1] != "TPOS"@[1]);
    assert("TIT2"@[0] != "COMM"@[0]);
    assert("TIT2"@[0] != "APIC"@[0]);
    assert("TPE1"@[1] != "TALB"@[1]);
    assert("TPE1"@[1] != "TCON"@[1]);
    assert("TPE1"@[1] != "TYER"@[1]);
    assert("TPE1"@[1] != "TDRC"@[1]);
    assert("TPE1"@[1] != "TRCK"@[1]);
    assert("TPE1"@[2] != "TPOS"@[2]);
    assert("TPE1"@[0] != "COMM"@[0]);
    assert("TPE1"@[0] != "APIC"@[0]);
    assert("TALB"@[1] != "TCON"@[1]);
    assert("TALB"@[1] != "TYER"@[1]);
    assert("TALB"@[1] != "TDRC"@[1]);
    assert("TALB"@[1] != "TRCK"@[1]);
    assert("TALB"@[1] != "TPOS"@[1]);
    assert("TALB"@[0] != "COMM"@[0]);
    assert("TALB"@[0] != "APIC"@[0]);
    assert("TCON"@[1] != "TYER"@[1]);
    assert("TCON"@[1] != "TDRC"@[1]);
    assert("TCON"@[1] != "TRCK"@[1]);
    assert("TCON"@[1] != "TPOS"@[1]);
    assert("TCON"@[0] != "COMM"@[0]);
    assert("TCON"@[0] != "APIC"@[0]);
    assert("TYER"@[1] != "TDRC"@[1]);
    assert("TYER"@[1] != "TRCK"@[1]);
    assert("TYER"@[1] != "TPOS"@[1]);
    assert("TYER"@[0] != "COMM"@[0]);
    assert("TYER"@[0] != "APIC"@[0]);
    assert("TDRC"@[1] != "TRCK"@[1]);
    assert("TDRC"@[1] != "TPOS"@[1]);
    assert("TDRC"@[0] != "COMM"@[0]);
    assert("TDRC"@[0] != "APIC"@[0]);
    assert("TRCK"@[1] != "TPOS"@[1]);
    assert("TRCK"@[0] != "COMM"@[0]);
    assert("TRCK"@[0] != "APIC"@[0]);
    assert("TPOS"@[0] != "COMM"@[0]);
    assert("TPOS"@[0] != "APIC"@[0]);
    assert("COMM"@[0] != "APIC"@[0]);
}

/// What the steps after the four plain text fields leave of the frames
/// with a given identifier, for an identifier that those steps never touch.
proof fn lemma_after_text_fields(f1: Seq<FrameView>, d: TagDataView, y: Seq<char>)
    requires
        y != "TYER"@ && y != "TDRC"@ && y != "TRCK"@ && y != "TPOS"@ && y != "COMM"@ && y
            != "APIC"@,
    ensures
        keep(
            cover_step(
                comment_step(
                    number_step(
                        number_step(year_step(f1, d.year).0, "TRCK"@, d.track, FieldError::Track).0,
                        "TPOS"@,
                        d.disc,
                        FieldError::Disc,
                    ).0,
                    d.comment,
                ),
                d.cover,
            ),
            Sel::Id(y),
        ) == keep(f1, Sel::Id(y)),
{
    let s = Sel::Id(y);
    let f2 = year_step(f1, d.year).0;
    let f3 = number_step(f2, "TRCK"@, d.track, FieldError::Track).0;
    let f4 = number_step(f3, "TPOS"@, d.disc, FieldError::Disc).0;
    let f5 = comment_step(f4, d.comment);
    lemma_year_step_keep(f1, d.year, s);
    lemma_after_year(f2, d, y);
}

/// What the steps after the year leave of the frames with a given identifier.
proof fn lemma_after_year(f2: Seq<FrameView>, d: TagDataView, y: Seq<char>)
    requires
        y != "TRCK"@ && y != "TPOS"@ && y != "COMM"@ && y != "APIC"@,
    ensures
        keep(
            cover_step(
                comment_step(
                    number_step(
                        number_step(f2, "TRCK"@, d.track, FieldError::Track).0,
                        "TPOS"@,
                        d.disc,
                        FieldError::Disc,
                    ).0,
                    d.comment,
                ),
                d.cover,
            ),
            Sel::Id(y),
        ) == keep(f2, Sel::Id(y)),
{
    let s = Sel::Id(y);
    let f3 = number_step(f2, "TRCK"@, d.track, FieldError::Track).0;
    lemma_number_step_keep(f2, "TRCK"@, d.track, FieldError::Track, s);
    lemma_after_track(f3, d, y);
}

/// What the steps after the track leave of the frames with a given identifier.
proof fn lemma_after_track(f3: Seq<FrameView>, d: TagDataView, y: Seq<char>)
    requires
        y != "TPOS"@ && y != "COMM"@ && y != "APIC"@,
    ensures
        keep(
            cover_step(
                comment_step(number_step(f3, "TPOS"@, d.disc, FieldError::Disc).0, d.comment),
                d.cover,
            ),
            Sel::Id(y),
        ) == keep(f3, Sel::Id(y)),
{
    let s = Sel::Id(y);
    let f4 = number_step(f3, "TPOS"@, d.disc, FieldError::Disc).0;
    lemma_number_step_keep(f3, "TPOS"@, d.disc, FieldError::Disc, s);
    lemma_after_disc(f4, d, y);
}

/// What the comment and cover steps leave of the frames with a given identifier.
proof fn lemma_after_disc(f4: Seq<FrameView>, d: TagDataView, y: Seq<char>)
    requires
        y != "COMM"@ && y != "APIC"@,
    ensures
        keep(cover_step(comment_step(f4, d.comment), d.cover), Sel::Id(y)) == keep(f4, Sel::Id(y)),
{
    let s = Sel::Id(y);
    let f5 = comment_step(f4, d.comment);
    lemma_comment_step_keep(f4, d.comment, s);
    lemma_cover_step_keep(f5, d.cover, s);
}

/// The text that the first frame with identifier `y` gives, when exactly
/// the text frame `new` has that identifier.
proof fn lemma_text_read(fs: Seq<FrameView>, y: Seq<char>, t: Seq<char>)
    requires
        keep(fs, Sel::Id(y)) == seq![FrameView::Text { id: y, text: t }],
    ensures
        frame_text(fs, y) == Some(t),
{
    lemma_first_with_id(fs, y);
}

proof fn lemma_text_read_none(fs: Seq<FrameView>, y: Seq<char>)
    requires
        keep(fs, Sel::Id(y)).len() == 0,
    ensures
        frame_text(fs, y) is None,
{
    lemma_first_with_id(fs, y);
}

/// A plain text field reads back trimmed.
proof fn lemma_text_field_read(fs: Seq<FrameView>, y: Seq<char>, v: Seq<char>)
    requires
        keep(fs, Sel::Id(y)) == (if trim(v).len() == 0 {
            Seq::<FrameView>::empty()
        } else {
            seq![FrameView::Text { id: y, text: trim(v) }]
        }),
    ensures
        or_empty(frame_text(fs, y)) == trim(v),
{
    if trim(v).len() == 0 {
        lemma_text_read_none(fs, y);
        assert(trim(v) =~= Seq::<char>::empty());
    } else {
        lemma_text_read(fs, y, trim(v));
    }
}

proof fn lemma_text_fields_le(fs: Seq<FrameView>, d: TagDataView, s: Sel)
    requires
        forall|f: FrameView| selects(s, f) ==> !(f is Text),
    ensures
        keep(
            text_step(
                text_step(text_step(text_step(fs, "TIT2"@, d.title), "TPE1"@, d.artist), "TALB"@, d.album),
                "TCON"@,
                d.genre,
            ),
            s,
        ).len() <= keep(fs, s).len(),
{
    let a = text_step(fs, "TIT2"@, d.title);
    let b = text_step(a, "TPE1"@, d.artist);
    let c = text_step(b, "TALB"@, d.album);
    lemma_text_step_le(fs, "TIT2"@, d.title, s);
    lemma_text_step_le(a, "TPE1"@, d.artist, s);
    lemma_text_step_le(b, "TALB"@, d.album, s);
    lemma_text_step_le(c, "TCON"@, d.genre, s);
}

} // verus!

verus! {

/// Writing the fields never stops on a field that is empty or a number.
pub proof fn lemma_fields_accepted(fs: Seq<FrameView>, d: TagDataView)
    ensures
        (apply_fields(fs, d).1 is None) == numbers_accepted(d),
{
}

/// Writing the editable fields into a well-formed tag and reading them back
/// gives the fields trimmed, with year, track and disc in their plain decimal
/// form, and the cover unchanged. A year that reads as zero is written as
/// `0000`, which reads back as no year, so it is left out.
pub proof fn lemma_written_fields_read_back(fs: Seq<FrameView>, d: TagDataView)
    requires
        frames_well_formed(fs),
        numbers_accepted(d),
        trim(d.year).len() != 0 ==> parse_i32_spec(trim(d.year)) != Some(0int),
    ensures
        apply_fields(fs, d).1 is None,
        tag_data_of(apply_fields(fs, d).0) == canonical_fields(d),
        keep(apply_fields(fs, d).0, Sel::StrayComment).len() == 0,
        keep(apply_fields(fs, d).0, Sel::StrayPicture).len() == 0,
{
    lemma_ids_distinct();
    let tit2 = "TIT2"@;
    let tpe1 = "TPE1"@;
    let talb = "TALB"@;
    let tcon = "TCON"@;
    let a = text_step(fs, tit2, d.title);
    let b = text_step(a, tpe1, d.artist);
    let c = text_step(b, talb, d.album);
    let f1 = text_step(c, tcon, d.genre);
    let f2 = year_step(f1, d.year).0;
    let f3 = number_step(f2, "TRCK"@, d.track, FieldError::Track).0;
    let f4 = number_step(f3, "TPOS"@, d.disc, FieldError::Disc).0;
    let f5 = comment_step(f4, d.comment);
    let ff = cover_step(f5, d.cover);
    assert(apply_fields(fs, d) == (ff, None::<FieldError>));

    // The four plain text fields.
    lemma_text_step_own(fs, tit2, d.title);
    lemma_text_step_keep(a, tpe1, d.artist, Sel::Id(tit2));
    lemma_text_step_keep(b, talb, d.album, Sel::Id(tit2));
    lemma_text_step_keep(c, tcon, d.genre, Sel::Id(tit2));

    lemma_text_step_keep(fs, tit2, d.title, Sel::Id(tpe1));
    lemma_text_step_keep(fs, tit2, d.title, Sel::StrayText(tpe1));
    lemma_text_step_own(a, tpe1, d.artist);
    lemma_text_step_keep(b, talb, d.album, Sel::Id(tpe1));
    lemma_text_step_keep(c, tcon, d.genre, Sel::Id(tpe1));

    lemma_text_step_keep(fs, tit2, d.title, Sel::Id(talb));
    lemma_text_step_keep(fs, tit2, d.title, Sel::StrayText(talb));
    lemma_text_step_keep(a, tpe1, d.artist, Sel::Id(talb));
    lemma_text_step_keep(a, tpe1, d.artist, Sel::StrayText(talb));
    lemma_text_step_own(b, talb, d.album);
    lemma_text_step_keep(c, tcon, d.genre, Sel::Id(talb));

    lemma_text_step_keep(fs, tit2, d.title, Sel::Id(tcon));
    lemma_text_step_keep(fs, tit2, d.title, Sel::StrayText(tcon));
    lemma_text_step_keep(a, tpe1, d.artist, Sel::Id(tcon));
    lemma_text_step_keep(a, tpe1, d.artist, Sel::StrayText(tcon));
    lemma_text_step_keep(b, talb, d.album, Sel::Id(tcon));
    lemma_text_step_keep(b, talb, d.album, Sel::StrayText(tcon));
    lemma_text_step_own(c, tcon, d.genre);

    lemma_after_text_fields(f1, d, tit2);
    lemma_after_text_fields(f1, d, tpe1);
    lemma_after_text_fields(f1, d, talb);
    lemma_after_text_fields(f1, d, tcon);
    lemma_text_field_read(ff, tit2, d.title);
    lemma_text_field_read(ff, tpe1, d.artist);
    lemma_text_field_read(ff, talb, d.album);
    lemma_text_field_read(ff, tcon, d.genre);

    // Year, track and disc.
    lemma_year_step_own(f1, d.year);
    lemma_after_year(f2, d, "TYER"@);
    lemma_number_step_own(f2, "TRCK"@, d.track, FieldError::Track);
    lemma_after_track(f3, d, "TRCK"@);
    lemma_number_step_own(f3, "TPOS"@, d.disc, FieldError::Disc);
    lemma_after_disc(f4, d, "TPOS"@);
    if trim(d.year).len() == 0 {
        lemma_text_read_none(ff, "TYER"@);
    } else {
        let y = parse_i32_spec(trim(d.year)).unwrap();
        lemma_text_read(ff, "TYER"@, padded4(y));
        lemma_year_read_back(y);
    }
    if trim(d.track).len() == 0 {
        lemma_text_read_none(ff, "TRCK"@);
        assert(trim(d.track) =~= Seq::<char>::empty());
    } else {
        let n = parse_unsigned(trim(d.track), u32::MAX as nat).unwrap();
        lemma_text_read(ff, "TRCK"@, dec(n));
        lemma_number_read_back(n);
    }
    if trim(d.disc).len() == 0 {
        lemma_text_read_none(ff, "TPOS"@);
        assert(trim(d.disc) =~= Seq::<char>::empty());
    } else {
        let n = parse_unsigned(trim(d.disc), u32::MAX as nat).unwrap();
        lemma_text_read(ff, "TPOS"@, dec(n));
        lemma_number_read_back(n);
    }

    // Comment and cover.
    lemma_text_fields_le(fs, d, Sel::StrayComment);
    lemma_text_fields_le(fs, d, Sel::StrayPicture);
    lemma_year_step_le(f1, d.year, Sel::StrayComment);
    lemma_year_step_le(f1, d.year, Sel::StrayPicture);
    lemma_number_step_le(f2, "TRCK"@, d.track, FieldError::Track, Sel::StrayComment);
    lemma_number_step_le(f2, "TRCK"@, d.track, FieldError::Track, Sel::StrayPicture);
    lemma_number_step_le(f3, "TPOS"@, d.disc, FieldError::Disc, Sel::StrayComment);
    lemma_number_step_le(f3, "TPOS"@, d.disc, FieldError::Disc, Sel::StrayPicture);
    lemma_comment_step_own(f4, d.comment);
    lemma_comment_step_le(f4, d.comment, Sel::StrayPicture);
    assert forall|j: int| 0 <= j < f5.len() && selects(Sel::Comment, #[trigger] f5[j]) implies f5[j].id()
        != "APIC"@ by {
        lemma_keep_contains(f5, Sel::Comment, j);
    }
    lemma_cover_step_keep(f5, d.cover, Sel::Comment);
    lemma_cover_step_own(f5, d.cover);
    lemma_first_comment(ff);
    lemma_first_picture(ff);
    if trim(d.comment).len() == 0 {
        assert(trim(d.comment) =~= Seq::<char>::empty());
    }
    assert(tag_data_of(ff) =~= canonical_fields(d));
    assert forall|j: int| 0 <= j < ff.len() implies !selects(Sel::StrayComment, #[trigger] ff[j])
        && !selects(Sel::StrayPicture, ff[j]) by {
        if ff[j] is Comment {
            lemma_keep_contains(ff, Sel::Comment, j);
        }
        if ff[j] is Picture {
            lemma_keep_contains(ff, Sel::Picture, j);
        }
    }
    lemma_keep_empty(ff, Sel::StrayComment);
    lemma_keep_empty(ff, Sel::StrayPicture);
}

/// Tags that agree on the frames of every field read the same fields.
proof fn lemma_same_fields(f: Seq<FrameView>, g: Seq<FrameView>)
    requires
        keep(f, Sel::Id("TIT2"@)) == keep(g, Sel::Id("TIT2"@)),
        keep(f, Sel::Id("TPE1"@)) == keep(g, Sel::Id("TPE1"@)),
        keep(f, Sel::Id("TALB"@)) == keep(g, Sel::Id("TALB"@)),
        keep(f, Sel::Id("TCON"@)) == keep(g, Sel::Id("TCON"@)),
        keep(f, Sel::Id("TYER"@)) == keep(g, Sel::Id("TYER"@)),
        keep(f, Sel::Id("TRCK"@)) == keep(g, Sel::Id("TRCK"@)),
        keep(f, Sel::Id("TPOS"@)) == keep(g, Sel::Id("TPOS"@)),
        keep(f, Sel::Comment) == keep(g, Sel::Comment),
        keep(f, Sel::Picture) == keep(g, Sel::Picture),
    ensures
        tag_data_of(f) == tag_data_of(g),
{
    lemma_first_with_id(f, "TIT2"@);
    lemma_first_with_id(g, "TIT2"@);
    lemma_first_with_id(f, "TPE1"@);
    lemma_first_with_id(g, "TPE1"@);
    lemma_first_with_id(f, "TALB"@);
    lemma_first_with_id(g, "TALB"@);
    lemma_first_with_id(f, "TCON"@);
    lemma_first_with_id(g, "TCON"@);
    lemma_first_with_id(f, "TYER"@);
    lemma_first_with_id(g, "TYER"@);
    lemma_first_with_id(f, "TRCK"@);
    lemma_first_with_id(g, "TRCK"@);
    lemma_first_with_id(f, "TPOS"@);
    lemma_first_with_id(g, "TPOS"@);
    lemma_first_comment(f);
    lemma_first_comment(g);
    lemma_first_picture(f);
    lemma_first_picture(g);
}

/// The tag that normalisation writes holds no `TLEN` frame, and its fields
/// read back as written: trimmed, numbers in plain decimal form, cover
/// unchanged. A year that reads as zero is left out, as above.
pub proof fn lemma_clean_tag_read_back(d: TagDataView)
    requires
        numbers_accepted(d),
        trim(d.year).len() != 0 ==> parse_i32_spec(trim(d.year)) != Some(0int),
    ensures
        clean_frames(d).1 is None,
        tag_data_of(clean_frames(d).0) == canonical_fields(d),
        forall|j: int| 0 <= j < clean_frames(d).0.len() ==> (#[trigger] clean_frames(d).0[j]).id()
            != "TLEN"@,
{
    let e = Seq::<FrameView>::empty();
    assert(frames_well_formed(e));
    lemma_written_fields_read_back(e, d);
    let ff = apply_fields(e, d).0;
    let g = remove_id(ff, "TLEN"@);
    reveal_strlit("TLEN");
    reveal_strlit("TIT2");
    reveal_strlit("TPE1");
    reveal_strlit("TALB");
    reveal_strlit("TCON");
    reveal_strlit("TYER");
    reveal_strlit("TRCK");
    reveal_strlit("TPOS");
    reveal_strlit("COMM");
    reveal_strlit("APIC");
    assert("TLEN"@ != "TIT2"@ && "TLEN"@ != "TPE1"@ && "TLEN"@ != "TALB"@ && "TLEN"@ != "TCON"@) by {
        assert("TLEN"@[1] == 'L');
        assert("TIT2"@[1] == 'I' && "TPE1"@[1] == 'P' && "TALB"@[1] == 'A' && "TCON"@[1] == 'C');
    }
    assert("TLEN"@ != "TYER"@ && "TLEN"@ != "TRCK"@ && "TLEN"@ != "TPOS"@) by {
        assert("TLEN"@[1] == 'L');
        assert("TYER"@[1] == 'Y' && "TRCK"@[1] == 'R' && "TPOS"@[1] == 'P');
    }
    assert("TLEN"@ != "COMM"@ && "TLEN"@ != "APIC"@) by {
        assert("TLEN"@[0] == 'T' && "COMM"@[0] == 'C' && "APIC"@[0] == 'A');
    }
    lemma_remove_keep(ff, "TLEN"@, Sel::Id("TIT2"@));
    lemma_remove_keep(ff, "TLEN"@, Sel::Id("TPE1"@));
    lemma_remove_keep(ff, "TLEN"@, Sel::Id("TALB"@));
    lemma_remove_keep(ff, "TLEN"@, Sel::Id("TCON"@));
    lemma_remove_keep(ff, "TLEN"@, Sel::Id("TYER"@));
    lemma_remove_keep(ff, "TLEN"@, Sel::Id("TRCK"@));
    lemma_remove_keep(ff, "TLEN"@, Sel::Id("TPOS"@));
    lemma_keep_empty(ff, Sel::StrayComment);
    lemma_keep_empty(ff, Sel::StrayPicture);
    assert forall|j: int| 0 <= j < ff.len() && selects(Sel::Comment, #[trigger] ff[j]) implies ff[j].id()
        != "TLEN"@ by {
        assert(!selects(Sel::StrayComment, ff[j]));
    }
    assert forall|j: int| 0 <= j < ff.len() && selects(Sel::Picture, #[trigger] ff[j]) implies ff[j].id()
        != "TLEN"@ by {
        assert(!selects(Sel::StrayPicture, ff[j]));
    }
    lemma_keep_remove_id(ff, "TLEN"@, Sel::Comment);
    lemma_keep_remove_id(ff, "TLEN"@, Sel::Picture);
    lemma_same_fields(g, ff);
    lemma_keep_remove_id_all(ff, "TLEN"@, Sel::Id("TLEN"@));
    lemma_keep_empty(g, Sel::Id("TLEN"@));
}

} // verus!

verus! {

/// Whether `y` is none of the identifiers that writing the fields touches.
pub open spec fn untouched_id(y: Seq<char>) -> bool {
    &&& y != "TIT2"@ && y != "TPE1"@ && y != "TALB"@ && y != "TCON"@
    &&& y != "TYER"@ && y != "TDRC"@ && y != "TRCK"@ && y != "TPOS"@
    &&& y != "COMM"@ && y != "APIC"@
}

/// Writing the fields keeps every frame whose identifier it does not touch
/// (such as `TLEN`, `TXXX` or `USLT`): the frames with such an identifier
/// are the same, with the same content and in the same order, whether the
/// writing succeeds or stops at a field that is not a number.
pub proof fn lemma_other_frames_kept(fs: Seq<FrameView>, d: TagDataView, y: Seq<char>)
    requires
        untouched_id(y),
    ensures
        keep(apply_fields(fs, d).0, Sel::Id(y)) == keep(fs, Sel::Id(y)),
{
    let s = Sel::Id(y);
    let a = text_step(fs, "TIT2"@, d.title);
    let b = text_step(a, "TPE1"@, d.artist);
    let c = text_step(b, "TALB"@, d.album);
    let f1 = text_step(c, "TCON"@, d.genre);
    lemma_text_step_keep(fs, "TIT2"@, d.title, s);
    lemma_text_step_keep(a, "TPE1"@, d.artist, s);
    lemma_text_step_keep(b, "TALB"@, d.album, s);
    lemma_text_step_keep(c, "TCON"@, d.genre, s);
    assert(f1 == text_fields_step(fs, d));
    let f2 = year_step(f1, d.year).0;
    lemma_year_step_keep(f1, d.year, s);
    let f3 = number_step(f2, "TRCK"@, d.track, FieldError::Track).0;
    lemma_number_step_keep(f2, "TRCK"@, d.track, FieldError::Track, s);
    let f4 = number_step(f3, "TPOS"@, d.disc, FieldError::Disc).0;
    lemma_number_step_keep(f3, "TPOS"@, d.disc, FieldError::Disc, s);
    let f5 = comment_step(f4, d.comment);
    lemma_comment_step_keep(f4, d.comment, s);
    lemma_cover_step_keep(f5, d.cover, s);
}

} // verus!

verus! {

// ---------------------------------------------------------------------------
// Writing the same fields twice
// ---------------------------------------------------------------------------

/// Whether no frame of `s` has identifier `x`.
pub open spec fn absent(s: Seq<FrameView>, x: Seq<char>) -> bool {
    keep(s, Sel::Id(x)).len() == 0
}

proof fn lemma_absent_iff(s: Seq<FrameView>, x: Seq<char>)
    ensures
        absent(s, x) == (forall|j: int| 0 <= j < s.len() ==> (#[trigger] s[j]).id() != x),
{
    lemma_keep_empty(s, Sel::Id(x));
}

proof fn lemma_keep_concat(a: Seq<FrameView>, b: Seq<FrameView>, s: Sel)
    ensures
        keep(a + b, s) == keep(a, s) + keep(b, s),
    decreases b.len(),
{
    if b.len() == 0 {
        assert(a + b =~= a);
        assert(keep(a, s) + keep(b, s) =~= keep(a, s));
    } else {
        let bl = b.drop_last();
        lemma_keep_concat(a, bl, s);
        assert((a + b).drop_last() =~= a + bl);
        assert((a + b).last() == b.last());
        if selects(s, b.last()) {
            assert(keep(a, s) + keep(b, s) =~= (keep(a, s) + keep(bl, s)).push(b.last()));
        }
    }
}

proof fn lemma_remove_concat(a: Seq<FrameView>, b: Seq<FrameView>, x: Seq<char>)
    ensures
        remove_id(a + b, x) == remove_id(a, x) + remove_id(b, x),
    decreases b.len(),
{
    if b.len() == 0 {
        assert(a + b =~= a);
        assert(remove_id(a, x) + remove_id(b, x) =~= remove_id(a, x));
    } else {
        let bl = b.drop_last();
        lemma_remove_concat(a, bl, x);
        assert((a + b).drop_last() =~= a + bl);
        assert((a + b).last() == b.last());
        if b.last().id() != x {
            assert(remove_id(a, x) + remove_id(b, x) =~= (remove_id(a, x) + remove_id(bl, x)).push(
                b.last(),
            ));
        }
    }
}

proof fn lemma_remove_absent(s: Seq<FrameView>, x: Seq<char>)
    requires
        absent(s, x),
    ensures
        remove_id(s, x) == s,
    decreases s.len(),
{
    if s.len() > 0 {
        let dl = s.drop_last();
        lemma_absent_iff(s, x);
        lemma_absent_iff(dl, x);
        assert forall|j: int| 0 <= j < dl.len() implies (#[trigger] dl[j]).id() != x by {
            assert(dl[j] == s[j]);
        }
        assert(s.last() == s[s.len() - 1]);
        lemma_remove_absent(dl, x);
        assert(dl.push(s.last()) =~= s);
    }
}

proof fn lemma_absent_after_remove(s: Seq<FrameView>, x: Seq<char>, y: Seq<char>)
    requires
        absent(s, y),
    ensures
        absent(remove_id(s, x), y),
{
    lemma_keep_remove_id_le(s, x, Sel::Id(y));
}

proof fn lemma_absent_removed(s: Seq<FrameView>, x: Seq<char>)
    ensures
        absent(remove_id(s, x), x),
{
    lemma_keep_remove_id_all(s, x, Sel::Id(x));
}

proof fn lemma_absent_concat(a: Seq<FrameView>, b: Seq<FrameView>, x: Seq<char>)
    requires
        absent(a, x),
        absent(b, x),
    ensures
        absent(a + b, x),
{
    lemma_keep_concat(a, b, Sel::Id(x));
}

proof fn lemma_add_absent(s: Seq<FrameView>, r: Replaces, new: FrameView)
    requires
        absent(s, replaced_id(r)),
    ensures
        add_frame(s, r, new) == s.push(new),
{
    lemma_first_replaced(s, r);
    lemma_absent_iff(s, replaced_id(r));
    if let Some(i) = first_replaced(s, r) {
        assert(s[i].id() == replaced_id(r));
    }
}

} // verus!

verus! {

/// A text field's frame as written: none when the field is blank.
pub open spec fn text_frames(x: Seq<char>, v: Seq<char>) -> Seq<FrameView> {
    if trim(v).len() == 0 {
        Seq::empty()
    } else {
        seq![FrameView::Text { id: x, text: trim(v) }]
    }
}

/// The year's frame as written.
pub open spec fn year_frames(year: Seq<char>) -> Seq<FrameView> {
    if trim(year).len() == 0 {
        Seq::empty()
    } else {
        match parse_i32_spec(trim(year)) {
            Some(y) => seq![FrameView::Text { id: "TYER"@, text: padded4(y) }],
            None => Seq::empty(),
        }
    }
}

/// A number field's frame as written.
pub open spec fn number_frames(id: Seq<char>, v: Seq<char>) -> Seq<FrameView> {
    if trim(v).len() == 0 {
        Seq::empty()
    } else {
        match parse_unsigned(trim(v), u32::MAX as nat) {
            Some(n) => seq![FrameView::Text { id, text: dec(n) }],
            None => Seq::empty(),
        }
    }
}

/// The comment's frame as written.
pub open spec fn comment_frames(c: Seq<char>) -> Seq<FrameView> {
    if trim(c).len() == 0 {
        Seq::empty()
    } else {
        seq![
            FrameView::Comment {
                id: "COMM"@,
                lang: "spa"@,
                description: Seq::empty(),
                text: trim(c),
            },
        ]
    }
}

/// The cover's frame as written.
pub open spec fn cover_frames(cover: Option<CoverView>) -> Seq<FrameView> {
    match cover {
        None => Seq::empty(),
        Some(c) => seq![cover_frame(c)],
    }
}

/// The frames that writing the fields appends, in order.
pub open spec fn written_frames(d: TagDataView) -> Seq<FrameView> {
    text_frames("TIT2"@, d.title) + text_frames("TPE1"@, d.artist) + text_frames("TALB"@, d.album)
        + text_frames("TCON"@, d.genre) + year_frames(d.year) + number_frames("TRCK"@, d.track)
        + number_frames("TPOS"@, d.disc) + comment_frames(d.comment) + cover_frames(d.cover)
}

/// Whether every frame of `p` has identifier `x`.
pub open spec fn only_id(p: Seq<FrameView>, x: Seq<char>) -> bool {
    forall|j: int| 0 <= j < p.len() ==> (#[trigger] p[j]).id() == x
}

proof fn lemma_only_id_absent(p: Seq<FrameView>, x: Seq<char>, y: Seq<char>)
    requires
        only_id(p, x),
        x != y,
    ensures
        absent(p, y),
{
    lemma_absent_iff(p, y);
}

proof fn lemma_remove_push(s: Seq<FrameView>, g: FrameView, x: Seq<char>)
    ensures
        remove_id(s.push(g), x) == (if g.id() == x {
            remove_id(s, x)
        } else {
            remove_id(s, x).push(g)
        }),
{
    assert(s.push(g).drop_last() =~= s);
}

proof fn lemma_year_step_shape(r: Seq<FrameView>, w: Seq<FrameView>, year: Seq<char>)
    requires
        absent(w, "TYER"@),
        absent(w, "TDRC"@),
    ensures
        year_step(r + w, year).0 == remove_id(remove_id(r, "TYER"@), "TDRC"@) + (w + year_frames(
            year,
        )),
{
    let r1 = remove_id(r, "TYER"@);
    let r2 = remove_id(r1, "TDRC"@);
    lemma_remove_concat(r, w, "TYER"@);
    lemma_remove_absent(w, "TYER"@);
    lemma_remove_concat(r1, w, "TDRC"@);
    lemma_remove_absent(w, "TDRC"@);
    lemma_absent_removed(r, "TYER"@);
    lemma_absent_after_remove(r1, "TDRC"@, "TYER"@);
    lemma_absent_concat(r2, w, "TYER"@);
    if trim(year).len() != 0 && parse_i32_spec(trim(year)) is Some {
        let y = parse_i32_spec(trim(year))->0;
        let new = FrameView::Text { id: "TYER"@, text: padded4(y) };
        lemma_add_absent(r2 + w, Replaces::Text("TYER"@), new);
        assert((r2 + w).push(new) =~= r2 + (w + seq![new]));
    } else {
        assert(w + year_frames(year) =~= w);
    }
}

proof fn lemma_number_step_shape(
    r: Seq<FrameView>,
    w: Seq<FrameView>,
    id: Seq<char>,
    v: Seq<char>,
    err: FieldError,
)
    requires
        absent(w, id),
    ensures
        number_step(r + w, id, v, err).0 == remove_id(r, id) + (w + number_frames(id, v)),
{
    let r1 = remove_id(r, id);
    lemma_remove_concat(r, w, id);
    lemma_remove_absent(w, id);
    lemma_absent_removed(r, id);
    lemma_absent_concat(r1, w, id);
    lemma_first_with_id(r1 + w, id);
    if trim(v).len() != 0 && parse_unsigned(trim(v), u32::MAX as nat) is Some {
        let n = parse_unsigned(trim(v), u32::MAX as nat)->0;
        let new = FrameView::Text { id, text: dec(n) };
        assert(pair_total(r1 + w, id) is None);
        lemma_add_absent(r1 + w, Replaces::Text(id), new);
        assert((r1 + w).push(new) =~= r1 + (w + seq![new]));
    } else {
        assert(w + number_frames(id, v) =~= w);
    }
}

proof fn lemma_comment_step_shape(r: Seq<FrameView>, w: Seq<FrameView>, c: Seq<char>)
    requires
        absent(w, "COMM"@),
    ensures
        comment_step(r + w, c) == remove_id(r, "COMM"@) + (w + comment_frames(c)),
{
    let r1 = remove_id(r, "COMM"@);
    lemma_remove_concat(r, w, "COMM"@);
    lemma_remove_absent(w, "COMM"@);
    lemma_absent_removed(r, "COMM"@);
    lemma_absent_concat(r1, w, "COMM"@);
    if trim(c).len() != 0 {
        let new = FrameView::Comment {
            id: "COMM"@,
            lang: "spa"@,
            description: Seq::empty(),
            text: trim(c),
        };
        lemma_add_absent(r1 + w, Replaces::Comment("spa"@, Seq::empty()), new);
        assert((r1 + w).push(new) =~= r1 + (w + seq![new]));
    } else {
        assert(w + comment_frames(c) =~= w);
    }
}

proof fn lemma_cover_step_shape(r: Seq<FrameView>, w: Seq<FrameView>, cover: Option<CoverView>)
    requires
        absent(w, "APIC"@),
    ensures
        cover_step(r + w, cover) == remove_id(r, "APIC"@) + (w + cover_frames(cover)),
{
    let r1 = remove_id(r, "APIC"@);
    lemma_remove_concat(r, w, "APIC"@);
    lemma_remove_absent(w, "APIC"@);
    lemma_absent_removed(r, "APIC"@);
    lemma_absent_concat(r1, w, "APIC"@);
    match cover {
        Some(c) => {
            lemma_add_absent(r1 + w, Replaces::FrontCover, cover_frame(c));
            assert((r1 + w).push(cover_frame(c)) =~= r1 + (w + seq![cover_frame(c)]));
        },
        None => {
            assert(w + cover_frames(cover) =~= w);
        },
    }
}

} // verus!

verus! {

proof fn lemma_keep_len_le(s: Seq<FrameView>, sel: Sel)
    ensures
        keep(s, sel).len() <= s.len(),
    decreases s.len(),
{
    if s.len() > 0 {
        lemma_keep_len_le(s.drop_last(), sel);
    }
}

proof fn lemma_piece_keep(p: Seq<FrameView>, y: Seq<char>, x: Seq<char>)
    requires
        only_id(p, y),
        p.len() <= 1,
    ensures
        keep(p, Sel::Id(x)).len() <= (if y == x { 1int } else { 0int }),
{
    lemma_keep_len_le(p, Sel::Id(x));
    if y != x {
        lemma_only_id_absent(p, y, x);
    }
}

/// The written frames hold at most one frame with a given identifier.
proof fn lemma_keep_le_one(wd: Seq<FrameView>, x: Seq<char>, d: TagDataView)
    requires
        wd == written_frames(d),
    ensures
        keep(wd, Sel::Id(x)).len() <= 1,
{
    lemma_ids_distinct();
    let p1 = text_frames("TIT2"@, d.title);
    let p2 = text_frames("TPE1"@, d.artist);
    let p3 = text_frames("TALB"@, d.album);
    let p4 = text_frames("TCON"@, d.genre);
    let p5 = year_frames(d.year);
    let p6 = number_frames("TRCK"@, d.track);
    let p7 = number_frames("TPOS"@, d.disc);
    let p8 = comment_frames(d.comment);
    let p9 = cover_frames(d.cover);
    let s = Sel::Id(x);
    lemma_piece_keep(p1, "TIT2"@, x);
    lemma_piece_keep(p2, "TPE1"@, x);
    lemma_piece_keep(p3, "TALB"@, x);
    lemma_piece_keep(p4, "TCON"@, x);
    lemma_piece_keep(p5, "TYER"@, x);
    lemma_piece_keep(p6, "TRCK"@, x);
    lemma_piece_keep(p7, "TPOS"@, x);
    lemma_piece_keep(p8, "COMM"@, x);
    lemma_piece_keep(p9, "APIC"@, x);
    lemma_keep_concat(p1, p2, s);
    lemma_keep_concat(p1 + p2, p3, s);
    lemma_keep_concat(p1 + p2 + p3, p4, s);
    lemma_keep_concat(p1 + p2 + p3 + p4, p5, s);
    lemma_keep_concat(p1 + p2 + p3 + p4 + p5, p6, s);
    lemma_keep_concat(p1 + p2 + p3 + p4 + p5 + p6, p7, s);
    lemma_keep_concat(p1 + p2 + p3 + p4 + p5 + p6 + p7, p8, s);
    lemma_keep_concat(p1 + p2 + p3 + p4 + p5 + p6 + p7 + p8, p9, s);
}

/// A sequence whose frames `sel` all picks is kept whole.
proof fn lemma_keep_all(s: Seq<FrameView>, sel: Sel)
    requires
        forall|j: int| 0 <= j < s.len() ==> selects(sel, #[trigger] s[j]),
    ensures
        keep(s, sel) == s,
    decreases s.len(),
{
    if s.len() > 0 {
        let dl = s.drop_last();
        assert forall|j: int| 0 <= j < dl.len() implies selects(sel, #[trigger] dl[j]) by {
            assert(dl[j] == s[j]);
        }
        lemma_keep_all(dl, sel);
        assert(s.last() == s[s.len() - 1]);
        assert(dl.push(s.last()) =~= s);
    }
}

/// Whether writing stops at a field depends on the fields alone.
proof fn lemma_error_of_fields(fs: Seq<FrameView>, gs: Seq<FrameView>, d: TagDataView)
    ensures
        apply_fields(fs, d).1 == apply_fields(gs, d).1,
{
}

} // verus!

verus! {

// ---------------------------------------------------------------------------
// Writing twice, for every tag on which it holds
// ---------------------------------------------------------------------------

proof fn lemma_keep_ext(s: Seq<FrameView>, a: Sel, b: Sel)
    requires
        forall|f: FrameView| selects(a, f) == selects(b, f),
    ensures
        keep(s, a) == keep(s, b),
    decreases s.len(),
{
    if s.len() > 0 {
        lemma_keep_ext(s.drop_last(), a, b);
    }
}

proof fn lemma_keep_sub(s: Seq<FrameView>, a: Sel, b: Sel)
    requires
        forall|f: FrameView| selects(a, f) ==> selects(b, f),
    ensures
        keep(s, a).len() <= keep(s, b).len(),
    decreases s.len(),
{
    if s.len() > 0 {
        lemma_keep_sub(s.drop_last(), a, b);
    }
}

proof fn lemma_keep_keep_le(s: Seq<FrameView>, a: Sel, b: Sel)
    ensures
        keep(keep(s, a), b).len() <= keep(s, b).len(),
    decreases s.len(),
{
    if s.len() > 0 {
        let dl = s.drop_last();
        lemma_keep_keep_le(dl, a, b);
        lemma_keep_push(keep(dl, a), s.last(), b);
    }
}

/// The frames with identifier other than `x`.
pub open spec fn not_id(x: Seq<char>) -> Sel {
    Sel::Pred(|f: FrameView| f.id() != x)
}

/// The frames that a new text frame `x` replaces.
pub open spec fn replaceable(x: Seq<char>) -> Sel {
    Sel::Pred(|f: FrameView| replaced_by(f, Replaces::Text(x)))
}

/// The frames that a new text frame `x` does not replace.
pub open spec fn not_replaceable(x: Seq<char>) -> Sel {
    Sel::Pred(|f: FrameView| !replaced_by(f, Replaces::Text(x)))
}

/// Whether a frame stays when the text field `x` is written with `v`: all
/// frames `x` go when the field is blank, the one it replaces otherwise.
pub open spec fn text_keeps(x: Seq<char>, v: Seq<char>, f: FrameView) -> bool {
    if trim(v).len() == 0 {
        f.id() != x
    } else {
        !replaced_by(f, Replaces::Text(x))
    }
}

/// The frames that stay when the text field `x` is written with `v`.
pub open spec fn text_sel(x: Seq<char>, v: Seq<char>) -> Sel {
    Sel::Pred(|f: FrameView| text_keeps(x, v, f))
}

/// Whether a frame of a tag stays when the fields `d` are written: its
/// identifier is untouched, or it is a frame of a non-blank text field that
/// a text frame does not replace.
pub open spec fn survives(d: TagDataView, f: FrameView) -> bool {
    ||| untouched_id(f.id())
    ||| f.id() == "TIT2"@ && trim(d.title).len() != 0 && !replaced_by(f, Replaces::Text("TIT2"@))
    ||| f.id() == "TPE1"@ && trim(d.artist).len() != 0 && !replaced_by(f, Replaces::Text("TPE1"@))
    ||| f.id() == "TALB"@ && trim(d.album).len() != 0 && !replaced_by(f, Replaces::Text("TALB"@))
    ||| f.id() == "TCON"@ && trim(d.genre).len() != 0 && !replaced_by(f, Replaces::Text("TCON"@))
}

/// The frames that stay when the fields `d` are written.
pub open spec fn survivors(d: TagDataView) -> Sel {
    Sel::Pred(|f: FrameView| survives(d, f))
}

/// Whether each non-blank text field of `d` has at most one frame in `fs`
/// that a text frame replaces: the tags on which writing twice is writing
/// once.
pub open spec fn replaceable_once(fs: Seq<FrameView>, d: TagDataView) -> bool {
    &&& trim(d.title).len() != 0 ==> keep(fs, replaceable("TIT2"@)).len() <= 1
    &&& trim(d.artist).len() != 0 ==> keep(fs, replaceable("TPE1"@)).len() <= 1
    &&& trim(d.album).len() != 0 ==> keep(fs, replaceable("TALB"@)).len() <= 1
    &&& trim(d.genre).len() != 0 ==> keep(fs, replaceable("TCON"@)).len() <= 1
}

proof fn lemma_remove_is_keep(s: Seq<FrameView>, x: Seq<char>)
    ensures
        remove_id(s, x) == keep(s, not_id(x)),
    decreases s.len(),
{
    if s.len() > 0 {
        lemma_remove_is_keep(s.drop_last(), x);
    }
}

/// Setting a text field when at most one frame is replaceable removes that
/// frame, keeps the rest in order, and appends the new frame.
proof fn lemma_set_text_replaceable(s: Seq<FrameView>, x: Seq<char>, t: Seq<char>)
    requires
        keep(s, replaceable(x)).len() <= 1,
    ensures
        set_text(s, x, t) == keep(s, not_replaceable(x)).push(FrameView::Text { id: x, text: t }),
{
    let r = Replaces::Text(x);
    lemma_first_replaced(s, r);
    match first_replaced(s, r) {
        Some(i) => {
            lemma_keep_remove_at(s, i, replaceable(x));
            lemma_keep_remove_at(s, i, not_replaceable(x));
            let s2 = s.remove(i);
            lemma_keep_empty(s2, replaceable(x));
            lemma_keep_all(s2, not_replaceable(x));
        },
        None => {
            lemma_keep_all(s, not_replaceable(x));
        },
    }
}

proof fn lemma_text_step_keep_shape(r: Seq<FrameView>, w: Seq<FrameView>, x: Seq<char>, v: Seq<char>)
    requires
        absent(w, x),
        trim(v).len() != 0 ==> keep(r, replaceable(x)).len() <= 1,
    ensures
        text_step(r + w, x, v) == keep(r, text_sel(x, v)) + (w + text_frames(x, v)),
{
    lemma_remove_concat(r, w, x);
    lemma_remove_absent(w, x);
    lemma_absent_iff(w, x);
    if trim(v).len() == 0 {
        lemma_remove_is_keep(r, x);
        lemma_keep_ext(r, not_id(x), text_sel(x, v));
        assert(w + text_frames(x, v) =~= w);
    } else {
        let new = FrameView::Text { id: x, text: trim(v) };
        lemma_keep_concat(r, w, replaceable(x));
        lemma_keep_sub(w, replaceable(x), Sel::Id(x));
        lemma_set_text_replaceable(r + w, x, trim(v));
        lemma_keep_concat(r, w, not_replaceable(x));
        lemma_keep_all(w, not_replaceable(x));
        lemma_keep_ext(r, not_replaceable(x), text_sel(x, v));
        assert((keep(r, text_sel(x, v)) + w).push(new) =~= keep(r, text_sel(x, v)) + (w + seq![new]));
    }
}

} // verus!

verus! {

/// The frames of a tag that stay when the fields `d` are written, taken out
/// in the order the writing takes them out.
pub open spec fn strip_fields(fs: Seq<FrameView>, d: TagDataView) -> Seq<FrameView> {
    let k = keep(
        keep(
            keep(keep(fs, text_sel("TIT2"@, d.title)), text_sel("TPE1"@, d.artist)),
            text_sel("TALB"@, d.album),
        ),
        text_sel("TCON"@, d.genre),
    );
    remove_id(
        remove_id(
            remove_id(
                remove_id(remove_id(remove_id(k, "TYER"@), "TDRC"@), "TRCK"@),
                "TPOS"@,
            ),
            "COMM"@,
        ),
        "APIC"@,
    )
}

proof fn lemma_strip_fields_is_keep(fs: Seq<FrameView>, d: TagDataView)
    ensures
        strip_fields(fs, d) == keep(fs, survivors(d)),
    decreases fs.len(),
{
    lemma_ids_distinct();
    if fs.len() > 0 {
        let s = fs.drop_last();
        let g = fs.last();
        lemma_strip_fields_is_keep(s, d);
        assert(s.push(g) =~= fs);
        let a1 = text_sel("TIT2"@, d.title);
        let a2 = text_sel("TPE1"@, d.artist);
        let a3 = text_sel("TALB"@, d.album);
        let a4 = text_sel("TCON"@, d.genre);
        let k1 = keep(s, a1);
        let k2 = keep(k1, a2);
        let k3 = keep(k2, a3);
        let k4 = keep(k3, a4);
        lemma_keep_push(s, g, a1);
        lemma_keep_push(k1, g, a2);
        lemma_keep_push(k2, g, a3);
        lemma_keep_push(k3, g, a4);
        let r5 = remove_id(k4, "TYER"@);
        let r6 = remove_id(r5, "TDRC"@);
        let r7 = remove_id(r6, "TRCK"@);
        let r8 = remove_id(r7, "TPOS"@);
        let r9 = remove_id(r8, "COMM"@);
        lemma_remove_push(k4, g, "TYER"@);
        lemma_remove_push(r5, g, "TDRC"@);
        lemma_remove_push(r6, g, "TRCK"@);
        lemma_remove_push(r7, g, "TPOS"@);
        lemma_remove_push(r8, g, "COMM"@);
        lemma_remove_push(r9, g, "APIC"@);
        lemma_keep_push(s, g, survivors(d));
        assert(selects(survivors(d), g) == (text_keeps("TIT2"@, d.title, g) && text_keeps(
            "TPE1"@,
            d.artist,
            g,
        ) && text_keeps("TALB"@, d.album, g) && text_keeps("TCON"@, d.genre, g) && g.id()
            != "TYER"@ && g.id() != "TDRC"@ && g.id() != "TRCK"@ && g.id() != "TPOS"@ && g.id()
            != "COMM"@ && g.id() != "APIC"@));
    }
}

/// When each non-blank text field has at most one frame that a text frame
/// replaces and every field is accepted, writing the fields keeps the
/// surviving frames in order and appends the written frames.
proof fn lemma_fields_shape(fs: Seq<FrameView>, d: TagDataView)
    requires
        replaceable_once(fs, d),
        apply_fields(fs, d).1 is None,
    ensures
        apply_fields(fs, d).0 == keep(fs, survivors(d)) + written_frames(d),
{
    lemma_ids_distinct();
    let p1 = text_frames("TIT2"@, d.title);
    let p2 = text_frames("TPE1"@, d.artist);
    let p3 = text_frames("TALB"@, d.album);
    let p4 = text_frames("TCON"@, d.genre);
    let p5 = year_frames(d.year);
    let p6 = number_frames("TRCK"@, d.track);
    let p7 = number_frames("TPOS"@, d.disc);
    let p8 = comment_frames(d.comment);
    assert(only_id(p1, "TIT2"@));
    assert(only_id(p2, "TPE1"@));
    assert(only_id(p3, "TALB"@));
    assert(only_id(p4, "TCON"@));
    assert(only_id(p5, "TYER"@));
    assert(only_id(p6, "TRCK"@));
    assert(only_id(p7, "TPOS"@));
    assert(only_id(p8, "COMM"@));
    let a1 = text_sel("TIT2"@, d.title);
    let a2 = text_sel("TPE1"@, d.artist);
    let a3 = text_sel("TALB"@, d.album);
    let a4 = text_sel("TCON"@, d.genre);
    let e = Seq::<FrameView>::empty();
    assert(fs + e =~= fs);
    lemma_text_step_keep_shape(fs, e, "TIT2"@, d.title);
    let r1 = keep(fs, a1);
    let w1 = e + p1;
    lemma_keep_keep_le(fs, a1, replaceable("TPE1"@));
    lemma_only_id_absent(p1, "TIT2"@, "TPE1"@);
    lemma_absent_concat(e, p1, "TPE1"@);
    lemma_text_step_keep_shape(r1, w1, "TPE1"@, d.artist);
    let r2 = keep(r1, a2);
    let w2 = w1 + p2;
    lemma_keep_keep_le(fs, a1, replaceable("TALB"@));
    lemma_keep_keep_le(r1, a2, replaceable("TALB"@));
    lemma_only_id_absent(p1, "TIT2"@, "TALB"@);
    lemma_only_id_absent(p2, "TPE1"@, "TALB"@);
    lemma_absent_concat(e, p1, "TALB"@);
    lemma_absent_concat(w1, p2, "TALB"@);
    lemma_text_step_keep_shape(r2, w2, "TALB"@, d.album);
    let r3 = keep(r2, a3);
    let w3 = w2 + p3;
    lemma_keep_keep_le(fs, a1, replaceable("TCON"@));
    lemma_keep_keep_le(r1, a2, replaceable("TCON"@));
    lemma_keep_keep_le(r2, a3, replaceable("TCON"@));
    lemma_only_id_absent(p1, "TIT2"@, "TCON"@);
    lemma_only_id_absent(p2, "TPE1"@, "TCON"@);
    lemma_only_id_absent(p3, "TALB"@, "TCON"@);
    lemma_absent_concat(e, p1, "TCON"@);
    lemma_absent_concat(w1, p2, "TCON"@);
    lemma_absent_concat(w2, p3, "TCON"@);
    lemma_text_step_keep_shape(r3, w3, "TCON"@, d.genre);
    let r4 = keep(r3, a4);
    let w4 = w3 + p4;
    assert(text_fields_step(fs, d) == r4 + w4);
    assert forall|y: Seq<char>|
        y == "TYER"@ || y == "TDRC"@ || y == "TRCK"@ || y == "TPOS"@ || y == "COMM"@ || y
            == "APIC"@ implies absent(w4, y) by {
        lemma_only_id_absent(p1, "TIT2"@, y);
        lemma_only_id_absent(p2, "TPE1"@, y);
        lemma_only_id_absent(p3, "TALB"@, y);
        lemma_only_id_absent(p4, "TCON"@, y);
        lemma_absent_concat(e, p1, y);
        lemma_absent_concat(w1, p2, y);
        lemma_absent_concat(w2, p3, y);
        lemma_absent_concat(w3, p4, y);
    }
    lemma_year_step_shape(r4, w4, d.year);
    let r6 = remove_id(remove_id(r4, "TYER"@), "TDRC"@);
    let w5 = w4 + p5;
    assert forall|y: Seq<char>| y == "TRCK"@ || y == "TPOS"@ || y == "COMM"@ || y == "APIC"@ implies absent(
        w5,
        y,
    ) by {
        lemma_only_id_absent(p5, "TYER"@, y);
        lemma_absent_concat(w4, p5, y);
    }
    lemma_number_step_shape(r6, w5, "TRCK"@, d.track, FieldError::Track);
    let r7 = remove_id(r6, "TRCK"@);
    let w6 = w5 + p6;
    assert forall|y: Seq<char>| y == "TPOS"@ || y == "COMM"@ || y == "APIC"@ implies absent(w6, y) by {
        lemma_only_id_absent(p6, "TRCK"@, y);
        lemma_absent_concat(w5, p6, y);
    }
    lemma_number_step_shape(r7, w6, "TPOS"@, d.disc, FieldError::Disc);
    let r8 = remove_id(r7, "TPOS"@);
    let w7 = w6 + p7;
    assert forall|y: Seq<char>| y == "COMM"@ || y == "APIC"@ implies absent(w7, y) by {
        lemma_only_id_absent(p7, "TPOS"@, y);
        lemma_absent_concat(w6, p7, y);
    }
    lemma_comment_step_shape(r8, w7, d.comment);
    let r9 = remove_id(r8, "COMM"@);
    let w8 = w7 + p8;
    lemma_only_id_absent(p8, "COMM"@, "APIC"@);
    lemma_absent_concat(w7, p8, "APIC"@);
    lemma_cover_step_shape(r9, w8, d.cover);
    assert(e + p1 + p2 + p3 + p4 + p5 + p6 + p7 + p8 + cover_frames(d.cover) =~= written_frames(d));
    assert(remove_id(r9, "APIC"@) == strip_fields(fs, d));
    lemma_strip_fields_is_keep(fs, d);
}

} // verus!

verus! {

proof fn lemma_piece_dead(p: Seq<FrameView>, d: TagDataView)
    requires
        forall|j: int| 0 <= j < p.len() ==> !survives(d, #[trigger] p[j]),
    ensures
        keep(p, survivors(d)).len() == 0,
{
    lemma_keep_empty(p, survivors(d));
}

/// None of the written frames survives a second writing of the same fields.
proof fn lemma_written_dead(d: TagDataView)
    ensures
        keep(written_frames(d), survivors(d)).len() == 0,
{
    lemma_ids_distinct();
    let p1 = text_frames("TIT2"@, d.title);
    let p2 = text_frames("TPE1"@, d.artist);
    let p3 = text_frames("TALB"@, d.album);
    let p4 = text_frames("TCON"@, d.genre);
    let p5 = year_frames(d.year);
    let p6 = number_frames("TRCK"@, d.track);
    let p7 = number_frames("TPOS"@, d.disc);
    let p8 = comment_frames(d.comment);
    let p9 = cover_frames(d.cover);
    lemma_piece_dead(p1, d);
    lemma_piece_dead(p2, d);
    lemma_piece_dead(p3, d);
    lemma_piece_dead(p4, d);
    assert(only_id(p5, "TYER"@));
    lemma_piece_dead(p5, d);
    assert(only_id(p6, "TRCK"@));
    lemma_piece_dead(p6, d);
    assert(only_id(p7, "TPOS"@));
    lemma_piece_dead(p7, d);
    assert(only_id(p8, "COMM"@));
    lemma_piece_dead(p8, d);
    assert(p9.len() > 0 ==> p9[0].id() == "APIC"@);
    lemma_piece_dead(p9, d);
    let u = survivors(d);
    lemma_keep_concat(p1, p2, u);
    lemma_keep_concat(p1 + p2, p3, u);
    lemma_keep_concat(p1 + p2 + p3, p4, u);
    lemma_keep_concat(p1 + p2 + p3 + p4, p5, u);
    lemma_keep_concat(p1 + p2 + p3 + p4 + p5, p6, u);
    lemma_keep_concat(p1 + p2 + p3 + p4 + p5 + p6, p7, u);
    lemma_keep_concat(p1 + p2 + p3 + p4 + p5 + p6 + p7, p8, u);
    lemma_keep_concat(p1 + p2 + p3 + p4 + p5 + p6 + p7 + p8, p9, u);
}

/// After a writing, a non-blank text field has at most one replaceable
/// frame: the one just written.
proof fn lemma_replaceable_once_after(k: Seq<FrameView>, d: TagDataView, x: Seq<char>, v: Seq<char>)
    requires
        forall|j: int| 0 <= j < k.len() ==> selects(survivors(d), #[trigger] k[j]),
        (x == "TIT2"@ && v == d.title) || (x == "TPE1"@ && v == d.artist) || (x == "TALB"@ && v
            == d.album) || (x == "TCON"@ && v == d.genre),
        trim(v).len() != 0,
    ensures
        keep(k + written_frames(d), replaceable(x)).len() <= 1,
{
    lemma_ids_distinct();
    let wd = written_frames(d);
    lemma_keep_concat(k, wd, replaceable(x));
    lemma_keep_empty(k, replaceable(x));
    assert forall|j: int| 0 <= j < k.len() implies !selects(replaceable(x), #[trigger] k[j]) by {
        assert(selects(survivors(d), k[j]));
    }
    lemma_keep_sub(wd, replaceable(x), Sel::Id(x));
    lemma_keep_le_one(wd, x, d);
}

/// Writing the same fields a second time changes nothing: once the fields
/// were written without error, writing them again succeeds and leaves the
/// frames as they were. This holds for every tag in which each non-blank
/// text field (title, artist, album, genre) has at most one frame that a
/// text frame replaces; with two replaceable title frames and a non-blank
/// title, for instance, the first write replaces only the first of them and
/// the next write replaces the second.
pub proof fn lemma_writing_twice(fs: Seq<FrameView>, d: TagDataView)
    requires
        replaceable_once(fs, d),
        apply_fields(fs, d).1 is None,
    ensures
        apply_fields(apply_fields(fs, d).0, d) == apply_fields(fs, d),
{
    let g = apply_fields(fs, d).0;
    let wd = written_frames(d);
    let u = survivors(d);
    lemma_fields_shape(fs, d);
    let k = keep(fs, u);
    lemma_keep_selected(fs, u);
    if trim(d.title).len() != 0 {
        lemma_replaceable_once_after(k, d, "TIT2"@, d.title);
    }
    if trim(d.artist).len() != 0 {
        lemma_replaceable_once_after(k, d, "TPE1"@, d.artist);
    }
    if trim(d.album).len() != 0 {
        lemma_replaceable_once_after(k, d, "TALB"@, d.album);
    }
    if trim(d.genre).len() != 0 {
        lemma_replaceable_once_after(k, d, "TCON"@, d.genre);
    }
    lemma_error_of_fields(fs, g, d);
    lemma_fields_shape(g, d);
    lemma_keep_concat(k, wd, u);
    lemma_keep_all(k, u);
    lemma_written_dead(d);
    assert(keep(k, u) + keep(wd, u) =~= k);
}

} // verus!
