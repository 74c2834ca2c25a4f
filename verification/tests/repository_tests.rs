use id3::frame::{Comment, Picture, PictureType};
use id3::{Frame, Tag, TagLike};
use normalizador_nq4::model::{AppError, CoverArt, TagData};
use normalizador_nq4::repository::Id3TagRepository;

fn fields(title: &str, year: &str, track: &str, disc: &str, comment: &str) -> TagData {
    TagData {
        title: title.to_owned(),
        artist: " Artista ".to_owned(),
        album: "Álbum".to_owned(),
        genre: "".to_owned(),
        year: year.to_owned(),
        track: track.to_owned(),
        disc: disc.to_owned(),
        comment: comment.to_owned(),
        cover: None,
    }
}

#[test]
fn id3_version_from_header() {
    assert_eq!(Id3TagRepository::detect_id3_version(b"ID3\x02"), "ID3v2.2");
    assert_eq!(Id3TagRepository::detect_id3_version(b"ID3\x03"), "ID3v2.3");
    assert_eq!(Id3TagRepository::detect_id3_version(b"ID3\x04"), "ID3v2.4");
    assert_eq!(Id3TagRepository::detect_id3_version(b"ID3\x07"), "ID3v2 desconocido (7)");
    assert_eq!(Id3TagRepository::detect_id3_version(b"ID3"), "Sin ID3v2");
    assert_eq!(Id3TagRepository::detect_id3_version(b"RIFF"), "Sin ID3v2");
    assert_eq!(Id3TagRepository::detect_id3_version(b""), "Sin ID3v2");
}

fn file_with(id3v1: bool, ape: bool, audio: usize) -> Vec<u8> {
    let mut data = vec![0xFF_u8; audio];
    if ape {
        let mut footer = b"APETAGEX".to_vec();
        footer.extend_from_slice(&[0xd0, 0x07, 0, 0]);
        footer.extend_from_slice(&[40, 0, 0, 0]);
        footer.extend_from_slice(&[0; 16]);
        data.extend_from_slice(&[0x11; 8]);
        data.extend_from_slice(&footer);
    }
    if id3v1 {
        let mut v1 = b"TAG".to_vec();
        v1.resize(128, b' ');
        data.extend_from_slice(&v1);
    }
    data
}

fn tail(data: &[u8]) -> &[u8] {
    &data[data.len().saturating_sub(160)..]
}

#[test]
fn tail_tags_are_found_at_their_offsets() {
    let both = file_with(true, true, 400);
    assert_eq!(Id3TagRepository::detect_tail_tags(tail(&both)), (true, true));
    let v1 = file_with(true, false, 400);
    assert_eq!(Id3TagRepository::detect_tail_tags(tail(&v1)), (true, false));
    let ape = file_with(false, true, 400);
    assert_eq!(Id3TagRepository::detect_tail_tags(tail(&ape)), (false, true));
    let none = file_with(false, false, 400);
    assert_eq!(Id3TagRepository::detect_tail_tags(tail(&none)), (false, false));
    let short = file_with(false, false, 20);
    assert_eq!(Id3TagRepository::detect_tail_tags(tail(&short)), (false, false));
}

#[test]
fn fields_read_from_a_tag() {
    let mut tag = Tag::new();
    tag.set_title("Título");
    tag.set_artist("Artista");
    tag.set_album("Álbum");
    tag.set_genre("Rock");
    tag.set_year(1999);
    tag.add_frame(Frame::text("TRCK", "3/12"));
    tag.add_frame(Frame::text("TPOS", "1"));
    tag.add_frame(Comment {
        lang: "eng".to_owned(),
        description: String::new(),
        text: "hola".to_owned(),
    });
    tag.add_frame(Picture {
        mime_type: "image/png".to_owned(),
        picture_type: PictureType::CoverFront,
        description: "Cover".to_owned(),
        data: vec![1, 2, 3],
    });
    tag.add_frame(Frame::text("TLEN", "245000"));

    let data = Id3TagRepository::from_tag(&tag);
    assert_eq!(data.title, "Título");
    assert_eq!(data.artist, "Artista");
    assert_eq!(data.album, "Álbum");
    assert_eq!(data.genre, "Rock");
    assert_eq!(data.year, "1999");
    assert_eq!(data.track, "3");
    assert_eq!(data.disc, "1");
    assert_eq!(data.comment, "hola");
    let cover = data.cover.expect("cover");
    assert_eq!(cover.mime_type, "image/png");
    assert_eq!(cover.description, "Cover");
    assert_eq!(cover.data, vec![1, 2, 3]);
    assert_eq!(Id3TagRepository::tlen(&tag), Some("245000".to_owned()));
}

#[test]
fn empty_tag_reads_empty_fields() {
    let data = Id3TagRepository::from_tag(&Tag::new());
    assert_eq!(data.title, "");
    assert_eq!(data.year, "");
    assert_eq!(data.track, "");
    assert!(data.cover.is_none());
    assert_eq!(Id3TagRepository::tlen(&Tag::new()), None);
}

#[test]
fn written_fields_read_back_trimmed_and_canonical() {
    let mut tag = Tag::new();
    let mut data = fields("  Canción  ", " 0987 ", "+03", " 2 ", "  comentario ");
    data.cover = Some(CoverArt {
        mime_type: "image/jpeg".to_owned(),
        description: "Cover".to_owned(),
        data: vec![9, 8, 7],
    });
    Id3TagRepository::apply_common_fields(&mut tag, &data).unwrap();
    let back = Id3TagRepository::from_tag(&tag);
    assert_eq!(back.title, "Canción");
    assert_eq!(back.artist, "Artista");
    assert_eq!(back.album, "Álbum");
    assert_eq!(back.genre, "");
    assert_eq!(back.year, "987");
    assert_eq!(back.track, "3");
    assert_eq!(back.disc, "2");
    assert_eq!(back.comment, "comentario");
    assert_eq!(back.cover.unwrap().data, vec![9, 8, 7]);
    assert!(tag.get("TCON").is_none());
    assert_eq!(tag.get("TYER").unwrap().content().text(), Some("0987"));
    assert_eq!(tag.comments().next().unwrap().lang, "spa");
}

#[test]
fn negative_year_reads_back() {
    let mut tag = Tag::new();
    Id3TagRepository::apply_common_fields(&mut tag, &fields("t", "-5", "", "", "")).unwrap();
    assert_eq!(tag.get("TYER").unwrap().content().text(), Some("-005"));
    assert_eq!(Id3TagRepository::from_tag(&tag).year, "-5");
}

#[test]
fn year_zero_is_written_but_reads_back_empty() {
    let mut tag = Tag::new();
    Id3TagRepository::apply_common_fields(&mut tag, &fields("t", "0", "", "", "")).unwrap();
    assert_eq!(tag.get("TYER").unwrap().content().text(), Some("0000"));
    assert_eq!(Id3TagRepository::from_tag(&tag).year, "");
}

#[test]
fn editing_replaces_existing_frames_and_keeps_unknown_ones() {
    let mut tag = Tag::new();
    tag.set_title("Viejo");
    tag.add_frame(Frame::text("TDRC", "2001"));
    tag.add_frame(Frame::text("TSSE", "encoder"));
    tag.add_frame(Comment {
        lang: "eng".to_owned(),
        description: "d".to_owned(),
        text: "old".to_owned(),
    });
    Id3TagRepository::apply_common_fields(&mut tag, &fields("Nuevo", "", "", "", "")).unwrap();
    assert_eq!(tag.title(), Some("Nuevo"));
    assert!(tag.get("TDRC").is_none());
    assert!(tag.get("TYER").is_none());
    assert_eq!(tag.comments().count(), 0);
    assert_eq!(tag.get("TSSE").unwrap().content().text(), Some("encoder"));
    assert_eq!(tag.frames().filter(|f| f.id() == "TIT2").count(), 1);
}

#[test]
fn fields_that_are_not_numbers_are_rejected() {
    let cases = [
        (fields("t", "19x9", "", "", ""), "El año debe ser un número entero"),
        (fields("t", "", "tres", "", ""), "La pista debe ser un número entero"),
        (fields("t", "", "", "-1", ""), "El disco debe ser un número entero"),
    ];
    for (data, message) in cases {
        let mut tag = Tag::new();
        match Id3TagRepository::apply_common_fields(&mut tag, &data) {
            Err(AppError::Message(m)) => assert_eq!(m, message),
            other => panic!("unexpected {other:?}"),
        }
    }
}

#[test]
fn clean_v23_tag_has_no_tlen() {
    let mut data = fields("t", "2020", "1", "", "");
    data.cover = None;
    let tag = Id3TagRepository::prepare_clean_v23(&data).unwrap();
    assert!(tag.get("TLEN").is_none());
    assert_eq!(tag.title(), Some("t"));
    assert_eq!(tag.year(), Some(2020));
    assert_eq!(tag.track(), Some(1));
    assert!(Id3TagRepository::prepare_clean_v23(&fields("t", "x", "", "", "")).is_err());
}

#[test]
fn preserving_keeps_other_frames() {
    let mut tag = Tag::new();
    tag.add_frame(Frame::text("TLEN", "1234"));
    let file = normalizador_nq4::model::AudioFile {
        path: "a.mp3".to_owned(),
        tags: fields("x", "", "", "", ""),
        diagnostics: Default::default(),
        dirty: true,
    };
    let out = Id3TagRepository::prepare_preserving(tag, &file).unwrap();
    assert_eq!(Id3TagRepository::tlen(&out), Some("1234".to_owned()));
    assert_eq!(out.title(), Some("x"));
}

#[test]
fn audio_file_from_parts() {
    let mut tag = Tag::new();
    tag.set_title("A");
    tag.add_frame(Frame::text("TLEN", "500"));
    let data = file_with(true, false, 200);
    let f = Id3TagRepository::audio_file_from(
        "x/a.mp3".to_owned(),
        &tag,
        b"ID3\x04",
        tail(&data),
        Some("d".to_owned()),
    );
    assert_eq!(f.path, "x/a.mp3");
    assert_eq!(f.tags.title, "A");
    assert_eq!(f.diagnostics.id3_version, "ID3v2.4");
    assert_eq!(f.diagnostics.raw_tlen, Some("500".to_owned()));
    assert!(f.diagnostics.has_id3v1);
    assert!(!f.diagnostics.has_apev2);
    assert!(!f.dirty);
    assert_eq!(f.diagnostics.warning_count(), 3);
}

#[test]
fn writing_twice_changes_nothing_and_keeps_other_frames() {
    let mut tag = Tag::new();
    tag.set_text("TLEN", "215000");
    tag.add_frame(Frame::text("TIT2", "Viejo"));
    tag.add_frame(id3::frame::ExtendedText {
        description: "nota".to_owned(),
        value: "x".to_owned(),
    });
    let data = TagData {
        cover: Some(CoverArt {
            mime_type: "image/png".to_owned(),
            description: "Cover".to_owned(),
            data: vec![1, 2, 3],
        }),
        ..fields(" Nuevo ", "2001", "3", "1", "hola")
    };
    Id3TagRepository::apply_common_fields(&mut tag, &data).unwrap();
    let once = tag.clone();
    Id3TagRepository::apply_common_fields(&mut tag, &data).unwrap();
    assert!(tag == once);
    let once_frames: Vec<_> = once.frames().collect();
    let twice_frames: Vec<_> = tag.frames().collect();
    assert_eq!(once_frames, twice_frames);
    assert_eq!(tag.get("TLEN").and_then(|f| f.content().text()), Some("215000"));
    assert_eq!(tag.extended_texts().next().map(|t| t.value.clone()), Some("x".to_owned()));
    assert_eq!(tag.title(), Some("Nuevo"));
}

#[test]
fn writing_twice_with_a_blank_field_and_duplicate_frames() {
    let mut tag = Tag::new();
    tag.add_frame(Frame::text("TALB", "uno"));
    tag.add_frame(Frame::text("TPE1", "a"));
    tag.add_frame(Frame::text("TALB", "dos"));
    let data = TagData { album: "  ".to_owned(), ..fields("T", "", "", "", "") };
    Id3TagRepository::apply_common_fields(&mut tag, &data).unwrap();
    assert!(tag.get("TALB").is_none());
    let once = tag.clone();
    Id3TagRepository::apply_common_fields(&mut tag, &data).unwrap();
    let once_frames: Vec<_> = once.frames().collect();
    let twice_frames: Vec<_> = tag.frames().collect();
    assert_eq!(once_frames, twice_frames);
}
