use normalizador_nq4::model::{
    display_name_from, AppError, AudioFile, Diagnostics, NormalizationOptions, TagData,
    NORMALIZED_FOLDER_NAME,
};

fn diagnostics(version: &str, tlen: Option<&str>, v1: bool, ape: bool) -> Diagnostics {
    Diagnostics {
        id3_version: version.to_owned(),
        raw_tlen: tlen.map(str::to_owned),
        has_id3v1: v1,
        has_apev2: ape,
        cover_description: None,
    }
}

#[test]
fn warnings_list_every_finding_in_order() {
    let d = diagnostics("ID3v2.4", Some("500"), true, true);
    assert_eq!(
        d.warnings(),
        vec![
            "ID3v2.4: conviene normalizar a ID3v2.3".to_owned(),
            "TLEN sospechoso: 500 ms".to_owned(),
            "Contiene ID3v1 al final del archivo".to_owned(),
            "Contiene APEv2 al final del archivo".to_owned(),
        ]
    );
    assert_eq!(d.warning_count(), 4);
}

#[test]
fn warnings_for_missing_tag_and_plain_tlen() {
    let d = diagnostics("Sin ID3v2", Some("245000"), false, false);
    assert_eq!(
        d.warnings(),
        vec![
            "Sin ID3v2: se puede crear una etiqueta nueva".to_owned(),
            "TLEN presente: 245000".to_owned(),
        ]
    );
}

#[test]
fn tlen_at_one_second_or_not_a_number_is_only_present() {
    assert_eq!(
        diagnostics("ID3v2.3", Some("1000"), false, false).warnings(),
        vec!["TLEN presente: 1000".to_owned()]
    );
    assert_eq!(
        diagnostics("ID3v2.3", Some("999"), false, false).warnings(),
        vec!["TLEN sospechoso: 999 ms".to_owned()]
    );
    assert_eq!(
        diagnostics("ID3v2.3", Some("abc"), false, false).warnings(),
        vec!["TLEN presente: abc".to_owned()]
    );
}

#[test]
fn clean_v23_file_has_no_warnings() {
    let d = diagnostics("ID3v2.3", None, false, false);
    assert!(d.warnings().is_empty());
    assert_eq!(d.warning_count(), 0);
}

#[test]
fn warning_count_is_the_number_of_warnings() {
    for version in ["ID3v2.4", "ID3v2.3", "Sin ID3v2", "ID3v2.2"] {
        for tlen in [None, Some("10"), Some("x")] {
            for v1 in [false, true] {
                for ape in [false, true] {
                    let d = diagnostics(version, tlen, v1, ape);
                    assert_eq!(d.warning_count(), d.warnings().len());
                }
            }
        }
    }
}

#[test]
fn display_name_is_the_file_name_or_mp3() {
    let file = |path: &str| AudioFile {
        path: path.to_owned(),
        tags: TagData::default(),
        diagnostics: Diagnostics::default(),
        dirty: false,
    };
    assert_eq!(file("music/album/song.mp3").display_name(), "song.mp3");
    assert_eq!(file("song.mp3").display_name(), "song.mp3");
    assert_eq!(file("").display_name(), "MP3");
    assert_eq!(file("music/..").display_name(), "MP3");
    assert_eq!(display_name_from(None), "MP3");
    assert_eq!(display_name_from(Some("a.mp3".to_owned())), "a.mp3");
}

#[test]
fn default_options_are_the_ipod_profile() {
    let o = NormalizationOptions::default();
    assert!(o.create_backup && o.strip_id3v1 && o.strip_apev2 && o.normalize_cover);
    assert_eq!(o.max_cover_size, 600);
    assert_eq!(o.jpeg_quality, 88);
    assert_eq!(NORMALIZED_FOLDER_NAME, "MP3 normalizados");
}

#[test]
fn error_messages() {
    assert_eq!(AppError::Io("x".into()).message(), "Error de archivo: x");
    assert_eq!(AppError::Id3("y".into()).message(), "Error ID3: y");
    assert_eq!(AppError::Image("z".into()).message(), "Error de imagen: z");
    assert_eq!(AppError::Message("m".into()).message(), "m");
}
