use normalizador_nq4::controller::{cover_mime_type, is_mp3_extension, MainController};
use normalizador_nq4::model::{AppError, AudioFile, Diagnostics, TagData};

fn file(path: &str, dirty: bool, v1: bool) -> AudioFile {
    AudioFile {
        path: path.to_owned(),
        tags: TagData::default(),
        diagnostics: Diagnostics { id3_version: "ID3v2.3".to_owned(), has_id3v1: v1, ..Diagnostics::default() },
        dirty,
    }
}

#[test]
fn starts_empty_with_a_hint() {
    let c = MainController::new();
    assert!(c.files().is_empty());
    assert_eq!(c.selected_index(), None);
    assert!(c.selected().is_none());
    assert_eq!(c.status(), "Arrastra MP3 o usa «Añadir MP3» / «Añadir carpeta».");
    assert_eq!(c.last_output_dir(), None);
}

#[test]
fn adding_skips_paths_already_listed_without_case() {
    let mut c = MainController::new();
    assert!(c.add_file(file("Music/A.mp3", false, false)));
    assert!(!c.add_file(file("music/a.MP3", false, false)));
    assert!(c.add_file(file("Music/B.mp3", false, false)));
    assert_eq!(c.files().len(), 2);
    assert!(c.contains_path("MUSIC/b.mp3"));
    assert!(!c.contains_path("Music/C.mp3"));
    c.finish_adding(2);
    assert_eq!(c.selected_index(), Some(0));
    assert_eq!(c.status(), "Se agregaron 2 archivo(s).");
    c.finish_adding(0);
    assert_eq!(c.status(), "No se agregaron MP3 nuevos.");
}

#[test]
fn selection_ignores_indexes_out_of_range() {
    let mut c = MainController::new();
    c.add_file(file("a.mp3", false, false));
    c.add_file(file("b.mp3", false, false));
    c.select(1);
    assert_eq!(c.selected_index(), Some(1));
    c.select(5);
    assert_eq!(c.selected_index(), Some(1));
    assert_eq!(c.selected().unwrap().path, "b.mp3");
}

#[test]
fn actions_without_selection_say_so() {
    let mut c = MainController::new();
    assert_eq!(c.action_target(), None);
    assert_eq!(c.status(), "No hay archivo seleccionado.");
    c.set_cover_from("x.png", Ok(vec![1]));
    assert_eq!(c.status(), "No hay archivo seleccionado.");
}

#[test]
fn cover_type_comes_from_the_extension() {
    let mut c = MainController::new();
    c.add_file(file("a.mp3", false, false));
    c.finish_adding(1);
    c.set_cover_from("dir/Front.JPEG", Ok(vec![1, 2]));
    assert_eq!(c.status(), "Portada cargada. Pulsa «Guardar tags» para escribirla.");
    let cover = c.selected().unwrap().tags.cover.clone().unwrap();
    assert_eq!(cover.mime_type, "image/jpeg");
    assert_eq!(cover.description, "Cover");
    assert_eq!(cover.data, vec![1, 2]);
    c.set_cover_from("dir/front.gif", Ok(vec![3]));
    assert_eq!(c.status(), "La portada debe ser PNG o JPEG.");
    assert_eq!(c.selected().unwrap().tags.cover.clone().unwrap().data, vec![1, 2]);
    c.set_cover_from("dir/front.png", Err("sin permiso".to_owned()));
    assert_eq!(c.status(), "No se pudo leer la portada: sin permiso");
    c.remove_cover();
    assert!(c.selected().unwrap().tags.cover.is_none());
    assert_eq!(c.status(), "Portada eliminada en memoria. Pulsa «Guardar tags».");
}

#[test]
fn mime_and_mp3_extensions() {
    assert_eq!(cover_mime_type(Some("PNG".to_owned())), Some("image/png".to_owned()));
    assert_eq!(cover_mime_type(Some("jpg".to_owned())), Some("image/jpeg".to_owned()));
    assert_eq!(cover_mime_type(Some("bmp".to_owned())), None);
    assert_eq!(cover_mime_type(None), None);
    assert!(is_mp3_extension(Some("Mp3".to_owned())));
    assert!(!is_mp3_extension(Some("mp4".to_owned())));
    assert!(!is_mp3_extension(None));
    assert!(MainController::is_mp3("a/b.MP3"));
    assert!(!MainController::is_mp3("a/mp3"));
}

#[test]
fn save_outcomes_set_the_status() {
    let mut c = MainController::new();
    c.add_file(file("a.mp3", true, false));
    let mut reloaded = file("elsewhere.mp3", false, false);
    reloaded.tags.title = "Nuevo".to_owned();
    c.finish_save(0, Ok(Ok(reloaded)));
    assert_eq!(c.status(), "Tags guardados como ID3v2.3.");
    assert_eq!(c.files()[0].path, "a.mp3");
    assert_eq!(c.files()[0].tags.title, "Nuevo");
    assert!(!c.files()[0].dirty);
    c.finish_save(0, Ok(Err(AppError::Io("x".to_owned()))));
    assert_eq!(c.status(), "Guardado, pero no se pudo recargar: Error de archivo: x");
    c.finish_save(0, Err(AppError::Message("El año debe ser un número entero".to_owned())));
    assert_eq!(c.status(), "No se pudo guardar: El año debe ser un número entero");
}

#[test]
fn normalize_statuses() {
    let mut c = MainController::new();
    c.finish_normalize_all(0, &vec![]);
    assert_eq!(c.status(), "No hay archivos cargados.");
    c.add_file(file("a.mp3", false, false));
    c.add_file(file("b.mp3", false, false));
    c.finish_normalize_all(2, &vec![]);
    assert_eq!(c.status(), "2 archivo(s) normalizado(s).");
    c.finish_normalize_all(1, &vec!["b.mp3: fallo".to_owned()]);
    assert_eq!(c.status(), "1 normalizado(s); 1 con error. Primero: b.mp3: fallo");
    c.finish_normalize_selected(Ok(()));
    assert_eq!(c.status(), "Archivo normalizado sin recodificar el audio.");
    c.finish_normalize_selected(Err("roto".to_owned()));
    assert_eq!(c.status(), "Error al normalizar: roto");
}

#[test]
fn counts_over_the_library() {
    let mut c = MainController::new();
    c.add_file(file("a.mp3", true, true));
    c.add_file(file("b.mp3", false, true));
    c.add_file(file("c.mp3", true, false));
    assert_eq!(c.warning_count(), 2);
    assert_eq!(c.dirty_count(), 2);
}

#[test]
fn removing_and_clearing() {
    let mut c = MainController::new();
    c.add_file(file("a.mp3", false, false));
    c.add_file(file("b.mp3", false, false));
    c.select(1);
    c.remove_selected();
    assert_eq!(c.files().len(), 1);
    assert_eq!(c.selected_index(), Some(0));
    c.remove_selected();
    assert_eq!(c.selected_index(), None);
    assert!(c.files().is_empty());
    c.add_file(file("a.mp3", false, false));
    c.clear();
    assert!(c.files().is_empty());
    assert_eq!(c.selected_index(), None);
}

#[test]
fn editing_the_selected_file() {
    let mut c = MainController::new();
    c.add_file(file("a.mp3", false, false));
    c.select(0);
    let mut tags = TagData::default();
    tags.title = "T".to_owned();
    c.update_selected(tags, true);
    assert_eq!(c.selected().unwrap().tags.title, "T");
    assert!(c.selected().unwrap().dirty);
    c.finish_reload(0, Ok(file("a.mp3", false, false)));
    assert_eq!(c.selected().unwrap().tags.title, "");
    assert_eq!(c.status(), "Archivo recargado.");
    c.set_output_dir("out".to_owned());
    assert_eq!(c.last_output_dir(), Some("out".to_owned()));
}

#[test]
fn cover_from_a_given_extension() {
    let mut c = MainController::new();
    c.set_cover_with_extension(Some("png".to_owned()), Ok(vec![9]));
    assert_eq!(c.status(), "No hay archivo seleccionado.");
    assert!(c.add_file(file("a.mp3", true, false)));
    c.select(0);
    c.set_cover_with_extension(Some("PnG".to_owned()), Ok(vec![9, 8]));
    let cover = c.selected().unwrap().tags.cover.clone().unwrap();
    assert_eq!(cover.mime_type, "image/png");
    assert_eq!(cover.description, "Cover");
    assert_eq!(cover.data, vec![9, 8]);
    assert!(c.selected().unwrap().dirty);
    assert_eq!(c.status(), "Portada cargada. Pulsa «Guardar tags» para escribirla.");
    c.set_cover_with_extension(None, Ok(vec![1]));
    assert_eq!(c.status(), "La portada debe ser PNG o JPEG.");
    assert_eq!(c.selected().unwrap().tags.cover.clone().unwrap().data, vec![9, 8]);
}

#[test]
fn plain_paths_decide_mp3_and_names() {
    assert!(MainController::is_mp3("music/Song.MP3"));
    assert!(MainController::is_mp3("song.mp3"));
    assert!(!MainController::is_mp3("music/.mp3"));
    assert!(!MainController::is_mp3("music/song.mp3.bak"));
    assert!(!MainController::is_mp3("music/song"));
    assert_eq!(file("music/Song.mp3", false, false).display_name(), "Song.mp3");
    assert_eq!(file("Song.mp3", false, false).display_name(), "Song.mp3");
}

#[test]
fn adding_loaded_files_keeps_paths_distinct_and_selects_the_first() {
    let mut c = MainController::new();
    let added = c.add_loaded(vec![
        file("a.mp3", false, false),
        file("B.mp3", false, false),
        file("A.MP3", false, false),
    ]);
    assert_eq!(added, 2);
    assert_eq!(c.files().len(), 2);
    assert_eq!(c.selected_index(), Some(0));
    assert_eq!(c.status(), "Se agregaron 2 archivo(s).");
    c.select(1);
    let added = c.add_loaded(vec![file("b.mp3", false, false), file("c.mp3", false, false)]);
    assert_eq!(added, 1);
    assert_eq!(c.files()[2].path, "c.mp3");
    assert_eq!(c.selected_index(), Some(1));
    assert_eq!(c.add_loaded(Vec::new()), 0);
    assert_eq!(c.status(), "No se agregaron MP3 nuevos.");
}

#[test]
fn saving_all_edited_files() {
    let mut c = MainController::new();
    c.add_loaded(vec![
        file("a.mp3", true, false),
        file("b.mp3", false, false),
        file("c.mp3", true, false),
    ]);
    assert_eq!(c.dirty_indexes(), vec![0, 2]);
    let mut tally = normalizador_nq4::controller::SaveTally::new();
    tally.record(&Ok(Ok(file("a.mp3", false, false))));
    tally.record(&Ok(Err(AppError::Message("x".to_owned()))));
    assert_eq!(tally.status(), "1 archivo(s) guardado(s) como ID3v2.3.");
    tally.record(&Err(AppError::Message("disco lleno".to_owned())));
    tally.record(&Err(AppError::Message("otro".to_owned())));
    assert_eq!(tally.saved_files(), 1);
    assert_eq!(tally.status(), "1 guardado(s). No se pudo guardar: disco lleno");
}

#[test]
fn drive_paths_read_their_extension() {
    assert!(MainController::is_mp3("C:\\Music\\Song.MP3"));
    assert!(MainController::is_mp3("D:song.mp3"));
    assert!(!MainController::is_mp3("C:\\Music\\song.mp3.bak"));
    let mut c = MainController::new();
    c.add_loaded(vec![file("a.mp3", false, false)]);
    c.set_cover_from("C:\\Imagenes\\portada.PNG", Ok(vec![7]));
    assert_eq!(c.selected().unwrap().tags.cover.clone().unwrap().mime_type, "image/png");
}
