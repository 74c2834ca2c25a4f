use normalizador_nq4::batch::BatchJob;
use normalizador_nq4::icon::put_pixel;
use normalizador_nq4::model::NormalizationOptions;
use normalizador_nq4::scanner::Mp3FileScanner;

#[test]
fn batch_hands_out_every_index_once() {
    let mut job = BatchJob::new(3, NormalizationOptions::default());
    let mut seen = Vec::new();
    while let Some(i) = job.take_next() {
        seen.push(i);
        job.record(if i == 1 { Some(("b.mp3".to_owned(), "fallo".to_owned())) } else { None });
    }
    assert_eq!(seen, vec![0, 1, 2]);
    assert_eq!(job.completed_files(), 3);
    assert_eq!(job.total_files(), 3);
    assert_eq!(job.finish_status(), "2 completado(s), 1 error(es). b.mp3: fallo");
}

#[test]
fn batch_without_errors() {
    let mut job = BatchJob::new(2, NormalizationOptions::default());
    while job.take_next().is_some() {
        job.record(None);
    }
    assert_eq!(job.finish_status(), "2 archivo(s) normalizado(s) correctamente.");
    assert_eq!(job.job_options().max_cover_size, 600);
}

#[test]
fn paths_sorted_by_lower_case_and_stable() {
    let paths = vec![
        "b/Zeta.mp3".to_owned(),
        "B/alpha.mp3".to_owned(),
        "a/x.mp3".to_owned(),
        "A/X.mp3".to_owned(),
        "b/Alpha.mp3".to_owned(),
    ];
    let sorted = Mp3FileScanner::sort_paths(paths.clone());
    let mut expected = paths;
    expected.sort_by_key(|p| p.to_lowercase());
    assert_eq!(sorted, expected);
    assert_eq!(sorted[0], "a/x.mp3");
    assert_eq!(sorted[1], "A/X.mp3");
}

#[test]
fn put_pixel_writes_four_bytes() {
    let mut pixels = vec![0_u8; 2 * 2 * 4];
    put_pixel(&mut pixels, 2, 1, 1, [1, 2, 3, 4]);
    assert_eq!(&pixels[12..16], &[1, 2, 3, 4]);
    assert!(pixels[..12].iter().all(|&b| b == 0));
    put_pixel(&mut pixels, 2, 0, 0, [9, 9, 9, 9]);
    assert_eq!(&pixels[0..4], &[9, 9, 9, 9]);
}

#[test]
fn failure_text_joins_name_and_error() {
    assert_eq!(
        normalizador_nq4::batch::failure_text("a.mp3".to_owned(), "sin permiso"),
        "a.mp3: sin permiso"
    );
}
