use normalizador_nq4::model::{AppError, CoverArt, NormalizationOptions, TagData};
use normalizador_nq4::normalizer::{cover_needs_resize, IpodSafeNormalizer, NormalizeStep};

fn ape_footer(size: u32, is_header: bool) -> Vec<u8> {
    let mut v = b"APETAGEX".to_vec();
    v.extend_from_slice(&2000_u32.to_le_bytes());
    v.extend_from_slice(&size.to_le_bytes());
    v.extend_from_slice(&1_u32.to_le_bytes());
    v.extend_from_slice(&(if is_header { 0xA000_0000_u32 } else { 0x8000_0000 }).to_le_bytes());
    v.extend_from_slice(&[0; 8]);
    v
}

fn last(data: &[u8], n: usize) -> &[u8] {
    &data[data.len().saturating_sub(n)..]
}

#[test]
fn id3v1_is_cut_when_present() {
    let mut data = vec![0xFF_u8; 300];
    let mut v1 = b"TAG".to_vec();
    v1.resize(128, 0);
    data.extend_from_slice(&v1);
    let len = data.len() as u64;
    assert_eq!(IpodSafeNormalizer::id3v1_stripped_len(last(&data, 160), len), 300);
    let plain = vec![0xFF_u8; 300];
    assert_eq!(IpodSafeNormalizer::id3v1_stripped_len(last(&plain, 160), 300), 300);
    let tiny = vec![b'T'; 10];
    assert_eq!(IpodSafeNormalizer::id3v1_stripped_len(&tiny, 10), 10);
}

#[test]
fn apev2_with_header_is_cut_with_it() {
    let mut data = vec![0xFF_u8; 100];
    data.extend_from_slice(&ape_footer(48, true));
    data.extend_from_slice(&[7; 16]);
    data.extend_from_slice(&ape_footer(48, false));
    assert_eq!(IpodSafeNormalizer::apev2_stripped_len(&data).unwrap(), 100);
    let len = data.len() as u64;
    let start = IpodSafeNormalizer::apev2_body_start(last(&data, 32), len).unwrap().unwrap();
    assert_eq!(start, 132);
    let probe = &data[(start - 32) as usize..(start - 24) as usize];
    assert_eq!(IpodSafeNormalizer::apev2_cut(start, probe), 100);
}

#[test]
fn apev2_without_header_keeps_what_precedes() {
    let mut data = vec![0xFF_u8; 100];
    data.extend_from_slice(&[7; 16]);
    data.extend_from_slice(&ape_footer(48, false));
    assert_eq!(IpodSafeNormalizer::apev2_stripped_len(&data).unwrap(), 100);
}

#[test]
fn no_apev2_leaves_the_length() {
    let data = vec![0x41_u8; 50];
    assert_eq!(IpodSafeNormalizer::apev2_stripped_len(&data).unwrap(), 50);
    assert_eq!(IpodSafeNormalizer::apev2_stripped_len(&[1, 2, 3]).unwrap(), 3);
    assert!(IpodSafeNormalizer::apev2_body_start(&[1, 2, 3], 3).unwrap().is_none());
}

#[test]
fn apev2_with_impossible_size_is_an_error() {
    let mut data = vec![0_u8; 10];
    data.extend_from_slice(&ape_footer(4000, false));
    match IpodSafeNormalizer::apev2_stripped_len(&data) {
        Err(AppError::Message(m)) => {
            assert_eq!(m, "Se detectó APEv2, pero su tamaño es inválido; no se modificó")
        }
        other => panic!("unexpected {other:?}"),
    }
    let mut small = vec![0_u8; 10];
    small.extend_from_slice(&ape_footer(16, false));
    assert!(IpodSafeNormalizer::apev2_stripped_len(&small).is_err());
}

fn png(width: u32, height: u32) -> Vec<u8> {
    let img = image::RgbaImage::from_pixel(width, height, image::Rgba([200, 10, 10, 255]));
    let mut out = std::io::Cursor::new(Vec::new());
    image::DynamicImage::ImageRgba8(img)
        .write_to(&mut out, image::ImageFormat::Png)
        .unwrap();
    out.into_inner()
}

fn with_cover(data: Vec<u8>) -> TagData {
    TagData {
        title: "t".to_owned(),
        cover: Some(CoverArt {
            mime_type: "image/png".to_owned(),
            description: "Portada".to_owned(),
            data,
        }),
        ..TagData::default()
    }
}

#[test]
fn cover_becomes_a_bounded_jpeg() {
    let options = NormalizationOptions { max_cover_size: 8, ..NormalizationOptions::default() };
    let out = IpodSafeNormalizer::normalize_cover(&with_cover(png(20, 10)), &options).unwrap();
    let cover = out.cover.unwrap();
    assert_eq!(cover.mime_type, "image/jpeg");
    assert_eq!(cover.description, "Portada");
    assert_eq!(out.title, "t");
    let decoded = image::load_from_memory(&cover.data).unwrap();
    assert!(decoded.width() <= 8 && decoded.height() <= 8);
    assert_eq!(image::guess_format(&cover.data).unwrap(), image::ImageFormat::Jpeg);
}

#[test]
fn small_cover_keeps_its_size() {
    let out = IpodSafeNormalizer::normalize_cover(&with_cover(png(4, 3)), &NormalizationOptions::default())
        .unwrap();
    let decoded = image::load_from_memory(&out.cover.unwrap().data).unwrap();
    assert_eq!((decoded.width(), decoded.height()), (4, 3));
}

#[test]
fn cover_left_alone_when_not_asked_or_absent() {
    let options = NormalizationOptions { normalize_cover: false, ..NormalizationOptions::default() };
    let data = with_cover(vec![1, 2, 3]);
    let out = IpodSafeNormalizer::normalize_cover(&data, &options).unwrap();
    assert_eq!(out.cover.unwrap().data, vec![1, 2, 3]);
    let none = TagData::default();
    let out = IpodSafeNormalizer::normalize_cover(&none, &NormalizationOptions::default()).unwrap();
    assert!(out.cover.is_none());
}

#[test]
fn undecodable_cover_is_an_image_error() {
    let result = IpodSafeNormalizer::normalize_cover(&with_cover(vec![1, 2, 3]), &NormalizationOptions::default());
    assert!(matches!(result, Err(AppError::Image(_))));
}

#[test]
fn resize_decision() {
    assert!(cover_needs_resize(601, 10, 600));
    assert!(cover_needs_resize(10, 601, 600));
    assert!(!cover_needs_resize(600, 600, 600));
}

#[test]
fn steps_follow_the_options() {
    let all = NormalizationOptions::default();
    assert_eq!(
        IpodSafeNormalizer::steps(&all),
        vec![
            NormalizeStep::BackupOriginal,
            NormalizeStep::CopyToOutput,
            NormalizeStep::StripId3v1,
            NormalizeStep::StripApev2,
            NormalizeStep::WriteCleanTag,
        ]
    );
    let none = NormalizationOptions {
        create_backup: false,
        strip_id3v1: false,
        strip_apev2: false,
        normalize_cover: false,
        max_cover_size: 600,
        jpeg_quality: 88,
    };
    assert_eq!(
        IpodSafeNormalizer::steps(&none),
        vec![NormalizeStep::CopyToOutput, NormalizeStep::WriteCleanTag]
    );
    let only_ape = NormalizationOptions { strip_apev2: true, ..none.clone() };
    assert_eq!(
        IpodSafeNormalizer::steps(&only_ape),
        vec![NormalizeStep::CopyToOutput, NormalizeStep::StripApev2, NormalizeStep::WriteCleanTag]
    );
}

#[test]
fn encoded_cover_replaces_the_cover() {
    let data = with_cover(vec![1, 2, 3]);
    let done = IpodSafeNormalizer::with_encoded_cover(&data, Ok(vec![0xFF, 0xD8])).unwrap();
    let cover = done.cover.unwrap();
    assert_eq!(cover.mime_type, "image/jpeg");
    assert_eq!(cover.data, vec![0xFF, 0xD8]);
    assert_eq!(cover.description, data.cover.clone().unwrap().description);
    assert_eq!(done.title, data.title);
    match IpodSafeNormalizer::with_encoded_cover(&data, Err("bad".to_owned())) {
        Err(AppError::Image(m)) => assert_eq!(m, "bad"),
        _ => panic!("expected an image error"),
    }
}
