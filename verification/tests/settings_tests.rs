use sts_rust::about::AboutDialog;
use sts_rust::encoding::TextEncoding;
use sts_rust::i18n::{en_us, ja_jp, translation, zh_cn, Language};
use sts_rust::images::{find_image_by_index, image_file_candidates, image_number, is_image_extension};
use sts_rust::settings::{AeKeyframeVersion, CsvEncoding, ThemeMode};

#[test]
fn theme_mode_names_round_trip() {
    for m in [ThemeMode::System, ThemeMode::Light, ThemeMode::Dark] {
        assert_eq!(ThemeMode::from_str(m.as_str()), m);
    }
    assert_eq!(ThemeMode::from_str("DARK"), ThemeMode::Dark);
    assert_eq!(ThemeMode::from_str("Light"), ThemeMode::Light);
    assert_eq!(ThemeMode::from_str("blue"), ThemeMode::System);
    assert_eq!(ThemeMode::default(), ThemeMode::System);
}

#[test]
fn keyframe_version_names_and_positions() {
    for v in [AeKeyframeVersion::V6, AeKeyframeVersion::V7, AeKeyframeVersion::V8, AeKeyframeVersion::V9] {
        assert_eq!(AeKeyframeVersion::from_str(v.as_str()), v);
        assert_eq!(AeKeyframeVersion::from_index(v.index()), v);
    }
    assert_eq!(AeKeyframeVersion::V7.as_str(), "7.0");
    assert_eq!(AeKeyframeVersion::from_str("5.0"), AeKeyframeVersion::V9);
    assert_eq!(AeKeyframeVersion::from_index(17), AeKeyframeVersion::V9);
    assert_eq!(AeKeyframeVersion::V8.index(), 2);
    assert_eq!(AeKeyframeVersion::default(), AeKeyframeVersion::V9);
}

#[test]
fn csv_encoding_names_round_trip() {
    for e in [CsvEncoding::Utf8, CsvEncoding::Gb2312, CsvEncoding::ShiftJis] {
        assert_eq!(CsvEncoding::from_str(e.as_str()), e);
    }
    assert_eq!(CsvEncoding::from_str("latin1"), CsvEncoding::Gb2312);
    assert_eq!(CsvEncoding::Gb2312.text_encoding(), TextEncoding::Gbk);
}

#[test]
fn translations() {
    assert_eq!(en_us().menu_file, "File");
    assert_eq!(zh_cn().menu_file, "文件");
    assert_eq!(ja_jp().btn_ok, "OK");
    assert_eq!(translation(Language::En).ctx_copy, "Copy");
    assert_eq!(translation(Language::Zh).menu_edit, zh_cn().menu_edit);
    assert_eq!(translation(Language::Ja).player_stop, ja_jp().player_stop);
}

#[test]
fn about_dialog_starts_closed() {
    assert!(!AboutDialog::default().open);
}

#[test]
fn image_numbers_from_file_stems() {
    assert_eq!(image_number("Layer_A_005"), Some(5));
    assert_eq!(image_number("frame"), None);
    assert_eq!(image_number("a1b2"), Some(12));
    assert_eq!(image_number("99999999999"), None);
    let stems = vec!["cover".to_string(), "img_02".to_string(), "img_2".to_string()];
    assert_eq!(find_image_by_index(&stems, 2), Some(1));
    assert_eq!(find_image_by_index(&stems, 3), None);
}

#[test]
fn image_file_name_candidates() {
    let c = image_file_candidates(7);
    assert_eq!(c.len(), 12);
    assert_eq!(c[0], "7.png");
    assert_eq!(c[3], "7.tif");
    assert_eq!(c[4], "0007.png");
    assert_eq!(c[9], "007.jpg");
    assert_eq!(image_file_candidates(12345)[5], "12345.jpg");
}

#[test]
fn image_extensions() {
    assert!(is_image_extension("PNG"));
    assert!(is_image_extension("tiff"));
    assert!(!is_image_extension("gif"));
}
