use link_cplusplus as _;

use unreal_tools::encryption::{compute_key_121, decrypt, re_encrypt};
use unreal_tools::entries::{AnimationPropertyPresence, AnimationValues, TextureSettings};
use unreal_tools::extract::{plan_packages, sort_texts, UtxExtractMode, UtxExtractSummary};
use unreal_tools::formats::UtxFormat;
use unreal_tools::images::{build_dds, build_tga, dds_pixels, detect_format, tga_pixels};
use unreal_tools::layout::Split9;
use unreal_tools::listing::{ExportedAnimation, UtxEntry};
use unreal_tools::metadata::{parse_texture_metadata, texture_metadata_text};
use unreal_tools::names::{read_names, NameEntry, NameTable};
use unreal_tools::preview::{encode_png, encode_preview, preview_of_png};
use unreal_tools::reader::{Dialect, Reader};

fn header(text: &str) -> Vec<u8> {
    text.encode_utf16().flat_map(|unit| unit.to_le_bytes()).collect()
}

fn entry() -> UtxEntry {
    UtxEntry {
        name: "Buttons.button".into(),
        format: UtxFormat::Rgba8,
        export_index: 0,
        width: 1,
        height: 1,
        has_alpha: false,
        has_split9: false,
        split9_x1: 0,
        split9_x2: 0,
        split9_x3: 0,
        split9_y1: 0,
        split9_y2: 0,
        split9_y3: 0,
        settings: TextureSettings {
            alpha: None,
            masked: None,
            u_clamp: None,
            v_clamp: None,
            u_clamp_mode: None,
            v_clamp_mode: None,
        },
        animation: None,
    }
}

#[test]
fn the_key_of_a_name_is_the_sum_of_its_letters_in_lower_case() {
    assert_eq!(compute_key_121("ab.utx"), 82);
    assert_eq!(compute_key_121("AB.UTX"), 82);
    assert_eq!(compute_key_121("Á"), 0xe1);
    assert_eq!(compute_key_121(""), 0);
}

#[test]
fn encrypted_files_are_read_and_stored_again() {
    for (version, key) in [("Lineage2Ver111", 0x2c), ("Lineage2Ver121", 82)] {
        let mut raw = header(version);
        raw.extend([1u8, 2, 3, 250].iter().map(|byte| byte ^ key));
        let opened = decrypt(raw.clone(), "Ab.utx").unwrap();
        assert!(opened.encrypted);
        assert_eq!(opened.xor_key, key);
        assert_eq!(opened.working, vec![1, 2, 3, 250]);
        assert_eq!(opened.header, header(version));
        assert_eq!(re_encrypt(&opened.working, &opened), raw);
    }
}

#[test]
fn files_without_a_header_are_taken_as_they_are() {
    for raw in [vec![], vec![1, 2, 3], vec![7; 64]] {
        let opened = decrypt(raw.clone(), "Ab.utx").unwrap();
        assert!(!opened.encrypted);
        assert_eq!(opened.working, raw);
        assert_eq!(re_encrypt(&opened.working, &opened), raw);
    }
}

#[test]
fn unknown_encryptions_are_refused() {
    let error = decrypt(header("Lineage2Ver413"), "Ab.utx").unwrap_err();
    assert_eq!(error, "A criptografia Lineage 2 v413 não é suportada.");
    let error = decrypt(header("Lineage2Verabc"), "Ab.utx").unwrap_err();
    assert_eq!(error, "Cabeçalho de criptografia Lineage 2 inválido.");
}

#[test]
fn packages_of_one_name_get_their_own_folders() {
    let paths = ["/a/Icons.utx", "/b/Icons.utx", "/a/Icons.utx", "/b/Other.utx"];
    let files = paths.iter().map(|path| String::from(*path)).collect();
    let sources = plan_packages(&files).unwrap();
    let folders: Vec<&str> = sources.iter().map(|source| source.directory.as_str()).collect();
    assert_eq!(folders, vec!["Icons", "Icons (2)", "Other"]);
    assert_eq!(sources[1].path, "/b/Icons.utx");
    assert_eq!(sources[1].display_name, "Icons.utx");
    let error = plan_packages(&Vec::new()).unwrap_err();
    assert_eq!(error, "Selecione ao menos um arquivo UTX para extrair.");
}

#[test]
fn extracted_textures_are_counted_by_their_outcome() {
    let mut summary = UtxExtractSummary::start(2, "/out");
    let png = UtxExtractMode::Png;
    summary.count_texture(png, UtxFormat::Rgba8, "A.utx", "G.one", Ok(()));
    summary.count_texture(png, UtxFormat::P8, "A.utx", "G.two", Err("no preview".into()));
    summary.count_texture(png, UtxFormat::Dxt1, "A.utx", "G.three", Err("cut".into()));
    summary.count_unread_package("B.utx", "no package");
    assert_eq!((summary.exported, summary.skipped, summary.failed), (1, 1, 2));
    assert_eq!(
        summary.errors,
        vec!["A.utx / G.two: no preview", "A.utx / G.three: cut", "B.utx: no package"]
    );
}

#[test]
fn texts_are_sorted_by_their_characters() {
    let texts = ["b", "B", "", "ab", "a", "é"].iter().map(|text| String::from(*text)).collect();
    assert_eq!(sort_texts(&texts), vec!["", "B", "a", "ab", "b", "é"]);
}

#[test]
fn formats_are_read_back_from_their_bytes() {
    for value in 0..=10 {
        assert_eq!(UtxFormat::from_value(value).value(), Some(value));
    }
    assert_eq!(UtxFormat::from_value(11), UtxFormat::Unknown);
    assert_eq!(UtxFormat::Unknown.value(), None);
    assert_eq!(detect_format(8, 4, 4), UtxFormat::Dxt1);
}

#[test]
fn written_images_are_read_back() {
    let pixels: Vec<u8> = (0..24).collect();
    let tga = build_tga(&pixels, 3, 2).unwrap();
    assert_eq!(tga.len(), 18 + 24);
    assert_eq!(tga_pixels(&tga).unwrap(), (3, 2, pixels));
    let blocks: Vec<u8> = (0..16).collect();
    let dds = build_dds(&blocks, 4, 4, UtxFormat::Dxt5).unwrap();
    assert_eq!(dds_pixels(&dds).unwrap(), (UtxFormat::Dxt5, 4, 4, blocks));
    assert!(dds_pixels(&dds[..100]).is_err());
    assert!(tga_pixels(&tga[..17]).is_err());
}

#[test]
fn name_tables_are_read_back() {
    let entries = vec![
        NameEntry { name: "None".into(), flags: 0x0407_0410 },
        NameEntry { name: "".into(), flags: 0 },
        NameEntry { name: "Ícone".into(), flags: -1 },
    ];
    let table = NameTable::new(entries);
    let written = table.serialize().unwrap();
    let names = read_names(&mut Reader::new(&written, Dialect::Engine), 3).unwrap();
    for (read, stored) in names.iter().zip(table.entries()) {
        assert_eq!(read.name, stored.name);
        assert_eq!(read.flags, stored.flags);
    }
    assert!(read_names(&mut Reader::new(&written, Dialect::Engine), 4).is_err());
}

#[test]
fn previews_hold_the_png_file_as_base64() {
    let preview = preview_of_png(&[1, 2, 3, 255], 2, 1);
    assert_eq!(preview.data_url, "data:image/png;base64,AQID/w==");
    assert_eq!((preview.width, preview.height), (2, 1));
    assert_eq!(preview_of_png(&[], 1, 1).data_url, "data:image/png;base64,");

    let pixels = [1, 2, 3, 4, 5, 6, 7, 8];
    let png = encode_png(&pixels, 2, 1, UtxFormat::Rgba8).unwrap();
    assert_eq!(&png[..8], &[137, 80, 78, 71, 13, 10, 26, 10]);
    let mut reader = png::Decoder::new(png.as_slice()).read_info().unwrap();
    let mut shown = vec![0; reader.output_buffer_size()];
    reader.next_frame(&mut shown).unwrap();
    assert_eq!((reader.info().width, reader.info().height), (2, 1));
    assert_eq!(shown, vec![3, 2, 1, 4, 7, 6, 5, 8]);
    let preview = encode_preview(&pixels, 2, 1, UtxFormat::Rgba8).unwrap();
    assert_eq!(preview.data_url, preview_of_png(&png, 2, 1).data_url);
}

#[test]
fn textures_that_cannot_be_shown_are_refused() {
    let error = encode_png(&[1, 2, 3, 4], 0, 1, UtxFormat::Rgba8).unwrap_err();
    assert_eq!(error, "A textura não possui dimensões válidas.");
    let error = encode_png(&[1], 1, 1, UtxFormat::P8).unwrap_err();
    assert_eq!(error, "Formato de prévia não suportado.");
    assert!(encode_png(&[1, 2, 3], 1, 1, UtxFormat::Rgba8).is_err());
}

#[test]
fn text_files_give_back_parts_and_animations() {
    let entry = UtxEntry {
        has_split9: true,
        split9_x1: 1,
        split9_x2: -2,
        split9_x3: 3,
        split9_y1: 4,
        split9_y2: 5,
        split9_y3: 2147483647,
        settings: TextureSettings { masked: Some(true), v_clamp: Some(-8), ..entry().settings },
        animation: Some(ExportedAnimation {
            anim_next: Some("Buttons.next".into()),
            values: AnimationValues {
                anim_next: 3,
                max_frame_rate: 12.5f32.to_bits(),
                min_frame_rate: 2f32.to_bits(),
                one_time_anim_loop: true,
                prime_count: 4,
                total_frame_num: 9,
            },
            properties: AnimationPropertyPresence {
                anim_next: true,
                max_frame_rate: true,
                min_frame_rate: false,
                one_time_anim_loop: true,
                prime_count: true,
                total_frame_num: true,
            },
        }),
        ..entry()
    };
    let content = texture_metadata_text(&entry, "12.5", "2").unwrap();
    let notes = parse_texture_metadata(&content);
    assert_eq!(notes.settings.masked, Some(true));
    assert_eq!(notes.settings.v_clamp, Some(-8));
    assert_eq!(notes.settings.alpha, None);
    assert_eq!(notes.max_rate.as_deref(), Some("12.5"));
    assert_eq!(notes.min_rate, None);
    let metadata = notes.metadata(Some(12.5f32.to_bits()), None);
    let split9 = metadata.split9.unwrap();
    assert_eq!(split9, Split9 { x1: 1, x2: -2, x3: 3, y1: 4, y2: 5, y3: 2147483647 });
    let animation = metadata.animation.unwrap();
    assert_eq!(animation.anim_next.as_deref(), Some("Buttons.next"));
    assert_eq!(animation.max_frame_rate, Some(12.5f32.to_bits()));
    assert_eq!(animation.min_frame_rate, None);
    assert_eq!(animation.one_time_anim_loop, Some(true));
    assert_eq!(animation.prime_count, Some(4));
    assert_eq!(animation.total_frame_num, Some(9));
}

#[test]
fn textures_with_nothing_to_say_get_no_text_file() {
    assert_eq!(texture_metadata_text(&entry(), "", ""), None);
    let metadata = parse_texture_metadata("; a note\n[Texture]\nAlpha=maybe\n").metadata(None, None);
    assert_eq!(metadata.settings.alpha, None);
    assert!(metadata.split9.is_none());
    assert!(metadata.animation.is_none());
}

#[test]
fn folders_that_are_taken_are_passed_over() {
    let folders_of = |paths: &[&str]| -> Vec<String> {
        let files = paths.iter().map(|path| String::from(*path)).collect();
        plan_packages(&files).unwrap().into_iter().map(|source| source.directory).collect()
    };
    assert_eq!(folders_of(&["x/A.utx", "y/A.utx", "z/A (2).utx"]), vec!["A", "A (2)", "A (2) (2)"]);
    assert_eq!(folders_of(&["z/A (2).utx", "x/A.utx", "y/A.utx"]), vec!["A (2)", "A", "A (3)"]);
}

#[test]
fn odd_animation_texts_leave_settings_and_parts_alone() {
    let odd = UtxEntry {
        has_split9: true,
        split9_x1: 7,
        settings: TextureSettings { alpha: Some(true), ..entry().settings },
        animation: Some(ExportedAnimation {
            anim_next: Some("  next\nof = two ".into()),
            values: AnimationValues {
                anim_next: 3,
                max_frame_rate: 0,
                min_frame_rate: 0,
                one_time_anim_loop: false,
                prime_count: 0,
                total_frame_num: 0,
            },
            properties: AnimationPropertyPresence {
                anim_next: true,
                max_frame_rate: true,
                min_frame_rate: false,
                one_time_anim_loop: false,
                prime_count: false,
                total_frame_num: false,
            },
        }),
        ..entry()
    };
    let content = texture_metadata_text(&odd, " a\nrate ", "").unwrap();
    let metadata = parse_texture_metadata(&content).metadata(None, None);
    assert_eq!(metadata.settings.alpha, Some(true));
    assert_eq!(metadata.settings.masked, None);
    assert_eq!(metadata.split9.unwrap().x1, 7);
}

#[test]
fn sections_that_set_no_key_change_nothing() {
    let text = "[Texture]\nAlpha=True\n\n[Split9]\nSplit9X1=7\n\n[Animations]\nAnimNext=a\n[Split9]\nPrimeCount=4\n";
    let metadata = parse_texture_metadata(text).metadata(None, None);
    assert_eq!(metadata.settings.alpha, Some(true));
    assert_eq!(metadata.split9.unwrap().x1, 7);
}

#[test]
fn an_extraction_counts_everything_and_describes_the_first_failures() {
    let mut summary = UtxExtractSummary::start(3, "/out");
    let png = UtxExtractMode::Png;
    for i in 0..30 {
        let result = if i % 3 == 0 { Ok(()) } else { Err(format!("error {i}")) };
        summary.count_texture(png, UtxFormat::Rgba8, "A.utx", "G.t", result);
        assert_eq!(summary.exported + summary.skipped + summary.failed, i + 1);
        assert_eq!(summary.errors.len(), (summary.skipped + summary.failed).min(20));
    }
    summary.count_unread_package("B.utx", "no package");
    assert_eq!((summary.exported, summary.skipped, summary.failed), (10, 0, 21));
    assert_eq!(summary.errors.len(), 20);
    assert_eq!(summary.errors[19], "A.utx / G.t: error 29");
}
