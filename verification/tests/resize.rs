use link_cplusplus as _;

use image_dds::image::{DynamicImage, ImageFormat, Rgba, RgbaImage};
use image_dds::{dds_from_image, Mipmaps, Quality};
use unreal_tools::app_settings::{
    load, next_step, parse_settings, parsed_settings, prepared_settings, serialize_settings,
    settings_file, temporary_settings_file, AppSettings, SaveStep, SettingsRead, StepOutcome,
};
use unreal_tools::resize_metadata::{
    can_scale_metadata, metadata_text, scale_metadata, scale_value, Scaling,
};
use unreal_tools::resize_run::{ResizeJob, ResizeRun};
use unreal_tools::texture_resize::{
    build_legacy_dxt_dds, decode_texture, dds_texture, encode_texture, encoded_dds, entry_action,
    has_countable_rows, is_supported_resolution, is_supported_texture_path, output_file,
    reports_progress, resizable_format, resize_progress, should_resize, tga_texture,
    validate_resolution, DdsFormat, EntryAction, EntryKind, RasterImage, ResizeTotals, TextureKind,
};

fn raster(width: u32, height: u32) -> RasterImage {
    let mut pixels = Vec::new();
    for y in 0..height {
        for x in 0..width {
            pixels.extend_from_slice(&[(x * 4) as u8, (y * 4) as u8, 120, 255]);
        }
    }
    RasterImage { width, height, pixels }
}

fn tga_of(image: &RasterImage) -> Vec<u8> {
    let image = RgbaImage::from_raw(image.width, image.height, image.pixels.clone()).unwrap();
    let mut encoded = std::io::Cursor::new(Vec::new());
    DynamicImage::ImageRgba8(image).write_to(&mut encoded, ImageFormat::Tga).unwrap();
    encoded.into_inner()
}

fn dds_of(format: image_dds::ImageFormat) -> Vec<u8> {
    let image = RgbaImage::from_fn(64, 64, |x, y| Rgba([(x * 4) as u8, 40, (y * 4) as u8, 255]));
    let dds = dds_from_image(&image, format, Quality::Fast, Mipmaps::Disabled).unwrap();
    let mut output = Vec::new();
    dds.write(&mut output).unwrap();
    output
}

#[test]
fn accepts_only_ue2_power_of_two_resolutions() {
    assert!(is_supported_resolution(32));
    assert!(is_supported_resolution(2048));
    assert!(!is_supported_resolution(48));
    assert!(!is_supported_resolution(4096));
}

#[test]
fn scales_only_geometry_metadata_values() {
    let metadata = "[Texture]\r\nAlpha=True\r\nUClamp=64\r\nVClamp=32\r\n[Split9]\r\nSplit9X1=8\r\nSplit9X2=16\r\nSplit9X3=40\r\nSplit9Y1=4\r\nSplit9Y2=12\r\nSplit9Y3=16\r\n[Animations]\r\nPrimeCount=3\r\n";
    assert!(can_scale_metadata(metadata, 64, 32, 32));
    let scaled = scale_metadata(metadata, 64, 32, 32);
    assert!(scaled.contains("UClamp=32\r\n"));
    assert!(scaled.contains("VClamp=32\r\n"));
    assert!(scaled.contains("Split9X1=4\r\n"));
    assert!(scaled.contains("Split9Y2=12\r\n"));
    assert!(scaled.contains("PrimeCount=3\r\n"));
}

#[test]
fn resolutions_that_are_refused_are_named() {
    assert!(validate_resolution(64).is_ok());
    assert!(validate_resolution(65).is_err());
    assert!(is_supported_texture_path("a/b.TGA"));
    assert!(is_supported_texture_path("a/b.dds"));
    assert!(!is_supported_texture_path("a/b.png"));
}

#[test]
fn resized_textures_are_encoded_in_their_own_format() {
    let source = raster(64, 64);
    let decoded = decode_texture("panel/button.tga", &tga_of(&source)).unwrap();
    assert_eq!(decoded.kind, TextureKind::Tga);
    assert_eq!((decoded.image.width, decoded.image.height), (64, 64));
    assert_eq!(decoded.image.pixels, source.pixels);
    assert!(should_resize(&decoded.image, 64, 32));
    assert!(!should_resize(&raster(32, 32), 64, 32));

    let written = encode_texture(&raster(32, 32), TextureKind::Tga).unwrap();
    let again = decode_texture("button.tga", &written).unwrap();
    assert_eq!((again.image.width, again.image.height), (32, 32));
    assert_eq!(again.image.pixels, raster(32, 32).pixels);

    for (format, expected, size) in [
        (image_dds::ImageFormat::BC1RgbaUnorm, DdsFormat::Dxt1, 640),
        (image_dds::ImageFormat::BC2RgbaUnorm, DdsFormat::Dxt3, 1152),
        (image_dds::ImageFormat::BC3RgbaUnorm, DdsFormat::Dxt5, 1152),
    ] {
        let file = dds_of(format);
        assert!(has_countable_rows(&file));
        let decoded = decode_texture("panel/button_dxt.dds", &file).unwrap();
        assert_eq!(decoded.kind, TextureKind::Dds(expected));
        assert_eq!((decoded.image.width, decoded.image.height), (64, 64));
        let written = encode_texture(&raster(32, 32), decoded.kind).unwrap();
        assert_eq!(written.len(), size);
        assert_eq!(&written[..4], b"DDS ");
        let again = decode_texture("button_dxt.dds", &written).unwrap();
        assert_eq!(again.kind, decoded.kind);
        assert_eq!((again.image.width, again.image.height), (32, 32));
    }
}

#[test]
fn images_without_pixels_become_no_dds_file() {
    let empty = RasterImage { width: 0, height: 4, pixels: Vec::new() };
    let error = encode_texture(&empty, TextureKind::Dds(DdsFormat::Dxt1)).unwrap_err();
    assert!(error.starts_with("Não foi possível codificar o DDS: "));
    let one = RasterImage { width: 1, height: 5, pixels: vec![9; 20] };
    let file = encode_texture(&one, TextureKind::Dds(DdsFormat::Dxt3)).unwrap();
    assert_eq!(file.len(), 128 + 32);
    let error = encode_texture(&one, TextureKind::Dds(DdsFormat::Other)).unwrap_err();
    assert_eq!(error, "Formato DDS incompatível para o Unreal Engine 2.");
}

#[test]
fn files_that_hold_no_texture_are_refused_by_name() {
    let error = decode_texture("a/broken.tga", &[1, 2, 3]).unwrap_err();
    assert!(error.contains("a/broken.tga"));
    let unread: Result<RasterImage, String> = Err(String::from("cut short"));
    assert!(tga_texture("a.tga", unread).unwrap_err().contains("cut short"));
    assert!(resizable_format("a.dds", Ok(Ok(DdsFormat::Other))).is_err());
    assert!(resizable_format("a.dds", Err(String::from("no header"))).is_err());
    assert_eq!(resizable_format("a.dds", Ok(Ok(DdsFormat::Dxt3))), Ok(DdsFormat::Dxt3));
    assert!(dds_texture("a.dds", DdsFormat::Dxt1, Err(String::from("odd"))).is_err());
    let rgba = dds_of(image_dds::ImageFormat::Rgba8Unorm);
    if has_countable_rows(&rgba) {
        assert!(decode_texture("a.dds", &rgba).is_err());
    }
}

#[test]
fn a_legacy_header_stands_before_the_blocks() {
    let file = build_legacy_dxt_dds(4, 4, DdsFormat::Dxt1, &[1, 2, 3, 4, 5, 6, 7, 8]).unwrap();
    assert_eq!(file.len(), 136);
    assert_eq!(&file[84..88], b"DXT1");
    assert_eq!(&file[128..], &[1, 2, 3, 4, 5, 6, 7, 8]);
    assert!(build_legacy_dxt_dds(4, 4, DdsFormat::Dxt1, &[1, 2, 3]).is_err());
    let refused = encoded_dds(&raster(4, 4), DdsFormat::Dxt1, Err(String::from("odd")));
    assert_eq!(refused.unwrap_err(), "Não foi possível codificar o DDS: odd");
}

#[test]
fn values_are_scaled_to_the_nearest() {
    assert_eq!(scale_value(8, 64, 32), 4);
    assert_eq!(scale_value(12, 32, 32), 12);
    assert_eq!(scale_value(0, 64, 32), 0);
    let text = "[Texture]\nUClamp=64\n";
    let scaling = Scaling { width: 64, height: 64, resolution: 32 };
    assert_eq!(metadata_text(text, true, scaling), "[Texture]\nUClamp=32\n");
    let scaling = Scaling { width: 64, height: 64, resolution: 32 };
    assert_eq!(metadata_text(text, false, scaling), text);
}

#[test]
fn every_texture_is_counted_once() {
    let mut totals = ResizeTotals::empty();
    totals.record("a.tga", Ok((true, true)));
    totals.record("b.tga", Ok((false, false)));
    totals.record("c.tga", Err(String::from("odd")));
    let summary = totals.summary("modified", 3);
    assert_eq!(summary.resized_files, 1);
    assert_eq!(summary.preserved_files, 1);
    assert_eq!(summary.copied_metadata, 1);
    assert_eq!(summary.failed_files, 1);
    assert!(summary.errors[0].contains("odd"));
    assert!(reports_progress(3, 3));
    assert_eq!(resize_progress(1, 3, "x/a.tga").file_name, "a.tga");
}

#[test]
fn settings_are_kept_beside_each_other() {
    assert_eq!(settings_file("data/"), "data/settings.json");
    assert_ne!(settings_file("data"), "data");
    assert_ne!(settings_file("data"), temporary_settings_file("data"));
}

#[test]
fn runs_add_up_and_keep_the_first_errors() {
    let mut totals = ResizeTotals::empty();
    for i in 0..50 {
        let name = format!("{i}.tga");
        let result = match i % 5 {
            0 => Ok((true, i % 2 == 0)),
            1 => Ok((false, false)),
            _ => Err(format!("broken {i}")),
        };
        totals.record(&name, result);
    }
    let summary = totals.summary("modified", 50);
    assert_eq!((summary.resized_files, summary.preserved_files, summary.failed_files), (10, 10, 30));
    assert_eq!(summary.resized_files + summary.preserved_files + summary.failed_files, 50);
    assert_eq!(summary.errors.len(), 30);

    let mut totals = ResizeTotals::empty();
    for i in 0..40 {
        totals.record("a.tga", Err(format!("broken {i}")));
    }
    let summary = totals.summary("modified", 40);
    assert_eq!((summary.failed_files, summary.errors.len()), (40, 30));
    assert_eq!(summary.errors[29], "a.tga: broken 29");
}

#[test]
fn textures_of_other_sizes_are_kept_byte_for_byte() {
    let source = tga_of(&raster(16, 16));
    assert_eq!(output_file(source.clone(), TextureKind::Tga, None).unwrap(), source);
    let written = output_file(source, TextureKind::Tga, Some(raster(8, 8))).unwrap();
    let again = decode_texture("a.tga", &written).unwrap();
    assert_eq!((again.image.width, again.image.height), (8, 8));
    assert_eq!(again.image.pixels, raster(8, 8).pixels);
    let kind = TextureKind::Dds(DdsFormat::Dxt5);
    let written = output_file(vec![1, 2], kind, Some(raster(8, 8))).unwrap();
    let again = decode_texture("a.dds", &written).unwrap();
    assert_eq!((again.kind, again.image.width, again.image.height), (kind, 8, 8));
    let other = TextureKind::Dds(DdsFormat::Other);
    assert!(output_file(vec![1, 2], other, Some(raster(8, 8))).is_err());
}

#[test]
fn tga_files_hold_sides_of_sixteen_bits() {
    let wide = RasterImage { width: 65535, height: 1, pixels: vec![7; 65535 * 4] };
    let written = encode_texture(&wide, TextureKind::Tga).unwrap();
    let again = decode_texture("wide.tga", &written).unwrap();
    assert_eq!((again.image.width, again.image.height), (65535, 1));
    let wider = RasterImage { width: 65536, height: 1, pixels: vec![7; 65536 * 4] };
    assert!(encode_texture(&wider, TextureKind::Tga).is_err());
    let empty = RasterImage { width: 0, height: 1, pixels: Vec::new() };
    assert!(encode_texture(&empty, TextureKind::Tga).is_err());
}

#[test]
fn a_search_passes_by_the_outputs() {
    let directory = EntryKind::Directory;
    assert_eq!(entry_action("icons/modified", true, directory), EntryAction::Pass);
    assert_eq!(entry_action("icons/modified", false, directory), EntryAction::Enter);
    assert_eq!(entry_action("icons/a.tga", false, EntryKind::File), EntryAction::Take);
    assert_eq!(entry_action("icons/a.txt", false, EntryKind::File), EntryAction::Pass);
    assert_eq!(entry_action("icons/a.tga", false, EntryKind::Other), EntryAction::Pass);
}

#[test]
fn missing_settings_file_returns_an_empty_map() {
    let settings = load("data/settings.json", SettingsRead::Missing).expect("load should succeed");
    assert_eq!(settings.entries, AppSettings::new().entries);
    assert!(settings.entries.is_empty());
}

#[test]
fn settings_round_trip_through_json_file() {
    let mut expected = AppSettings::new();
    expected.insert("unreal-tools.appearance.theme".into(), "dark".into());
    expected.insert("unreal-tools.utx.last-open-directory".into(), "C:\\Textures".into());

    let contents = serialize_settings(&expected).expect("save should succeed");

    let read = SettingsRead::Contents(contents);
    let loaded = load("data/settings.json", read).expect("load should succeed");
    assert_eq!(loaded.entries, expected.entries);
    assert_eq!(loaded.get("unreal-tools.appearance.theme"), Some("dark"));
    assert_eq!(loaded.get("unreal-tools.appearance"), None);
}

#[test]
fn settings_are_an_indented_json_object_by_name() {
    let mut settings = AppSettings::new();
    settings.insert("b".into(), "2".into());
    settings.insert("a\"\n".into(), "\u{1}é".into());
    settings.insert("b".into(), "3".into());
    let contents = serialize_settings(&settings).unwrap();
    let expected = "{\n  \"a\\\"\\n\": \"\\u0001é\",\n  \"b\": \"3\"\n}";
    assert_eq!(String::from_utf8(contents.clone()).unwrap(), expected);
    assert_eq!(parse_settings("s", &contents).unwrap().entries, settings.entries);
    let none = serialize_settings(&AppSettings::new()).unwrap();
    assert_eq!(none, b"{}");
    let twice = parse_settings("s", b"{\"z\": \"1\", \"a\": \"2\", \"z\": \"3\"}").unwrap();
    assert_eq!(twice.entries, vec![("a".into(), "2".into()), ("z".into(), "3".into())]);
}

#[test]
fn settings_that_cannot_be_read_are_named() {
    let error = parse_settings("d/settings.json", b"[1]").unwrap_err();
    assert!(error.starts_with("Não foi possível ler as configurações em 'd/settings.json': "));
    assert!(parse_settings("s", b"{\"a\": 1}").is_err());
    let error = parsed_settings("s", Err(String::from("odd"))).unwrap_err();
    assert_eq!(error, "Não foi possível ler as configurações em 's': odd");
    let error = load("s", SettingsRead::Failed("locked".into())).unwrap_err();
    assert_eq!(error, "Não foi possível abrir as configurações em 's': locked");
    let error = prepared_settings(Err(String::from("odd"))).unwrap_err();
    assert_eq!(error, "Não foi possível preparar as configurações: odd");
}

#[test]
fn settings_are_saved_step_by_step() {
    let after = |step: SaveStep, outcome: StepOutcome| next_step(step, "p", outcome);
    assert_eq!(after(SaveStep::CreateDirectory, StepOutcome::Done), Ok(SaveStep::WriteTemporary));
    assert_eq!(after(SaveStep::WriteTemporary, StepOutcome::Done), Ok(SaveStep::FindOld));
    assert_eq!(after(SaveStep::FindOld, StepOutcome::Done), Ok(SaveStep::RemoveOld));
    assert_eq!(after(SaveStep::FindOld, StepOutcome::NotFound), Ok(SaveStep::Rename));
    assert_eq!(after(SaveStep::RemoveOld, StepOutcome::Done), Ok(SaveStep::Rename));
    assert_eq!(after(SaveStep::Rename, StepOutcome::Done), Ok(SaveStep::Finished));
    for (step, start) in [
        (SaveStep::CreateDirectory, "Não foi possível criar a pasta de configurações em"),
        (SaveStep::WriteTemporary, "Não foi possível salvar as configurações temporárias em"),
        (SaveStep::RemoveOld, "Não foi possível atualizar as configurações em"),
        (SaveStep::Rename, "Não foi possível finalizar as configurações em"),
    ] {
        let error = after(step, StepOutcome::Failed("full".into())).unwrap_err();
        assert_eq!(error, format!("{start} 'p': full"));
    }
}

#[test]
fn a_run_keeps_or_resizes_every_texture() {
    assert!(ResizeRun::start(64, 48).is_err());
    let mut run = ResizeRun::start(64, 32).ok().unwrap();
    let source = tga_of(&raster(64, 64));
    let job = ResizeJob::start("a.tga", source.clone(), 64, 32).unwrap();
    assert!(job.resized);
    let done = job.finish(Some(raster(32, 32))).unwrap();
    assert_ne!(done.file(), source);
    let again = decode_texture("a.tga", done.file()).unwrap();
    assert_eq!((again.image.width, again.image.height), (32, 32));
    assert_eq!(again.image.pixels, raster(32, 32).pixels);
    run.record_texture(&done, true);

    let source = tga_of(&raster(16, 16));
    let job = ResizeJob::start("b.tga", source.clone(), 64, 32).unwrap();
    assert!(!job.resized);
    let done = job.finish(None).unwrap();
    assert_eq!(done.file(), source);
    run.record_texture(&done, false);

    let error = ResizeJob::start("c.tga", vec![1], 64, 32).unwrap_err();
    run.record_failure("c.tga", error);
    let summary = run.summary("modified", 3);
    assert_eq!((summary.resized_files, summary.preserved_files, summary.failed_files), (1, 1, 1));
    assert_eq!((summary.total_files, summary.copied_metadata, summary.errors.len()), (3, 1, 1));
    assert!(summary.errors[0].starts_with("c.tga: TGA inválido em c.tga: "));
}

#[test]
fn compressed_pictures_differ_by_their_pixels() {
    let kind = TextureKind::Dds(DdsFormat::Dxt3);
    let white = RasterImage { width: 4, height: 4, pixels: vec![255; 64] };
    let black = RasterImage { width: 4, height: 4, pixels: vec![0; 64] };
    let white = encode_texture(&white, kind).unwrap();
    let black = encode_texture(&black, kind).unwrap();
    assert_ne!(white, black);
    let shown = decode_texture("w.dds", &white).unwrap();
    assert_eq!(shown.image.pixels, vec![255; 64]);
}
