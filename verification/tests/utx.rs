use link_cplusplus as _;

use unreal_tools::appending::build_texture_export_like;
use unreal_tools::batch::{
    first_reports, import_existing_textures_resilient, PreparedTexture, RetriedTextureImport,
};
use unreal_tools::edits::{TextureAnimationImport, TextureImportRequest};
use unreal_tools::entries::{
    read_texture_properties, AnimationPropertyPresence, AnimationValues, TextureSettings,
};
use unreal_tools::extract::{
    export_entry, export_target, extract_entry, extract_extension, import_groups, plan_packages,
    ImportGroup, UtxExtractMode, UtxExtractSummary,
};
use unreal_tools::formats::UtxFormat;
use unreal_tools::images::tga_dimensions;
use unreal_tools::importing::{
    cached_import_textures_with_progress, finish_import, start_import, DirectoryImport,
};
use unreal_tools::imports::{
    decode_texture_file, preserve_unsupported_existing_metadata, texture_engine_import_request,
    ImportedTexture,
};
use unreal_tools::layout::{texture_layout, Split9};
use unreal_tools::listing::{ExportedAnimation, UtxEntry};
use unreal_tools::metadata::{parse_texture_metadata, texture_metadata_text, TextureMetadata};
use unreal_tools::names::{NameEntry, NameTable};
use unreal_tools::package::{object_index, Package};
use unreal_tools::paths::{imported_texture_name, is_importable_texture_path};
use unreal_tools::preview::encode_preview;
use unreal_tools::reader::{write_compact, Dialect, Reader};
use unreal_tools::session::{
    cached_list_entries, create_new, decrypt_raw, import_entries, list_entries, new_package,
    open_cached, preview_texture, replace_entry, PreparedReplacement,
};

fn bits(value: f32) -> u32 {
    value.to_bits()
}

fn write_i32(output: &mut Vec<u8>, value: i32) {
    output.extend_from_slice(&value.to_le_bytes());
}

fn write_i32_at(output: &mut [u8], offset: usize, value: i32) {
    output[offset..offset + 4].copy_from_slice(&value.to_le_bytes());
}

fn sample_tga(red: u8, green: u8, blue: u8) -> Vec<u8> {
    let mut tga = vec![0; 18];
    tga[2] = 2;
    tga[12] = 1;
    tga[14] = 1;
    tga[16] = 32;
    tga[17] = 0x28;
    tga.extend_from_slice(&[blue, green, red, 255]);
    tga
}

fn sample_dxt1_dds() -> Vec<u8> {
    let mut dds = vec![0; 128];
    dds[..4].copy_from_slice(b"DDS ");
    write_i32_at(&mut dds, 4, 124);
    write_i32_at(&mut dds, 12, 4);
    write_i32_at(&mut dds, 16, 4);
    dds[84..88].copy_from_slice(b"DXT1");
    dds.extend_from_slice(&[0, 0xf8, 0x1f, 0, 0, 0, 0, 0]);
    dds
}

fn write_name_table(names: &[&str]) -> Vec<u8> {
    let mut output = Vec::new();
    for name in names {
        write_compact(&mut output, name.len() as i32 + 1);
        output.extend_from_slice(name.as_bytes());
        output.push(0);
        write_i32(&mut output, 0);
    }
    output
}

fn fixture_package() -> Vec<u8> {
    let names = ["None", "Engine", "Texture", "sample", "Format", "USize", "VSize"];
    let name_table = write_name_table(&names);
    let mut import_table = Vec::new();
    write_compact(&mut import_table, 0);
    write_compact(&mut import_table, 0);
    write_i32(&mut import_table, 0);
    write_compact(&mut import_table, 1);
    write_compact(&mut import_table, 0);
    write_compact(&mut import_table, 0);
    write_i32(&mut import_table, -1);
    write_compact(&mut import_table, 2);
    let mut texture = Vec::new();
    write_compact(&mut texture, 4);
    texture.push(1);
    texture.push(5);
    write_compact(&mut texture, 5);
    texture.push(0x22);
    write_i32(&mut texture, 1);
    write_compact(&mut texture, 6);
    texture.push(0x22);
    write_i32(&mut texture, 1);
    write_compact(&mut texture, 0);
    texture.push(1);
    write_i32(&mut texture, 0);
    write_compact(&mut texture, 4);
    texture.extend_from_slice(&[0, 0, 255, 255]);
    write_i32(&mut texture, 1);
    write_i32(&mut texture, 1);
    texture.extend_from_slice(&[0, 0]);
    let name_offset = 36usize;
    let import_offset = name_offset + name_table.len();
    let export_offset = import_offset + import_table.len();
    let export_table = |data_offset: usize| {
        let mut table = Vec::new();
        write_compact(&mut table, -2);
        write_compact(&mut table, 0);
        write_i32(&mut table, 0);
        write_compact(&mut table, 3);
        write_i32(&mut table, 0);
        write_compact(&mut table, texture.len() as i32);
        write_compact(&mut table, data_offset as i32);
        table
    };
    let data_offset = export_offset + export_table(export_offset + 10).len();
    let mut output = vec![0; 36];
    write_i32_at(&mut output, 0, 0x9e2a83c1_u32 as i32);
    write_i32_at(&mut output, 12, names.len() as i32);
    write_i32_at(&mut output, 16, name_offset as i32);
    write_i32_at(&mut output, 20, 1);
    write_i32_at(&mut output, 24, export_offset as i32);
    write_i32_at(&mut output, 28, 2);
    write_i32_at(&mut output, 32, import_offset as i32);
    output.extend_from_slice(&name_table);
    output.extend_from_slice(&import_table);
    output.extend_from_slice(&export_table(data_offset));
    output.extend_from_slice(&texture);
    output
}

const TEMPLATE_NAMES: [&str; 31] = [
    "None",
    "Engine",
    "Texture",
    "Core",
    "Package",
    "Class",
    "UnrealTlp",
    "Common",
    "TlpSpt9",
    "TlpAnim",
    "Format",
    "USize",
    "VSize",
    "UBits",
    "VBits",
    "bAlphaTexture",
    "bMasked",
    "bSplit9Texture",
    "Split9X1",
    "Split9X2",
    "Split9X3",
    "Split9Y1",
    "Split9Y2",
    "Split9Y3",
    "AnimNext",
    "MaxFrameRate",
    "MinFrameRate",
    "OneTimeAnimLoop",
    "PrimeCount",
    "TotalFrameNum",
    "Seeds",
];

fn int_property(output: &mut Vec<u8>, name: i32, value: i32) {
    write_compact(output, name);
    output.push(0x22);
    write_i32(output, value);
}

fn template_texture(split9: bool, animated: bool) -> Vec<u8> {
    let mut raw = Vec::new();
    write_compact(&mut raw, 10);
    raw.extend_from_slice(&[1, 5]);
    int_property(&mut raw, 11, 1);
    int_property(&mut raw, 12, 1);
    if split9 {
        write_compact(&mut raw, 17);
        raw.extend_from_slice(&[0xd3, 0]);
        for name in 18..=23 {
            int_property(&mut raw, name, name);
        }
    }
    if animated {
        write_compact(&mut raw, 24);
        raw.extend_from_slice(&[0x05, 4]);
        write_compact(&mut raw, 25);
        raw.push(0x24);
        write_i32(&mut raw, 20f32.to_bits() as i32);
        write_compact(&mut raw, 26);
        raw.push(0x24);
        write_i32(&mut raw, 10f32.to_bits() as i32);
        write_compact(&mut raw, 27);
        raw.extend_from_slice(&[0xd3, 0]);
        write_compact(&mut raw, 28);
        raw.extend_from_slice(&[0x01, 3]);
        int_property(&mut raw, 29, 7);
    }
    write_compact(&mut raw, 0);
    raw.push(1);
    write_i32(&mut raw, 0);
    write_compact(&mut raw, 4);
    raw.extend_from_slice(&[9, 8, 7, 255]);
    write_i32(&mut raw, 1);
    write_i32(&mut raw, 1);
    raw.extend_from_slice(&[0, 0]);
    raw
}

/// A package of the version that the engine writes, with a plain texture, one
/// of nine parts and an animated one.
fn template() -> Vec<u8> {
    let mut output = vec![0; 36];
    for name in TEMPLATE_NAMES {
        write_compact(&mut output, name.len() as i32 + 1);
        output.extend_from_slice(name.as_bytes());
        output.push(0);
        write_i32(&mut output, 0x0007_0010);
    }
    let import_offset = output.len() as i32;
    for (package, class, outer, name) in [(3, 4, 0, 1), (3, 5, -1, 2), (3, 4, 0, 3), (3, 5, -3, 4)] {
        write_compact(&mut output, package);
        write_compact(&mut output, class);
        write_i32(&mut output, outer);
        write_compact(&mut output, name);
    }
    let exports: Vec<(i32, i32, i32, Vec<u8>)> = vec![
        (-4, 0, 30, vec![0]),
        (-2, 1, 7, template_texture(false, false)),
        (-2, 1, 8, template_texture(true, false)),
        (-2, 1, 9, template_texture(false, true)),
    ];
    let mut places = Vec::new();
    for (_, _, _, data) in &exports {
        places.push(output.len() as i32);
        output.extend_from_slice(data);
    }
    let export_offset = output.len() as i32;
    for ((class, outer, name, data), place) in exports.iter().zip(places) {
        write_compact(&mut output, *class);
        write_compact(&mut output, 0);
        write_i32(&mut output, *outer);
        write_compact(&mut output, *name);
        write_i32(&mut output, 0x0007_0004);
        write_compact(&mut output, data.len() as i32);
        write_compact(&mut output, place);
    }
    let header = [
        0x9e2a83c1_u32 as i32,
        118,
        0,
        TEMPLATE_NAMES.len() as i32,
        36,
        4,
        export_offset,
        4,
        import_offset,
    ];
    for (i, value) in header.iter().enumerate() {
        write_i32_at(&mut output, 4 * i, *value);
    }
    output
}

const NO_SETTINGS: TextureSettings = TextureSettings {
    alpha: None,
    masked: None,
    u_clamp: None,
    v_clamp: None,
    u_clamp_mode: None,
    v_clamp_mode: None,
};

fn no_metadata() -> TextureMetadata {
    TextureMetadata { settings: NO_SETTINGS, split9: None, animation: None }
}

fn no_animation() -> TextureAnimationImport {
    TextureAnimationImport {
        anim_next: None,
        max_frame_rate: None,
        min_frame_rate: None,
        one_time_anim_loop: None,
        prime_count: None,
        total_frame_num: None,
    }
}

fn pixel(name: &str, metadata: TextureMetadata) -> ImportedTexture {
    ImportedTexture {
        name: name.into(),
        format: UtxFormat::Rgba8,
        width: 1,
        height: 1,
        pixels: vec![0, 0, 0, 255],
        metadata,
    }
}

fn entry(name: &str) -> UtxEntry {
    UtxEntry {
        name: name.into(),
        format: UtxFormat::Rgba8,
        export_index: 0,
        width: 1,
        height: 1,
        has_alpha: false,
        has_split9: false,
        split9_x1: 0,
        split9_x2: 0,
        split9_x3: 0,
        split9_y1: 0,
        split9_y2: 0,
        split9_y3: 0,
        settings: NO_SETTINGS,
        animation: None,
    }
}

fn rate(text: &Option<String>) -> Option<u32> {
    text.as_ref().and_then(|text| text.parse::<f32>().ok()).map(bits)
}

/// A texture file and the text file beside it, read as an import reads them.
fn prepared(path: &str, file: &[u8], text: &str) -> PreparedTexture {
    let notes = parse_texture_metadata(text);
    let max_rate = rate(&notes.max_rate);
    let min_rate = rate(&notes.min_rate);
    let metadata = notes.metadata(max_rate, min_rate);
    let (format, width, height, pixels) = decode_texture_file(path, file).unwrap();
    let name = imported_texture_name(path).unwrap();
    PreparedTexture {
        path: path.into(),
        result: Ok(ImportedTexture { name, format, width, height, pixels, metadata }),
    }
}

#[test]
fn embedded_template_has_independent_split9_and_animation_seeds() {
    let package = Package::parse(Dialect::Frontend, template()).unwrap();
    let (animation_export_index, animation_entry) = (0..package.exports.len())
        .find_map(|index| {
            package
                .entry_to_model(index)
                .ok()
                .filter(|entry| entry.name.ends_with(".TlpAnim"))
                .map(|entry| (index, entry))
        })
        .unwrap();
    assert!(animation_entry.animation.is_some());
    let export = package.export(animation_export_index).unwrap();
    let raw = package.export_data(Dialect::Frontend, &export).unwrap();
    let properties =
        read_texture_properties(&mut Reader::new(raw, Dialect::Frontend), &package).unwrap();
    assert_ne!(properties.animation.anim_next, 0);
    assert_ne!(properties.animation.max_frame_rate, bits(0.0));
    assert_ne!(properties.animation.min_frame_rate, bits(0.0));
    assert!(properties.animation.one_time_anim_loop);
    assert_ne!(properties.animation.prime_count, 0);
    assert_ne!(properties.animation.total_frame_num, 0);

    let split9_entry = (0..package.exports.len())
        .find_map(|index| {
            package
                .entry_to_model(index)
                .ok()
                .filter(|entry| entry.name.ends_with(".TlpSpt9"))
        })
        .unwrap();
    assert!(split9_entry.has_split9);
    assert_ne!(split9_entry.split9_x1, 0);
    assert_ne!(split9_entry.split9_x2, 0);
    assert_ne!(split9_entry.split9_x3, 0);
    assert_ne!(split9_entry.split9_y1, 0);
    assert_ne!(split9_entry.split9_y2, 0);
    assert_ne!(split9_entry.split9_y3, 0);
}

#[test]
fn texture_metadata_exports_and_reads_alpha_masked_and_clamp() {
    let entry = UtxEntry {
        width: 32,
        height: 32,
        has_alpha: true,
        settings: TextureSettings {
            alpha: Some(true),
            masked: Some(false),
            u_clamp: Some(64),
            v_clamp: Some(32),
            u_clamp_mode: Some(2),
            v_clamp_mode: Some(3),
        },
        ..entry("Buttons.button")
    };
    let content = texture_metadata_text(&entry, "", "").unwrap();
    assert_eq!(
        content,
        "[Texture]\nAlpha=True\nMasked=False\nUClamp=64\nVClamp=32\nUClampMode=2\nVClampMode=3\n"
    );
    let metadata = parse_texture_metadata(&content).metadata(None, None);
    assert_eq!(metadata.settings.alpha, Some(true));
    assert_eq!(metadata.settings.masked, Some(false));
    assert_eq!(metadata.settings.u_clamp, Some(64));
    assert_eq!(metadata.settings.v_clamp, Some(32));
    assert_eq!(metadata.settings.u_clamp_mode, Some(2));
    assert_eq!(metadata.settings.v_clamp_mode, Some(3));
    let request = texture_engine_import_request(pixel("button", metadata)).unwrap();
    assert_eq!(request.alpha, Some(true));
    assert_eq!(request.masked, Some(false));
    assert_eq!(request.clamp.unwrap().u_clamp, Some(64));
}

#[test]
fn existing_texture_preserves_only_metadata_that_it_can_patch_in_place() {
    let mut texture = pixel(
        "button",
        TextureMetadata {
            settings: TextureSettings {
                alpha: Some(true),
                masked: Some(false),
                u_clamp: Some(64),
                v_clamp: Some(64),
                u_clamp_mode: Some(2),
                v_clamp_mode: Some(3),
            },
            split9: Some(Split9 { x1: 1, x2: 2, x3: 3, y1: 4, y2: 5, y3: 6 }),
            animation: Some(TextureAnimationImport { prime_count: Some(1), ..no_animation() }),
        },
    );
    let existing = UtxEntry {
        settings: TextureSettings { alpha: Some(false), u_clamp: Some(32), ..NO_SETTINGS },
        ..entry("Buttons.button")
    };

    let preserved = preserve_unsupported_existing_metadata(&mut texture, &existing);

    assert_eq!(
        preserved,
        vec!["Masked", "VClamp", "UClampMode", "VClampMode", "Split9", "Animations"]
    );
    assert_eq!(texture.metadata.settings.alpha, Some(true));
    assert_eq!(texture.metadata.settings.u_clamp, Some(64));
    assert_eq!(texture.metadata.settings.masked, None);
    assert_eq!(texture.metadata.settings.v_clamp, None);
    assert_eq!(texture.metadata.settings.u_clamp_mode, None);
    assert_eq!(texture.metadata.settings.v_clamp_mode, None);
    assert!(texture.metadata.split9.is_none());
    assert!(texture.metadata.animation.is_none());
}

#[test]
fn existing_animated_texture_preserves_only_missing_animation_fields() {
    let mut texture = pixel(
        "animated",
        TextureMetadata {
            animation: Some(TextureAnimationImport {
                anim_next: Some("Button.animated_next".into()),
                max_frame_rate: Some(bits(12.0)),
                min_frame_rate: Some(bits(2.0)),
                one_time_anim_loop: Some(true),
                prime_count: Some(3),
                total_frame_num: Some(4),
            }),
            ..no_metadata()
        },
    );
    let existing = UtxEntry {
        animation: Some(ExportedAnimation {
            anim_next: Some("Button.animated_next".into()),
            values: AnimationValues {
                anim_next: 1,
                max_frame_rate: 0,
                min_frame_rate: bits(1.0),
                one_time_anim_loop: false,
                prime_count: 1,
                total_frame_num: 0,
            },
            properties: AnimationPropertyPresence {
                anim_next: true,
                max_frame_rate: false,
                min_frame_rate: true,
                one_time_anim_loop: false,
                prime_count: true,
                total_frame_num: false,
            },
        }),
        ..entry("Button.animated")
    };

    let preserved = preserve_unsupported_existing_metadata(&mut texture, &existing);
    let animation = texture.metadata.animation.unwrap();

    assert_eq!(preserved, vec!["MaxFrameRate", "OneTimeAnimLoop", "TotalFrameNum"]);
    assert_eq!(animation.anim_next.as_deref(), Some("Button.animated_next"));
    assert_eq!(animation.min_frame_rate, Some(bits(2.0)));
    assert_eq!(animation.prime_count, Some(3));
    assert_eq!(animation.max_frame_rate, None);
    assert_eq!(animation.one_time_anim_loop, None);
    assert_eq!(animation.total_frame_num, None);
}

#[test]
fn decodes_a_single_dxt1_pixel() {
    let pixels = [0x00, 0xf8, 0x1f, 0x00, 0, 0, 0, 0];
    let preview = encode_preview(&pixels, 1, 1, UtxFormat::Dxt1).unwrap();
    assert!(preview.data_url.starts_with("data:image/png;base64,"));
}

#[test]
fn creates_new_utx_from_embedded_editor_template() {
    let raw = create_new(&template(), "packages/Walker.utx", false, true).unwrap();
    assert!(create_new(&template(), "packages/Walker.utx", true, true).is_err());
    assert_eq!(&raw[..4], &0x9e2a83c1_u32.to_le_bytes());
    let package = Package::parse(Dialect::Frontend, raw.clone()).unwrap();
    assert!(package.names.entries().iter().any(|entry| entry.name == "Walker"));
    assert!(!package.names.entries().iter().any(|entry| entry.name == "UnrealTlp"));
    let entries = package.scan_entries();
    assert!(entries.is_empty());
    assert!(package.exports.is_empty());
    let embedded = Package::parse(Dialect::Frontend, template()).unwrap();
    assert!(package.is_compatible_with_embedded_template(&embedded));

    let (mut cache, _) = open_cached("Walker.utx", raw).unwrap();
    let run = cached_import_textures_with_progress(
        &mut cache,
        &template(),
        "CandidateWnd",
        vec![
            prepared("new_common.tga", &sample_tga(10, 20, 30), ""),
            prepared(
                "new_split9.tga",
                &sample_tga(40, 50, 60),
                "[Split9]\nSplit9X1=1\nSplit9X2=2\nSplit9X3=3\nSplit9Y1=4\nSplit9Y2=5\nSplit9Y3=6\n",
            ),
            prepared(
                "animated_first.tga",
                &sample_tga(70, 80, 90),
                "[Animations]\nAnimNext=animated_second\nMaxFrameRate=12.5\nMinFrameRate=2.0\nOneTimeAnimLoop=False\nPrimeCount=0\nTotalFrameNum=4\n",
            ),
            prepared("animated_second.tga", &sample_tga(100, 110, 120), ""),
        ],
    );
    let summary = run.outcome.unwrap();
    assert_eq!(summary.added, 4);
    assert_eq!(summary.skipped, 0);
    let imported = cached_list_entries(&cache);
    assert_eq!(imported.len(), 4);
    assert!(imported
        .iter()
        .any(|entry| entry.name == "CandidateWnd.new_common" && !entry.has_split9));
    assert!(imported
        .iter()
        .any(|entry| entry.name == "CandidateWnd.new_split9" && entry.has_split9));
    assert!(!imported
        .iter()
        .any(|entry| entry.name.contains("Common") || entry.name.contains("TlpSpt9")));
    let animated = imported
        .iter()
        .find(|entry| entry.name == "CandidateWnd.animated_first")
        .unwrap();
    let animation = animated.animation.as_ref().unwrap();
    assert_eq!(animation.anim_next.as_deref(), Some("CandidateWnd.animated_second"));
    assert_eq!(animation.values.max_frame_rate, bits(12.5));
    assert_eq!(animation.values.min_frame_rate, bits(2.0));
    assert!(!animation.values.one_time_anim_loop);
    assert_eq!(animation.values.prime_count, 0);
    assert_eq!(animation.values.total_frame_num, 4);
    let (exported, _) =
        export_entry(&cache.package, animated.export_index, "animated_export.tga").unwrap();
    let animation_metadata = texture_metadata_text(
        &exported,
        &format!("{:.6}", f32::from_bits(animation.values.max_frame_rate)),
        &format!("{:.6}", f32::from_bits(animation.values.min_frame_rate)),
    )
    .unwrap();
    assert!(animation_metadata.contains("[Animations]"));
    assert!(animation_metadata.contains("AnimNext=CandidateWnd.animated_second"));
    assert!(animation_metadata.contains("MaxFrameRate=12.500000"));
    let split9_entry = imported
        .iter()
        .find(|entry| entry.name == "CandidateWnd.new_split9")
        .unwrap();
    let (exported, _) =
        export_entry(&cache.package, split9_entry.export_index, "split9_export.tga").unwrap();
    let split9_metadata = texture_metadata_text(&exported, "", "").unwrap();
    assert!(split9_metadata.contains("[Split9]\nSplit9X1=1"));
}

#[test]
fn new_texture_export_applies_split9_values() {
    let package = Package {
        data: Vec::new(),
        version: 0,
        licensee: 0,
        name_offset: 0,
        names: NameTable::new(
            [
                "None",
                "Format",
                "USize",
                "VSize",
                "bSplit9Texture",
                "Split9X1",
                "Split9X2",
                "Split9X3",
                "Split9Y1",
                "Split9Y2",
                "Split9Y3",
            ]
            .into_iter()
            .map(|name| NameEntry { name: name.into(), flags: 0 })
            .collect(),
        ),
        imports: Vec::new(),
        exports: Vec::new(),
    };
    let mut template = Vec::new();
    write_compact(&mut template, 1);
    template.extend_from_slice(&[1, 5]);
    for name_index in [2, 3] {
        write_compact(&mut template, name_index);
        template.push(0x22);
        write_i32(&mut template, 1);
    }
    write_compact(&mut template, 4);
    template.extend_from_slice(&[0x83, 1]);
    for name_index in 5..=10 {
        write_compact(&mut template, name_index);
        template.push(0x22);
        write_i32(&mut template, 0);
    }
    write_compact(&mut template, 0);
    template.push(1);
    write_i32(&mut template, 0);
    write_compact(&mut template, 4);
    template.extend_from_slice(&[0, 0, 255, 255]);
    write_i32(&mut template, 1);
    write_i32(&mut template, 1);
    template.extend_from_slice(&[0, 0]);

    let texture = ImportedTexture {
        pixels: vec![0, 0, 255, 255],
        ..pixel(
            "new_split9",
            TextureMetadata {
                split9: Some(Split9 { x1: 2, x2: 3, x3: 4, y1: 5, y2: 6, y3: 7 }),
                ..no_metadata()
            },
        )
    };
    let serialized = build_texture_export_like(&template, &package, &texture).unwrap();
    let mut reader = Reader::new(&serialized.bytes, Dialect::Frontend);
    let properties = read_texture_properties(&mut reader, &package).unwrap();
    assert!(properties.has_split9);
    assert_eq!(properties.split9.x1, 2);
    assert_eq!(properties.split9.x2, 3);
    assert_eq!(properties.split9.x3, 4);
    assert_eq!(properties.split9.y1, 5);
    assert_eq!(properties.split9.y2, 6);
    assert_eq!(properties.split9.y3, 7);
}

#[test]
fn list_export_preview_replace_and_batch_import() {
    let path = "test.utx";
    let entries = list_entries(path, fixture_package()).unwrap();
    assert_eq!(entries.len(), 1);
    assert_eq!(entries[0].format, UtxFormat::Rgba8);
    let (cache, _) = open_cached(path, fixture_package()).unwrap();
    let (_, exported) =
        export_entry(&cache.package, entries[0].export_index, "texture.tga").unwrap();
    assert_eq!(tga_dimensions(&exported).unwrap(), (1, 1));
    assert!(preview_texture(path, fixture_package(), entries[0].export_index)
        .unwrap()
        .data_url
        .starts_with("data:image/png;base64,"));
    let replacement = || prepared("texture_replacement.tga", &sample_tga(0, 255, 0), "").result;
    let decrypted = decrypt_raw(path, fixture_package()).unwrap();
    let replaced =
        replace_entry(&decrypted, entries[0].export_index, replacement().unwrap()).unwrap();
    let decrypted = decrypt_raw(path, replaced).unwrap();
    let (written, imported) = import_entries(
        &decrypted,
        vec![PreparedReplacement {
            export_index: entries[0].export_index,
            result: replacement(),
        }],
    );
    assert_eq!(imported.imported, 1);

    let (mut cache, _) = open_cached(path, written).unwrap();
    let run = cached_import_textures_with_progress(
        &mut cache,
        &template(),
        "Pacote principal",
        vec![
            prepared("sample.tga", &sample_tga(0, 0, 255), ""),
            prepared("fresh_button.tga", &sample_tga(255, 255, 0), ""),
            prepared("fresh_dxt.dds", &sample_dxt1_dds(), ""),
        ],
    );
    let summary = run.outcome.unwrap();
    assert_eq!(summary.replaced, 1);
    assert_eq!(summary.added, 2);
    assert_eq!(run.reports.last().map(|update| update.completed), Some(3));
    let entries = cached_list_entries(&cache);
    assert_eq!(entries.len(), 3);
    let fresh = entries.iter().find(|entry| entry.name == "fresh_button").unwrap();
    assert!(entries
        .iter()
        .any(|entry| entry.name == "fresh_dxt" && entry.format == UtxFormat::Dxt1));
    let (_, fresh_export) =
        export_entry(&cache.package, fresh.export_index, "fresh_button_export.tga").unwrap();
    assert_eq!(tga_dimensions(&fresh_export).unwrap(), (1, 1));
    let location = cache.package.frontend_mip0_location(fresh.export_index).unwrap();
    let export = cache.package.export(fresh.export_index).unwrap();
    let raw = cache.package.export_data(Dialect::Frontend, &export).unwrap();
    let layout = texture_layout(Dialect::Frontend, raw, &cache.package).unwrap();
    let width_offset = i32::from_le_bytes(
        raw[layout.mip_width_offset..layout.mip_width_offset + 4].try_into().unwrap(),
    ) as usize;
    assert_eq!(
        width_offset,
        export.offset as usize + location.pixel_offset + location.size
    );

    let run = cached_import_textures_with_progress(
        &mut cache,
        &template(),
        "CandidateWnd",
        vec![prepared("candidate_button.tga", &sample_tga(10, 20, 30), "")],
    );
    assert_eq!(run.outcome.unwrap().added, 1);
    let entries = cached_list_entries(&cache);
    let grouped_entry = entries
        .iter()
        .find(|entry| entry.name == "CandidateWnd.candidate_button")
        .unwrap();
    let group_reference = cache.package.export(grouped_entry.export_index).unwrap().package;
    let group_export = cache.package.export(object_index(group_reference).unwrap()).unwrap();
    assert_eq!(
        cache.package.class_name(Dialect::Frontend, &group_export).unwrap(),
        "Core.Package"
    );
    assert_eq!(group_export.size, 1);
    assert_eq!(cache.package.export_data(Dialect::Frontend, &group_export).unwrap(), &[1]);

    let run = cached_import_textures_with_progress(
        &mut cache,
        &template(),
        "CandidateWnd",
        vec![prepared("candidate_button.tga", &sample_tga(100, 110, 120), "")],
    );
    assert_eq!(run.outcome.unwrap().replaced, 1);
}

#[test]
fn resilient_replacement_keeps_valid_texture_when_another_is_invalid() {
    let request = |pixels: Vec<u8>| TextureImportRequest {
        name: "sample".into(),
        format: UtxFormat::Rgba8.value().unwrap(),
        width: 1,
        height: 1,
        pixels,
        alpha: None,
        masked: None,
        clamp: None,
        split9: None,
        animation: None,
    };
    let imports = vec![
        RetriedTextureImport {
            file_name: "valid.tga".into(),
            export_index: 0,
            request: request(vec![1, 2, 3, 255]),
        },
        RetriedTextureImport {
            file_name: "invalid.tga".into(),
            export_index: 0,
            request: request(vec![1, 2, 3]),
        },
    ];

    let recovered = import_existing_textures_resilient(fixture_package(), &imports);

    assert_eq!(recovered.applied.len(), 1);
    assert_eq!(recovered.applied[0], "valid.tga");
    assert_eq!(recovered.failures.len(), 1);
    assert_eq!(recovered.failures[0].0, "invalid.tga");
}

#[test]
fn directory_import_groups_root_and_child_folder_textures() {
    let only_textures = |files: &[&str]| {
        files
            .iter()
            .filter(|file| is_importable_texture_path(file))
            .map(|file| String::from(*file))
            .collect::<Vec<String>>()
    };
    let root = only_textures(&["root/root_texture.tga", "root/ignored.txt"]);
    let buttons = ImportGroup {
        name: "Buttons".into(),
        files: only_textures(&["root/Buttons/button.tga", "root/Buttons/Nested/nested.dds"]),
    };

    let groups = import_groups(&root, &vec![buttons]).unwrap();

    assert_eq!(groups.len(), 2);
    assert_eq!(groups[0].name, "Pacote principal");
    assert_eq!(groups[0].files.len(), 1);
    assert_eq!(groups[1].name, "Buttons");
    assert_eq!(groups[1].files.len(), 2);
    assert!(groups[1].files.iter().any(|file| file.ends_with("button.tga")));
    assert!(groups[1].files.iter().any(|file| file.ends_with("nested.dds")));
}

#[test]
fn standalone_extractor_writes_original_and_png_textures() {
    let extract = |mode: UtxExtractMode| {
        let sources = plan_packages(&vec![String::from("root/Sample.utx")]).unwrap();
        let mut summary = UtxExtractSummary::start(sources.len(), "output");
        let (cache, entries) = open_cached(&sources[0].path, fixture_package()).unwrap();
        let mut files = Vec::new();
        for entry in &entries {
            let extension = extract_extension(mode, entry.format);
            let target = export_target(&entry.name, extension);
            let file = extract_entry(&cache.package, entry, mode);
            summary.count_texture(
                mode,
                entry.format,
                &sources[0].display_name,
                &entry.name,
                match &file {
                    Ok(_) => Ok(()),
                    Err(error) => Err(error.clone()),
                },
            );
            files.push((sources[0].directory.clone(), target.file_name, file.unwrap()));
        }
        (summary, files)
    };
    let (original, files) = extract(UtxExtractMode::Original);
    assert_eq!(original.packages, 1);
    assert_eq!(original.exported, 1);
    assert_eq!((files[0].0.as_str(), files[0].1.as_str()), ("Sample", "sample.tga"));

    let (png, files) = extract(UtxExtractMode::Png);
    assert_eq!(png.exported, 1);
    assert_eq!((files[0].0.as_str(), files[0].1.as_str()), ("Sample", "sample.png"));
    assert_eq!(&files[0].2[..8], b"\x89PNG\r\n\x1a\n");
}

#[test]
fn import_folders_come_by_name() {
    let group = |name: &str| ImportGroup { name: name.into(), files: vec![format!("{name}/a.tga")] };
    let folders = vec![group("b"), group("B"), group("a")];
    let groups = import_groups(&vec![String::from("r.tga")], &folders).unwrap();
    let names: Vec<&str> = groups.iter().map(|group| group.name.as_str()).collect();
    assert_eq!(names, vec!["Pacote principal", "B", "a", "b"]);
}

#[test]
fn new_packages_keep_the_names_of_the_template() {
    let made = Package::parse(Dialect::Engine, create_new(&template(), "out/Fresh.utx", false, true).unwrap()).unwrap();
    let source = Package::parse(Dialect::Engine, template()).unwrap();
    assert_eq!(made.exports.len(), 0);
    assert_eq!(made.imports.len(), source.imports.len());
    assert_eq!(made.names.entries().len(), source.names.entries().len());
    for (new, old) in made.names.entries().iter().zip(source.names.entries()) {
        let expected = if old.name == "UnrealTlp" { "Fresh" } else { old.name.as_str() };
        assert_eq!(new.name, expected);
        assert_eq!(new.flags, old.flags);
    }
    assert!(made.is_compatible_template(&source));
}

#[test]
fn groups_that_cannot_be_read_count_as_failed() {
    let mut import = DirectoryImport::start(5);
    let report = import.fail_group("Buttons", 3, "unreadable".into());
    assert_eq!((report.completed, report.total), (3, 5));
    assert_eq!(report.phase, "Buttons não pôde ser importado: unreadable");
    assert_eq!(report.file_name, "");
    assert_eq!((import.summary.failed, import.completed), (3, 3));
    assert_eq!(import.summary.errors, vec!["Buttons: unreadable"]);
    assert_eq!(import.summary.log_path, None);
}

#[test]
fn new_packages_are_made_only_where_they_may_stand() {
    let refused = |path: &str, taken: bool, has_directory: bool| {
        create_new(&template(), path, taken, has_directory).unwrap_err()
    };
    assert_eq!(
        refused("a/New.utx", true, true),
        "Já existe um arquivo com esse nome. Escolha outro nome ou local."
    );
    assert_eq!(refused("a/New.txt", false, true), "O novo pacote deve usar a extensão .utx.");
    assert_eq!(
        refused("a/New.utx", false, false),
        "A pasta escolhida para salvar o UTX não existe."
    );
    assert!(new_package(&[1, 2, 3], "New").is_err());
    assert_eq!(
        new_package(&template(), "New").unwrap(),
        create_new(&template(), "a/New.utx", false, true).unwrap()
    );
}

#[test]
fn imports_report_before_the_engine_is_at_work() {
    let raw = create_new(&template(), "out/Live.utx", false, true).unwrap();
    let files = || {
        vec![
            prepared("first.tga", &sample_tga(1, 2, 3), ""),
            PreparedTexture { path: "broken.tga".into(), result: Err("cut".into()) },
        ]
    };
    let (mut cache, _) = open_cached("Live.utx", raw.clone()).unwrap();
    let planned = start_import(&cache, "Group", files()).ok().unwrap();
    let early = planned.reports();
    let phases: Vec<&str> = early.iter().map(|report| report.phase.as_str()).collect();
    assert_eq!(
        phases,
        vec!["Preparando texturas…", "Arquivo recusado: cut", "Gravando texturas no motor UTX…"]
    );
    assert_eq!(first_reports(2)[0].phase, phases[0]);
    let run = finish_import(&mut cache, &template(), planned);
    assert_eq!(run.reports.len(), 4);
    for (report, first) in run.reports.iter().zip(&early) {
        assert_eq!((&report.phase, report.completed), (&first.phase, first.completed));
    }
    let summary = run.outcome.unwrap();
    assert_eq!((summary.added, summary.failed), (1, 1));

    let (mut cache, _) = open_cached("Live.utx", raw).unwrap();
    let mut import = DirectoryImport::start(2);
    let planned = import.start_group(&cache, "Group", files()).ok().unwrap();
    let early = import.early_reports("Group", &planned);
    assert_eq!(early[0].phase, "Group · Preparando texturas…");
    let reports = import.finish_group(&mut cache, &template(), "Group", planned);
    assert_eq!((early.len(), reports.len()), (3, 4));
    assert_eq!((import.summary.added, import.summary.failed, import.completed), (1, 1, 2));
    let refused = import.start_group(&cache, " ", Vec::new()).err().unwrap();
    assert_eq!(refused.len(), 1);
}

#[test]
fn progress_takes_every_number_of_files() {
    let raw = create_new(&template(), "out/Many.utx", false, true).unwrap();
    let (mut cache, _) = open_cached("Many.utx", raw).unwrap();
    let mut files: Vec<PreparedTexture> = (0..25)
        .map(|i| PreparedTexture { path: format!("broken{i}.tga"), result: Err("cut".into()) })
        .collect();
    files.push(prepared("good.tga", &sample_tga(1, 2, 3), ""));
    let planned = start_import(&cache, "Group", files).ok().unwrap();
    let run = finish_import(&mut cache, &template(), planned);
    let completed: Vec<usize> = run.reports.iter().map(|report| report.completed).collect();
    assert!(completed.windows(2).all(|pair| pair[0] <= pair[1]));
    for value in 0..=26 {
        assert!(completed.contains(&value));
    }
    assert_eq!(completed.last(), Some(&26));
    let summary = run.outcome.unwrap();
    assert_eq!((summary.added, summary.failed, summary.errors.len()), (1, 25, 20));
}
