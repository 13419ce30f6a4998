use link_cplusplus as _;
use unreal_tools::edits::{TextureAnimationImport, TextureImportRequest};
use unreal_tools::names::{NameEntry, NameTable};
use unreal_tools::package::Package;
use unreal_tools::properties::{
    Split9Edit, TextureAnimationEdit, TextureClampEdit, TextureEditorEdit, TexturePropertyStream,
};
use unreal_tools::reader::{write_compact, write_unreal_string, Dialect, Reader};
use unreal_tools::texture_engine::{
    create_empty_package, duplicate_texture, edit_texture_properties,
    edit_texture_properties_batch, import_new_textures, import_textures, rename_texture,
    replace_existing_textures, replace_texture, texture_editor_state, validate_group_name,
    validate_texture_name, UE2_LICENSEE_VERSION, UE2_PACKAGE_VERSION,
};

const TYPE_BYTE: u8 = 1;

fn bits(value: f32) -> u32 {
    value.to_bits()
}

fn write_i32(output: &mut Vec<u8>, value: i32) {
    output.extend_from_slice(&value.to_le_bytes());
}

fn table_of_names() -> NameTable {
    NameTable::new(
        [
            "None",
            "bAlphaTexture",
            "bMasked",
            "bSplit9Texture",
            "Split9X1",
            "Split9X2",
            "Split9X3",
            "Split9Y1",
            "Split9Y2",
            "Split9Y3",
            "AnimNext",
            "MaxFrameRate",
            "PrimeCount",
        ]
        .into_iter()
        .map(|name| NameEntry { name: name.into(), flags: 0x0007_0000 })
        .collect(),
    )
}

const TEMPLATE_NAMES: [&str; 31] = [
    "None",
    "Engine",
    "Texture",
    "Core",
    "Package",
    "Class",
    "UnrealTlp",
    "Common",
    "TlpSpt9",
    "TlpAnim",
    "Format",
    "USize",
    "VSize",
    "UBits",
    "VBits",
    "bAlphaTexture",
    "bMasked",
    "bSplit9Texture",
    "Split9X1",
    "Split9X2",
    "Split9X3",
    "Split9Y1",
    "Split9Y2",
    "Split9Y3",
    "AnimNext",
    "MaxFrameRate",
    "MinFrameRate",
    "OneTimeAnimLoop",
    "PrimeCount",
    "TotalFrameNum",
    "Seeds",
];

fn int_property(output: &mut Vec<u8>, name: i32, value: i32) {
    write_compact(output, name);
    output.push(0x22);
    write_i32(output, value);
}

fn template_texture(split9: bool, animated: bool) -> Vec<u8> {
    let mut raw = Vec::new();
    write_compact(&mut raw, 10);
    raw.extend_from_slice(&[1, 5]);
    int_property(&mut raw, 11, 1);
    int_property(&mut raw, 12, 1);
    for name in [15, 16] {
        write_compact(&mut raw, name);
        raw.extend_from_slice(&[0x53, 0]);
    }
    if split9 {
        write_compact(&mut raw, 17);
        raw.extend_from_slice(&[0xd3, 0]);
        for name in 18..=23 {
            int_property(&mut raw, name, name);
        }
    }
    if animated {
        write_compact(&mut raw, 24);
        raw.extend_from_slice(&[0x05, 4]);
        write_compact(&mut raw, 25);
        raw.push(0x24);
        write_i32(&mut raw, 20f32.to_bits() as i32);
        write_compact(&mut raw, 26);
        raw.push(0x24);
        write_i32(&mut raw, 10f32.to_bits() as i32);
        write_compact(&mut raw, 27);
        raw.extend_from_slice(&[0xd3, 0]);
        write_compact(&mut raw, 28);
        raw.extend_from_slice(&[0x01, 3]);
        int_property(&mut raw, 29, 7);
    }
    write_compact(&mut raw, 0);
    raw.push(1);
    write_i32(&mut raw, 0);
    write_compact(&mut raw, 4);
    raw.extend_from_slice(&[9, 8, 7, 255]);
    write_i32(&mut raw, 1);
    write_i32(&mut raw, 1);
    raw.extend_from_slice(&[0, 0]);
    raw
}

/// A package of the version that the engine writes, with a plain texture, one
/// of nine parts and an animated one.
fn template() -> Vec<u8> {
    let mut output = vec![0; 36];
    for name in TEMPLATE_NAMES {
        write_compact(&mut output, name.len() as i32 + 1);
        output.extend_from_slice(name.as_bytes());
        output.push(0);
        write_i32(&mut output, 0x0007_0010);
    }
    let import_offset = output.len() as i32;
    for (package, class, outer, name) in [(3, 4, 0, 1), (3, 5, -1, 2), (3, 4, 0, 3), (3, 5, -3, 4)] {
        write_compact(&mut output, package);
        write_compact(&mut output, class);
        write_i32(&mut output, outer);
        write_compact(&mut output, name);
    }
    let mut exports: Vec<(i32, i32, i32, Vec<u8>)> = Vec::new();
    exports.push((-4, 0, 30, vec![0]));
    exports.push((-2, 1, 7, template_texture(false, false)));
    exports.push((-2, 1, 8, template_texture(true, false)));
    exports.push((-2, 1, 9, template_texture(false, true)));
    let mut places = Vec::new();
    for (_, _, _, data) in &exports {
        places.push(output.len() as i32);
        output.extend_from_slice(data);
    }
    let export_offset = output.len() as i32;
    for ((class, outer, name, data), place) in exports.iter().zip(places) {
        write_compact(&mut output, *class);
        write_compact(&mut output, 0);
        write_i32(&mut output, *outer);
        write_compact(&mut output, *name);
        write_i32(&mut output, 0x0007_0004);
        write_compact(&mut output, data.len() as i32);
        write_compact(&mut output, place);
    }
    let header = [
        0x9e2a83c1_u32 as i32,
        118,
        0,
        TEMPLATE_NAMES.len() as i32,
        36,
        4,
        export_offset,
        4,
        import_offset,
    ];
    for (i, value) in header.iter().enumerate() {
        output[4 * i..4 * i + 4].copy_from_slice(&value.to_le_bytes());
    }
    output
}

fn request(name: &str, pixels: [u8; 4]) -> TextureImportRequest {
    TextureImportRequest {
        name: name.into(),
        format: 6,
        width: 1,
        height: 1,
        pixels: pixels.to_vec(),
        alpha: None,
        masked: None,
        clamp: None,
        split9: None,
        animation: None,
    }
}

fn split9(first: i32) -> Split9Edit {
    Split9Edit {
        enabled: true,
        x1: first,
        x2: first + 1,
        x3: first + 2,
        y1: first + 3,
        y2: first + 4,
        y3: first + 5,
    }
}

fn no_edit() -> TextureEditorEdit {
    TextureEditorEdit { alpha: None, masked: None, clamp: None, split9: None, animation: None }
}

fn parse(data: &[u8]) -> Package {
    Package::parse(Dialect::Engine, data.to_vec()).unwrap()
}

fn raw_of(package: &Package, index: usize) -> Vec<u8> {
    let export = package.export(index).unwrap();
    package.export_data(Dialect::Engine, &export).unwrap().to_vec()
}

fn pixels_at(package: &Package, index: usize) -> Vec<u8> {
    let mip = package.mip0_location(index).unwrap();
    raw_of(package, index)[mip.pixel_offset..mip.pixel_offset + mip.size].to_vec()
}

fn name_at(package: &Package, index: usize) -> String {
    let export = package.export(index).unwrap();
    package.inner_name(Dialect::Engine, &export).unwrap()
}

#[test]
fn preserves_unknown_properties_when_editing_alpha() {
    let mut names = table_of_names();
    let mut raw = Vec::new();
    write_compact(&mut raw, 1);
    raw.extend_from_slice(&[0x53, 0]);
    write_compact(&mut raw, 12);
    raw.extend_from_slice(&[TYPE_BYTE, 77]);
    write_compact(&mut raw, 0);
    raw.extend_from_slice(&[99, 100]);

    let mut stream = TexturePropertyStream::parse(&raw, &names).unwrap();
    stream
        .apply_editor_edit(&mut names, &TextureEditorEdit { alpha: Some(true), ..no_edit() })
        .unwrap();
    let serialized = stream.serialize(&names).unwrap();
    assert_eq!(&serialized[..3], &[1, 0xd3, 0]);
    assert!(serialized.windows(3).any(|bytes| bytes == [12, TYPE_BYTE, 77]));
    assert_eq!(stream.trailing_offset(), 6);
}

#[test]
fn editor_edit_creates_split9_and_animation_properties() {
    let mut names = table_of_names();
    let mut raw = Vec::new();
    write_compact(&mut raw, 0);
    let mut stream = TexturePropertyStream::parse(&raw, &names).unwrap();
    stream
        .apply_editor_edit(
            &mut names,
            &TextureEditorEdit {
                alpha: Some(false),
                masked: Some(true),
                clamp: Some(TextureClampEdit {
                    u_clamp: Some(10),
                    v_clamp: Some(11),
                    u_clamp_mode: Some(2),
                    v_clamp_mode: Some(3),
                }),
                split9: Some(split9(1)),
                animation: Some(TextureAnimationEdit {
                    anim_next: Some(129),
                    max_frame_rate: Some(bits(24.0)),
                    min_frame_rate: None,
                    one_time_anim_loop: None,
                    prime_count: Some(2),
                    total_frame_num: None,
                }),
            },
        )
        .unwrap();
    let serialized = stream.serialize(&names).unwrap();
    let parsed = TexturePropertyStream::parse(&serialized, &names).unwrap();
    let state = parsed.editor_state();
    assert_eq!(state.alpha, Some(false));
    assert_eq!(state.masked, Some(true));
    assert_eq!(state.u_clamp, Some(10));
    assert_eq!(state.v_clamp, Some(11));
    assert_eq!(state.u_clamp_mode, Some(2));
    assert_eq!(state.v_clamp_mode, Some(3));
    assert_eq!(state.split9, Some(true));
    assert_eq!((state.split9_x1, state.split9_y3), (1, 6));
    assert_eq!(state.animation.anim_next, Some(129));
    assert_eq!(state.animation.max_frame_rate, Some(bits(24.0)));
    assert_eq!(state.animation.prime_count, Some(2));
}

#[test]
fn compact_indices_round_trip_at_all_supported_lengths() {
    for value in [0, 63, 64, 8_191, 8_192, 1_048_576, -1, -8_192] {
        let mut encoded = Vec::new();
        write_compact(&mut encoded, value);
        assert_eq!(Reader::new(&encoded, Dialect::Engine).read_compact().unwrap(), value);
    }
}

#[test]
fn skips_the_variable_l2_metadata_before_texture_mips() {
    let mut data = vec![0; 92];
    write_compact(&mut data, 1);
    write_unreal_string(Dialect::Engine, &mut data, "TextureMeta").unwrap();
    data.push(2);
    write_unreal_string(Dialect::Engine, &mut data, "First").unwrap();
    write_unreal_string(Dialect::Engine, &mut data, "Second").unwrap();
    write_unreal_string(Dialect::Engine, &mut data, "TailMeta").unwrap();
    data.extend_from_slice(&0x1234_5678_u32.to_le_bytes());
    data.push(0x5a);

    let mut reader = Reader::new(&data, Dialect::Engine);
    reader.skip_unreal_extra(118, 40).unwrap();

    assert_eq!(reader.read_u8().unwrap(), 0x5a);
}

#[test]
fn creates_and_populates_a_v118_package_with_its_own_writer() {
    let empty = create_empty_package(&template(), "UnrealTlp", "EngineWriter").unwrap();
    let package = parse(&empty);
    assert_eq!(package.version, UE2_PACKAGE_VERSION);
    assert_eq!(package.licensee, UE2_LICENSEE_VERSION);
    assert!(package.exports.is_empty());
    assert!(package.names.index_of("EngineWriter").is_some());

    let textures = vec![
        TextureImportRequest {
            clamp: Some(TextureClampEdit {
                u_clamp: Some(64),
                v_clamp: Some(32),
                u_clamp_mode: Some(2),
                v_clamp_mode: Some(3),
            }),
            ..request("common", [10, 20, 30, 255])
        },
        TextureImportRequest {
            alpha: Some(true),
            split9: Some(split9(1)),
            ..request("split", [40, 50, 60, 255])
        },
        TextureImportRequest {
            animation: Some(TextureAnimationImport {
                anim_next: Some("animated_second".into()),
                max_frame_rate: Some(bits(24.0)),
                min_frame_rate: Some(bits(12.0)),
                one_time_anim_loop: Some(false),
                prime_count: Some(0),
                total_frame_num: Some(2),
            }),
            ..request("animated_first", [70, 80, 90, 255])
        },
        TextureImportRequest {
            animation: Some(TextureAnimationImport {
                anim_next: Some("animated_first".into()),
                max_frame_rate: Some(bits(24.0)),
                min_frame_rate: Some(bits(12.0)),
                one_time_anim_loop: Some(true),
                prime_count: Some(1),
                total_frame_num: Some(2),
            }),
            ..request("animated_second", [100, 110, 120, 255])
        },
        TextureImportRequest {
            split9: Some(split9(7)),
            animation: Some(TextureAnimationImport {
                anim_next: Some("animated_first".into()),
                max_frame_rate: Some(bits(30.0)),
                min_frame_rate: Some(bits(15.0)),
                one_time_anim_loop: Some(true),
                prime_count: Some(2),
                total_frame_num: Some(3),
            }),
            ..request("split_animated", [130, 140, 150, 255])
        },
    ];
    let (written, outcomes) =
        import_new_textures(empty, &template(), "CandidateWnd", &textures).unwrap();
    assert_eq!(outcomes.len(), textures.len());
    let package = parse(&written);
    assert_eq!(package.exports.len(), textures.len() + 1);
    let state_of = |index: usize| {
        TexturePropertyStream::parse(&raw_of(&package, index), &package.names)
            .unwrap()
            .editor_state()
    };
    let common_state = state_of(outcomes[0].export_index);
    assert_eq!(common_state.u_clamp, Some(64));
    assert_eq!(common_state.v_clamp, Some(32));
    assert_eq!(common_state.u_clamp_mode, Some(2));
    assert_eq!(common_state.v_clamp_mode, Some(3));
    let split_state = state_of(outcomes[1].export_index);
    assert_eq!(split_state.split9, Some(true));
    assert_eq!((split_state.split9_x1, split_state.split9_y3), (1, 6));
    let animated_state = state_of(outcomes[2].export_index);
    assert_eq!(animated_state.animation.max_frame_rate, Some(bits(24.0)));
    assert_eq!(animated_state.animation.one_time_anim_loop, Some(false));
    assert_eq!(animated_state.animation.prime_count, Some(0));
    assert_eq!(animated_state.animation.total_frame_num, Some(2));
    assert_eq!(
        animated_state.animation.anim_next,
        Some(outcomes[3].export_index as i32 + 1)
    );
    let split_animated_state = state_of(outcomes[4].export_index);
    assert_eq!(split_animated_state.split9, Some(true));
    assert_eq!((split_animated_state.split9_x1, split_animated_state.split9_y3), (7, 12));
    assert_eq!(split_animated_state.animation.max_frame_rate, Some(bits(30.0)));
    assert_eq!(
        split_animated_state.animation.anim_next,
        Some(outcomes[2].export_index as i32 + 1)
    );
}

#[test]
fn imports_a_mixed_batch_with_native_replace_and_add_paths() {
    let empty = create_empty_package(&template(), "UnrealTlp", "EngineWriter").unwrap();
    let original = request("existing", [1, 2, 3, 255]);
    let (initial, _) =
        import_new_textures(empty, &template(), "CandidateWnd", &vec![original]).unwrap();

    let changes = vec![
        TextureImportRequest { alpha: Some(true), ..request("existing", [20, 21, 22, 255]) },
        request("added", [30, 31, 32, 255]),
    ];
    let (written, outcomes) =
        import_textures(initial, &template(), "CandidateWnd", &changes).unwrap();
    assert_eq!(outcomes.len(), 2);
    assert!(!outcomes[0].added);
    assert!(outcomes[1].added);

    let package = parse(&written);
    assert_eq!(package.exports.len(), 3);
    let mip = package.mip0_location(outcomes[0].export_index).unwrap();
    let raw = raw_of(&package, outcomes[0].export_index);
    assert_eq!(&raw[mip.pixel_offset..mip.pixel_offset + 4], &[20, 21, 22, 255]);
    let state = TexturePropertyStream::parse(&raw, &package.names).unwrap().editor_state();
    assert_eq!(state.alpha, Some(true));
}

#[test]
fn replacement_metadata_keeps_the_existing_export_layout() {
    let empty = create_empty_package(&template(), "UnrealTlp", "LayoutWriter").unwrap();
    let source = TextureImportRequest {
        alpha: Some(true),
        masked: Some(false),
        ..request("existing", [1, 2, 3, 255])
    };
    let (initial, outcomes) =
        import_new_textures(empty, &template(), "CandidateWnd", &vec![source]).unwrap();
    let export_index = outcomes[0].export_index;
    let before = parse(&initial);
    let before_export = before.export(export_index).unwrap();

    let replacement = TextureImportRequest {
        alpha: Some(false),
        masked: Some(true),
        ..request("existing", [10, 20, 30, 255])
    };
    let replaced = replace_texture(initial, export_index, &replacement).unwrap();
    let after = parse(&replaced);
    let after_export = after.export(export_index).unwrap();

    assert_eq!(replaced.len(), before.data.len());
    assert_eq!(after_export.offset, before_export.offset);
    assert_eq!(after_export.size, before_export.size);
    let state = TexturePropertyStream::parse(&raw_of(&after, export_index), &after.names)
        .unwrap()
        .editor_state();
    assert_eq!(state.alpha, Some(false));
    assert_eq!(state.masked, Some(true));
    assert_eq!(pixels_at(&after, export_index), [10, 20, 30, 255]);
}

#[test]
fn edits_properties_without_replacing_texture_pixels() {
    let empty = create_empty_package(&template(), "UnrealTlp", "PropertyWriter").unwrap();
    let source = request("editable", [31, 63, 95, 255]);
    let (written, outcomes) =
        import_new_textures(empty, &template(), "PropertyGroup", &vec![source]).unwrap();
    let export_index = outcomes[0].export_index;
    let before_pixels = pixels_at(&parse(&written), export_index);

    let edited = edit_texture_properties(
        written,
        export_index,
        TextureEditorEdit {
            alpha: Some(true),
            masked: Some(true),
            clamp: Some(TextureClampEdit {
                u_clamp: Some(32),
                v_clamp: Some(48),
                u_clamp_mode: Some(2),
                v_clamp_mode: Some(3),
            }),
            split9: Some(split9(1)),
            animation: Some(TextureAnimationEdit {
                anim_next: Some(export_index as i32 + 1),
                max_frame_rate: Some(bits(20.0)),
                min_frame_rate: Some(bits(10.0)),
                one_time_anim_loop: Some(true),
                prime_count: Some(1),
                total_frame_num: Some(1),
            }),
        },
    )
    .unwrap();
    let state = texture_editor_state(edited.clone(), export_index).unwrap();
    assert_eq!(state.alpha, Some(true));
    assert_eq!(state.masked, Some(true));
    assert_eq!((state.u_clamp, state.v_clamp), (Some(32), Some(48)));
    assert_eq!(state.split9, Some(true));
    assert_eq!((state.split9_x1, state.split9_y3), (1, 6));
    assert_eq!(state.animation.anim_next, Some(export_index as i32 + 1));
    assert_eq!(state.animation.max_frame_rate, Some(bits(20.0)));
    assert_eq!(state.animation.one_time_anim_loop, Some(true));

    assert_eq!(pixels_at(&parse(&edited), export_index), before_pixels);
}

#[test]
fn batch_property_edits_apply_the_same_values_to_every_texture() {
    let empty = create_empty_package(&template(), "UnrealTlp", "BatchPropertyWriter").unwrap();
    let textures = vec![
        request("first", [10, 20, 30, 255]),
        request("second", [40, 50, 60, 255]),
    ];
    let (written, outcomes) =
        import_new_textures(empty, &template(), "BatchGroup", &textures).unwrap();
    let edit = TextureEditorEdit {
        alpha: Some(true),
        masked: Some(false),
        clamp: None,
        split9: Some(split9(1)),
        animation: None,
    };
    let edited = edit_texture_properties_batch(
        written,
        &outcomes
            .iter()
            .map(|outcome| (outcome.export_index, edit.clone()))
            .collect::<Vec<_>>(),
    )
    .unwrap();

    for outcome in outcomes {
        let state = texture_editor_state(edited.clone(), outcome.export_index).unwrap();
        assert_eq!(state.alpha, Some(true));
        assert_eq!(state.masked, Some(false));
        assert_eq!(state.split9, Some(true));
        assert_eq!((state.split9_x1, state.split9_y3), (1, 6));
    }
}

#[test]
fn duplicates_a_texture_into_a_new_group_without_changing_its_payload() {
    let empty = create_empty_package(&template(), "UnrealTlp", "DuplicateWriter").unwrap();
    let source = TextureImportRequest {
        alpha: Some(true),
        masked: Some(true),
        split9: Some(split9(1)),
        ..request("source", [25, 50, 75, 255])
    };
    let (written, outcomes) =
        import_new_textures(empty, &template(), "SourceGroup", &vec![source]).unwrap();
    let source_export_index = outcomes[0].export_index;
    let (duplicated, duplicate_export_index) =
        duplicate_texture(written, source_export_index, "NewGroup", "copy").unwrap();
    let package = parse(&duplicated);
    assert_eq!(name_at(&package, duplicate_export_index), "NewGroup.copy");
    let state = texture_editor_state(duplicated.clone(), duplicate_export_index).unwrap();
    assert_eq!(state.alpha, Some(true));
    assert_eq!(state.masked, Some(true));
    assert_eq!(state.split9, Some(true));
    assert_eq!((state.split9_x1, state.split9_y3), (1, 6));

    let source_pixels = pixels_at(&package, source_export_index);
    let duplicate_pixels = pixels_at(&package, duplicate_export_index);
    assert_eq!(duplicate_pixels, source_pixels);

    let renamed = rename_texture(duplicated, duplicate_export_index, "renamed").unwrap();
    let renamed_package = parse(&renamed);
    assert_eq!(name_at(&renamed_package, duplicate_export_index), "NewGroup.renamed");
    let renamed_state = texture_editor_state(renamed.clone(), duplicate_export_index).unwrap();
    assert_eq!(renamed_state.alpha, Some(true));
    assert_eq!(renamed_state.split9, Some(true));
    assert!(duplicate_texture(renamed, source_export_index, "NewGroup", "renamed").is_err());
}

#[test]
fn a_template_without_its_package_name_makes_no_package() {
    assert!(create_empty_package(&template(), "Elsewhere", "Walker").is_err());
    assert!(create_empty_package(&[0; 10], "UnrealTlp", "Walker").is_err());
    let mut old = template();
    old[4] = 117;
    assert!(create_empty_package(&old, "UnrealTlp", "Walker").is_err());
}

#[test]
fn group_and_texture_names_hold_letters_digits_and_underscores() {
    assert!(validate_group_name("Candidate_1").is_ok());
    assert!(validate_group_name("").is_err());
    assert!(validate_texture_name("button_2").is_ok());
    assert!(validate_texture_name("a.b").is_err());
}

#[test]
fn replacements_of_other_sizes_or_unknown_exports_are_refused() {
    let empty = create_empty_package(&template(), "UnrealTlp", "Sizes").unwrap();
    let (written, outcomes) =
        import_new_textures(empty, &template(), "Group", &vec![request("one", [1, 2, 3, 4])])
            .unwrap();
    let index = outcomes[0].export_index;
    let wide = TextureImportRequest {
        width: 2,
        pixels: vec![0; 8],
        ..request("one", [0; 4])
    };
    assert!(replace_texture(written.clone(), index, &wide).is_err());
    assert!(replace_texture(written.clone(), 99, &request("one", [0; 4])).is_err());
    assert!(texture_editor_state(written.clone(), 99).is_err());
    let (replaced, _) =
        replace_existing_textures(written, &[(index, request("one", [5, 6, 7, 8]))]).unwrap();
    assert_eq!(pixels_at(&parse(&replaced), index), [5, 6, 7, 8]);
}

#[test]
fn renaming_keeps_indices_and_payloads() {
    let empty = create_empty_package(&template(), "UnrealTlp", "Names").unwrap();
    let textures = vec![request("one", [1, 2, 3, 4]), request("two", [5, 6, 7, 8])];
    let (written, outcomes) =
        import_new_textures(empty, &template(), "Group", &textures).unwrap();
    let renamed = rename_texture(written.clone(), outcomes[0].export_index, "three").unwrap();
    let before = parse(&written);
    let after = parse(&renamed);
    assert_eq!(after.exports.len(), before.exports.len());
    for outcome in &outcomes {
        assert_eq!(raw_of(&after, outcome.export_index), raw_of(&before, outcome.export_index));
    }
    assert_eq!(name_at(&after, outcomes[0].export_index), "Group.three");
    assert_eq!(name_at(&after, outcomes[1].export_index), "Group.two");
    assert!(rename_texture(renamed, outcomes[0].export_index, "two").is_err());
}

#[test]
fn additions_leave_the_textures_that_are_there() {
    let empty = create_empty_package(&template(), "UnrealTlp", "Names").unwrap();
    let first = vec![request("one", [1, 2, 3, 4])];
    let (before, outcomes) = import_new_textures(empty, &template(), "Group", &first).unwrap();
    let second = vec![request("two", [5, 6, 7, 8])];
    let (after, added) =
        import_new_textures(before.clone(), &template(), "Group", &second).unwrap();
    let (before, after) = (parse(&before), parse(&after));
    let index = outcomes[0].export_index;
    assert_eq!(raw_of(&after, index), raw_of(&before, index));
    assert_eq!(name_at(&after, index), "Group.one");
    assert_eq!(pixels_at(&after, index), vec![1, 2, 3, 4]);
    assert_eq!(name_at(&after, added[0].export_index), "Group.two");
    assert_eq!(pixels_at(&after, added[0].export_index), vec![5, 6, 7, 8]);
}

#[test]
fn imported_pixels_are_shown_in_previews() {
    let empty = create_empty_package(&template(), "UnrealTlp", "Names").unwrap();
    let edited = TextureImportRequest { alpha: Some(true), ..request("two", [5, 6, 7, 8]) };
    let textures = vec![request("one", [1, 2, 3, 4]), edited];
    let (written, outcomes) =
        import_new_textures(empty, &template(), "Group", &textures).unwrap();
    let shown = Package::parse(Dialect::Frontend, written).unwrap();
    assert_eq!(shown.mip0_pixels(outcomes[0].export_index).unwrap(), vec![1, 2, 3, 4]);
    assert_eq!(shown.mip0_pixels(outcomes[1].export_index).unwrap(), vec![5, 6, 7, 8]);
    let entry = shown.entry_to_model(outcomes[1].export_index).unwrap();
    assert_eq!(entry.settings.alpha, Some(true));
    assert_eq!((entry.width, entry.height), (1, 1));
}

#[test]
fn edited_pointers_stand_behind_the_pixels() {
    let empty = create_empty_package(&template(), "UnrealTlp", "Pointers").unwrap();
    let textures = vec![request("first", [1, 2, 3, 4]), request("second", [5, 6, 7, 8])];
    let (written, outcomes) =
        import_new_textures(empty, &template(), "Group", &textures).unwrap();
    let index = outcomes[1].export_index;
    let edit = TextureEditorEdit { split9: Some(split9(2)), ..no_edit() };
    let edited = parse(&edit_texture_properties(written, index, edit).unwrap());
    let export = edited.export(index).unwrap();
    let mip = edited.mip0_location(index).unwrap();
    let raw = raw_of(&edited, index);
    let at = mip.width_offset_position;
    let pointer = i32::from_le_bytes([raw[at], raw[at + 1], raw[at + 2], raw[at + 3]]);
    assert_eq!(pointer as usize, export.offset as usize + mip.pixel_offset + mip.size);
    assert_eq!(pixels_at(&edited, index), vec![5, 6, 7, 8]);
}

#[test]
fn refused_changes_leave_the_package_as_it_was() {
    let mut package = parse(&template());
    let before = package.data.clone();
    assert!(package.rename_texture(99, "other").is_err());
    assert!(package.duplicate_texture(1, "a.b", "other").is_err());
    assert!(package.replace_pixels(0, &request("other", [0; 4])).is_err());
    assert_eq!(package.data, before);
    assert_eq!(package.exports.len(), 4);
}

#[test]
fn the_editor_shows_what_an_import_asked_for() {
    let empty = create_empty_package(&template(), "UnrealTlp", "Shown").unwrap();
    let textures = vec![
        TextureImportRequest {
            alpha: Some(true),
            masked: Some(false),
            animation: Some(TextureAnimationImport {
                anim_next: Some("Texture'later'".into()),
                max_frame_rate: Some(bits(24.0)),
                min_frame_rate: None,
                one_time_anim_loop: None,
                prime_count: None,
                total_frame_num: Some(2),
            }),
            ..request("first", [1, 2, 3, 4])
        },
        request("plain", [5, 6, 7, 8]),
        TextureImportRequest { split9: Some(split9(3)), ..request("later", [9, 10, 11, 12]) },
    ];
    let (written, outcomes) =
        import_new_textures(empty, &template(), "Group", &textures).unwrap();
    let first = texture_editor_state(written.clone(), outcomes[0].export_index).unwrap();
    assert_eq!((first.alpha, first.masked), (Some(true), Some(false)));
    assert_eq!(first.animation.max_frame_rate, Some(bits(24.0)));
    assert_eq!(first.animation.total_frame_num, Some(2));
    assert_eq!(first.animation.anim_next, Some(outcomes[2].export_index as i32 + 1));
    let later = texture_editor_state(written.clone(), outcomes[2].export_index).unwrap();
    assert_eq!(later.split9, Some(true));
    assert_eq!((later.split9_x1, later.split9_y3), (3, 8));
    assert!(texture_editor_state(written, 99).is_err());
}

#[test]
fn textures_replaced_at_once_leave_the_rest() {
    let before = template();
    let replacements = vec![
        (1, TextureImportRequest { format: 5, alpha: Some(true), ..request("a", [1, 1, 1, 1]) }),
        (3, TextureImportRequest { format: 5, ..request("b", [2, 2, 2, 2]) }),
        (1, TextureImportRequest { format: 5, masked: Some(true), ..request("a", [3, 3, 3, 3]) }),
    ];
    let (after, outcomes) = replace_existing_textures(before.clone(), &replacements).unwrap();
    let indices: Vec<usize> = outcomes.iter().map(|outcome| outcome.export_index).collect();
    assert_eq!(indices, vec![1, 3, 1]);
    assert!(outcomes.iter().all(|outcome| !outcome.added));
    assert_eq!(after.len(), before.len());
    let (old, new) = (parse(&before), parse(&after));
    assert_eq!(pixels_at(&new, 1), vec![3, 3, 3, 3]);
    assert_eq!(pixels_at(&new, 2), vec![9, 8, 7, 255]);
    assert_eq!(pixels_at(&new, 3), vec![2, 2, 2, 2]);
    assert_eq!(raw_of(&new, 0), raw_of(&old, 0));
    assert_eq!(raw_of(&new, 2), raw_of(&old, 2));
    let touched: Vec<(usize, usize)> = [1, 3]
        .iter()
        .map(|index| {
            let export = old.export(*index).unwrap();
            (export.offset as usize, (export.offset + export.size) as usize)
        })
        .collect();
    for (i, (x, y)) in before.iter().zip(&after).enumerate() {
        if !touched.iter().any(|(from, to)| *from <= i && i < *to) {
            assert_eq!(x, y);
        }
    }
    let first = texture_editor_state(after.clone(), 1).unwrap();
    assert_eq!((first.alpha, first.masked), (Some(true), Some(true)));
    let list = |data: &[u8]| texture_editor_state(data.to_vec(), 3).unwrap().animation.total_frame_num;
    assert_eq!(list(&after), list(&before));
}

#[test]
fn replaced_and_added_textures_are_read_back() {
    let empty = create_empty_package(&template(), "UnrealTlp", "Mixed").unwrap();
    let first = vec![
        TextureImportRequest { masked: Some(false), ..request("one", [1, 2, 3, 4]) },
        TextureImportRequest { masked: Some(false), ..request("two", [5, 6, 7, 8]) },
        request("three", [9, 9, 9, 9]),
    ];
    let (initial, placed) = import_new_textures(empty, &template(), "Group", &first).unwrap();
    let changes = vec![
        TextureImportRequest { alpha: Some(true), ..request("new", [10, 11, 12, 13]) },
        TextureImportRequest { masked: Some(true), ..request("TWO", [20, 21, 22, 23]) },
        TextureImportRequest { alpha: Some(true), ..request("one", [30, 31, 32, 33]) },
        TextureImportRequest { masked: Some(true), ..request("other", [40, 41, 42, 43]) },
    ];
    let (written, outcomes) =
        import_textures(initial.clone(), &template(), "Group", &changes).unwrap();
    let added: Vec<bool> = outcomes.iter().map(|outcome| outcome.added).collect();
    assert_eq!(added, vec![true, false, false, true]);
    assert_eq!(outcomes[1].export_index, placed[1].export_index);
    assert_eq!(outcomes[2].export_index, placed[0].export_index);
    let (old, new) = (parse(&initial), parse(&written));
    for (change, outcome) in changes.iter().zip(&outcomes) {
        assert_eq!(pixels_at(&new, outcome.export_index), change.pixels);
        let state = texture_editor_state(written.clone(), outcome.export_index).unwrap();
        if change.alpha.is_some() {
            assert_eq!(state.alpha, change.alpha);
        }
        if change.masked.is_some() {
            assert_eq!(state.masked, change.masked);
        }
    }
    let kept = placed[2].export_index;
    assert_eq!(raw_of(&new, kept), raw_of(&old, kept));
    assert_eq!(new.export(kept).unwrap().offset, old.export(kept).unwrap().offset);
}
