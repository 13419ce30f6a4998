use link_cplusplus as _;
use unreal_tools::layout::{
    patch_split9_properties, texture_layout, PropertyPatch, Split9, TextureLayout,
};
use unreal_tools::names::{NameEntry, NameTable};
use unreal_tools::package::{read_export_table, serialize_export_table, ExportEntry, Package};
use unreal_tools::paths::{extension, file_name, file_stem, folder, imported_texture_name};
use unreal_tools::reader::{write_compact, Dialect};

fn write_i32(output: &mut Vec<u8>, value: i32) {
    output.extend_from_slice(&value.to_le_bytes());
}

fn named(names: &[&str]) -> Package {
    Package {
        data: Vec::new(),
        version: 0,
        licensee: 0,
        name_offset: 0,
        names: NameTable::new(
            names.iter().map(|name| NameEntry { name: (*name).into(), flags: 0 }).collect(),
        ),
        imports: Vec::new(),
        exports: Vec::new(),
    }
}

#[test]
fn accepts_unicode_file_names_for_existing_texture_replacements() {
    assert_eq!(
        imported_texture_name("C:\\icons\\펫액션_01.dds").unwrap(),
        "펫액션_01"
    );
}

#[test]
fn export_table_omits_zero_size_offsets_and_reads_legacy_tables() {
    let entries = vec![
        ExportEntry {
            class: -1,
            super_class: 0,
            package: 0,
            name_index: 0,
            flags: 0,
            size: 0,
            offset: 0,
        },
        ExportEntry {
            class: -2,
            super_class: 0,
            package: 1,
            name_index: 1,
            flags: 0,
            size: 4,
            offset: 128,
        },
    ];
    let read = |data: &[u8], legacy: bool| {
        read_export_table(Dialect::Frontend, data, 0, entries.len(), 2, legacy).unwrap()
    };
    let standard = serialize_export_table(&entries);
    let parsed = read(&standard, false);
    assert_eq!(parsed.0[1].class, -2);
    assert_eq!(parsed.0[1].name_index, 1);
    assert_eq!(parsed.1, standard.len());

    let mut legacy = Vec::new();
    for entry in &entries {
        write_compact(&mut legacy, entry.class);
        write_compact(&mut legacy, entry.super_class);
        write_i32(&mut legacy, entry.package);
        write_compact(&mut legacy, entry.name_index);
        write_i32(&mut legacy, entry.flags);
        write_compact(&mut legacy, entry.size);
        write_compact(&mut legacy, entry.offset);
    }
    let incorrectly_shifted = read(&legacy, false);
    assert_ne!(incorrectly_shifted.0[1].class, -2);
    let legacy_parsed = read(&legacy, true);
    assert_eq!(legacy_parsed.0[1].class, -2);
    assert_eq!(legacy_parsed.1, legacy.len());
}

#[test]
fn texture_layout_detects_an_active_anim_next_reference() {
    let package = named(&["None", "Format", "AnimNext"]);
    let mut raw = Vec::new();
    write_compact(&mut raw, 2);
    raw.extend_from_slice(&[0x05, 7]);
    write_compact(&mut raw, 1);
    raw.extend_from_slice(&[0x00, 5]);
    write_compact(&mut raw, 0);
    raw.push(1);
    write_i32(&mut raw, 0);

    let layout = texture_layout(Dialect::Frontend, &raw, &package).unwrap();
    assert_eq!(layout.anim_next, Some(7));
}

#[test]
fn split9_patch_keeps_omitted_default_properties() {
    let layout = TextureLayout {
        format: PropertyPatch { offset: 0, size: 1 },
        width: None,
        height: None,
        u_bits: None,
        v_bits: None,
        anim_next: None,
        split9_x1: None,
        split9_x2: None,
        split9_x3: None,
        split9_y1: None,
        split9_y2: None,
        split9_y3: None,
        mip_count_offset: 0,
        mip_width_offset: 0,
        mip_payload_offset: 0,
    };
    let mut output = Vec::new();
    let default_split9 = Split9 { x1: 0, x2: 0, x3: 0, y1: 0, y2: 0, y3: 0 };
    patch_split9_properties(&mut output, &layout, default_split9).unwrap();
    let error = patch_split9_properties(
        &mut output,
        &layout,
        Split9 { x1: 1, ..default_split9 },
    )
    .unwrap_err();
    assert!(error.contains("Split9X1"));
}

#[test]
fn a_refused_split9_patch_keeps_what_was_stored_before() {
    let layout = TextureLayout {
        format: PropertyPatch { offset: 0, size: 1 },
        width: None,
        height: None,
        u_bits: None,
        v_bits: None,
        anim_next: None,
        split9_x1: Some(PropertyPatch { offset: 1, size: 4 }),
        split9_x2: None,
        split9_x3: Some(PropertyPatch { offset: 5, size: 4 }),
        split9_y1: None,
        split9_y2: None,
        split9_y3: None,
        mip_count_offset: 0,
        mip_width_offset: 0,
        mip_payload_offset: 0,
    };
    let mut output = vec![9; 9];
    let split9 = Split9 { x1: 3, x2: 1, x3: 4, y1: 0, y2: 0, y3: 0 };
    let error = patch_split9_properties(&mut output, &layout, split9).unwrap_err();
    assert!(error.contains("Split9X2"));
    assert_eq!(output, vec![9, 3, 0, 0, 0, 9, 9, 9, 9]);
}

#[test]
fn drives_and_shares_are_no_part_of_a_file_name() {
    assert_eq!(file_name("C:foo.tga").as_deref(), Some("foo.tga"));
    assert_eq!(file_stem("C:foo.tga").as_deref(), Some("foo"));
    assert_eq!(imported_texture_name("C:foo.tga").unwrap(), "foo");
    assert_eq!(file_name("C:"), None);
    assert_eq!(file_name("C:\\"), None);
    assert_eq!(file_name("\\\\server\\share"), None);
    assert_eq!(file_name("\\\\server\\share\\a.dds").as_deref(), Some("a.dds"));
    assert_eq!(file_name("\\\\?\\C:\\a\\b.tga").as_deref(), Some("b.tga"));
    assert_eq!(extension("a/b.tar.gz").as_deref(), Some("gz"));
    assert_eq!(folder("a/b/c.tga"), "a/b/");
}
