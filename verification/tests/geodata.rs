use link_cplusplus as _;

use unreal_tools::geodata::{
    decode_height, decode_nswe, encode_height_and_nswe, Block, Cell, GeodataFormat, Region,
    CELLS_PER_BLOCK, GEO_CHECKSUM, NSWE_ALL, REGION_SIZE,
};
use unreal_tools::geodata_path::parse_path_text;
use unreal_tools::geodata_plan::{
    detect_geodata_format, display_path, plan_conversion, validate_output_format, worker_count,
    GeodataSource,
};
use unreal_tools::geodata_region::{checksum_byte, coordinates_from_name, parse_file};
use unreal_tools::geodata_writer::{l2g_key, write_region};

fn write_i16(output: &mut Vec<u8>, value: i16) {
    output.extend_from_slice(&value.to_le_bytes());
}

fn flat_region(x: i32, y: i32, height: i16) -> Region {
    Region::new(
        x,
        y,
        (0..REGION_SIZE * REGION_SIZE)
            .map(|_| Block::Flat(Cell { height, min_height: Some(height), nswe: NSWE_ALL }))
            .collect(),
    )
    .unwrap()
}

fn flat_binary(tag: u8, height: i16) -> Vec<u8> {
    let mut output = Vec::with_capacity(REGION_SIZE * REGION_SIZE * 3);
    for _ in 0..REGION_SIZE * REGION_SIZE {
        output.push(tag);
        write_i16(&mut output, height);
    }
    output
}

fn encrypt_l2s(plain: Vec<u8>, random_key: u32) -> Vec<u8> {
    let mut checksum = GEO_CHECKSUM;
    for byte in b"127.0.0.1" {
        checksum ^= u32::from(*byte);
        checksum = checksum.rotate_right(1);
    }
    let mut output = Vec::with_capacity(plain.len() + 4);
    output.extend_from_slice(&random_key.to_be_bytes());
    let mut xor_byte = checksum_byte(checksum ^ random_key);
    for byte in plain {
        output.push(byte ^ xor_byte);
        xor_byte = byte;
    }
    output
}

fn l2m_with_multilevel_block(height: i16) -> Vec<u8> {
    let mut output = Vec::new();
    output.push(2);
    let header = (63_u16 << 5) | 1;
    for _ in 0..CELLS_PER_BLOCK {
        output.extend_from_slice(&header.to_le_bytes());
    }
    for _ in 0..CELLS_PER_BLOCK {
        write_i16(&mut output, encode_height_and_nswe(height, NSWE_ALL));
    }
    for _ in 1..REGION_SIZE * REGION_SIZE {
        output.push(0);
        write_i16(&mut output, height);
    }
    output
}

fn write(region: &Region, format: GeodataFormat) -> Vec<u8> {
    write_region(region, format, l2g_key(12, 34, region.x, region.y)).unwrap()
}

fn source(path: &str, relative: &str, file: &[u8]) -> GeodataSource {
    GeodataSource {
        path: path.into(),
        relative: Ok(relative.into()),
        header: Ok(file[..file.len().min(18)].to_vec()),
    }
}

#[test]
fn height_and_nswe_round_trip() {
    let encoded = encode_height_and_nswe(-320, 13);
    assert_eq!(decode_height(encoded), -320);
    assert_eq!(decode_nswe(encoded), 13);
}

#[test]
fn l2j_conv_dat_and_l2g_round_trip() {
    let region = flat_region(10, 11, 240);
    for format in [GeodataFormat::L2j, GeodataFormat::ConvDat, GeodataFormat::L2g] {
        let bytes = write(&region, format);
        let path = format!("10_11{}", format.extension());
        let decoded = parse_file(&path, format, &bytes).unwrap();
        assert_eq!((decoded.x, decoded.y), (10, 11));
        match decoded.block(0, 0) {
            Block::Flat(cell) => assert_eq!(cell.height, 240),
            _ => panic!("expected flat block"),
        }
    }
}

#[test]
fn parses_every_supported_source_format() {
    let region = flat_region(10, 10, 240);
    let cases = [
        ("10_10.l2j", GeodataFormat::L2j, write(&region, GeodataFormat::L2j)),
        ("10_10_conv.dat", GeodataFormat::ConvDat, write(&region, GeodataFormat::ConvDat)),
        ("10_10.l2d", GeodataFormat::L2d, flat_binary(0xd0, 240)),
        ("10_10.l2s", GeodataFormat::L2s, encrypt_l2s(flat_binary(0, 240), 0x1234_5678)),
        ("10_10.l2g", GeodataFormat::L2g, write(&region, GeodataFormat::L2g)),
        ("10_10.rp", GeodataFormat::Rp, flat_binary(0xd0, 240)),
        ("10_10.l2m", GeodataFormat::L2m, l2m_with_multilevel_block(240)),
    ];
    for (name, format, bytes) in cases {
        let decoded = parse_file(name, format, &bytes).unwrap();
        assert_eq!((decoded.x, decoded.y), (10, 10));
        if format == GeodataFormat::L2m {
            assert!(matches!(decoded.block(0, 0), Block::MultiLevel(_)));
        }
    }

    let text = parse_path_text("10_10_path.txt", "[0,0]1(240:1111)\n").unwrap();
    let format = GeodataFormat::PathTxt;
    let decoded = parse_file("10_10_path.txt", format, b"[0,0]1(240:1111)\n").unwrap();
    assert_eq!((text.x, text.blocks.len()), (decoded.x, decoded.blocks.len()));
    assert_eq!((decoded.x, decoded.y), (10, 10));
    assert!(matches!(decoded.block(0, 0), Block::Complex(_)));
}

#[test]
fn truncated_region_is_an_error_not_a_panic() {
    assert!(parse_file("10_10.l2j", GeodataFormat::L2j, &[0_u8, 0]).is_err());
}

#[test]
fn batch_preserves_tree_overwrites_existing_output_and_keeps_first_batch_conflict() {
    let region = flat_region(10, 10, 100);
    let l2j = write(&region, GeodataFormat::L2j);
    let l2g = write(&region, GeodataFormat::L2g);
    let other = write(&flat_region(11, 10, 120), GeodataFormat::L2j);
    let sources = vec![
        source("input/10_10.l2g", "10_10.l2g", &l2g),
        source("input/10_10.l2j", "10_10.l2j", &l2j),
        source("input/11_10.l2j", "11_10.l2j", &other),
        source("input/nested/10_10.l2g", "nested/10_10.l2g", &l2g),
    ];
    let plan = plan_conversion(&sources, GeodataFormat::L2j).unwrap();
    let mut totals = plan.totals;
    let destinations: Vec<&str> =
        plan.work.iter().map(|item| item.destination.as_str()).collect();
    assert_eq!(destinations, ["10_10.l2j", "11_10.l2j", "nested/10_10.l2j"]);
    for item in &plan.work {
        totals.record_result(item.copy, &item.file_name, Ok(()));
    }
    let summary = totals.summary("output", sources.len(), 1);
    assert_eq!(summary.total_files, 4);
    assert_eq!(summary.copied_files, 1);
    assert_eq!(summary.converted_files, 2);
    assert_eq!(summary.skipped_files, 1);
}

#[test]
fn batch_reports_invalid_coordinates_without_stopping() {
    let file = write(&flat_region(10, 10, 100), GeodataFormat::L2j);
    let sources = vec![source("input/9_10.l2j", "9_10.l2j", &file)];
    let plan = plan_conversion(&sources, GeodataFormat::L2g).unwrap();
    let summary = plan.totals.summary("output", sources.len(), 1);
    assert_eq!(summary.total_files, 1);
    assert_eq!(summary.failed_files, 1);
    assert!(summary.errors[0].contains("fora do intervalo 10..26"));
}

#[test]
fn hides_the_windows_extended_path_prefix_from_display() {
    assert_eq!(
        display_path(r"\\?\C:\Icons\modified\Icons"),
        r"C:\Icons\modified\Icons"
    );
    assert_eq!(
        display_path(r"\\?\UNC\server\share\icons"),
        r"\\server\share\icons"
    );
}

#[test]
fn formats_are_told_apart_by_file_names() {
    assert_eq!(detect_geodata_format("a/20_18.L2J"), Some(GeodataFormat::L2j));
    assert_eq!(detect_geodata_format("a/20_18_conv.dat"), Some(GeodataFormat::ConvDat));
    assert_eq!(detect_geodata_format("a/20_18_path.txt"), Some(GeodataFormat::PathTxt));
    assert_eq!(detect_geodata_format("a/20_18.zip"), None);
    assert!(validate_output_format(GeodataFormat::L2g).is_ok());
    assert!(validate_output_format(GeodataFormat::Rp).is_err());
    assert_eq!(coordinates_from_name("x/20_18.l2j").unwrap(), (20, 18));
    assert!(coordinates_from_name("x/region.l2j").is_err());
    assert!(worker_count(Some(1)) >= 1);
}

#[test]
fn a_region_of_other_size_is_no_region() {
    assert!(Region::new(10, 10, Vec::new()).is_err());
}

#[test]
fn text_files_without_text_are_refused() {
    let error = parse_file("10_10_path.txt", GeodataFormat::PathTxt, &[0xff, 0xfe]).unwrap_err();
    assert_eq!(error, "Não foi possível ler PATH_TXT: stream did not contain valid UTF-8");
}

#[test]
fn regions_are_named_by_their_coordinates() {
    for format in [
        GeodataFormat::L2j,
        GeodataFormat::ConvDat,
        GeodataFormat::L2d,
        GeodataFormat::L2s,
        GeodataFormat::L2g,
        GeodataFormat::Rp,
        GeodataFormat::PathTxt,
        GeodataFormat::L2m,
    ] {
        let path = format!("maps/inner/12_26{}", format.extension());
        assert_eq!(coordinates_from_name(&path), Ok((12, 26)));
    }
}
