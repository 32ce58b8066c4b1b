use sts_rust::formats::ae_keyframe::{parse_ae_keyframe_file, write_ae_keyframe_file};
use sts_rust::formats::csv::{csv_records_to_timesheet, decode_with_fallback, parse_csv_bytes, parse_csv_text, CsvError};
use sts_rust::formats::keyframes::{fill_keyframes, sort_by_frame};
use sts_rust::formats::sts::{encode_sts, parse_sts_bytes, StsError};
use sts_rust::formats::sxf::{groups_to_csv_text, groups_to_timesheet, layer_from_name, parse_sxf_groups_bytes, read_u16_be, LayerData, LayerGroup, SxfError};
use sts_rust::formats::sxf_text::{parse_sxf_bytes, parse_sxf_content, parse_sxf_text, SxfTextError};
use sts_rust::formats::tdts::{tdts_to_timesheets, TdtsData, TdtsField, TdtsFrame, TdtsHeader, TdtsRoot, TdtsTimeSheet, TdtsTimeTable, TdtsTimeTableHeader, TdtsTrack};
use sts_rust::timesheet::{CellValue, TimeSheet};

fn n(v: u32) -> Option<CellValue> {
    Some(CellValue::Number(v))
}

#[test]
fn sts_write_then_read_keeps_cells_and_names() {
    let mut ts = TimeSheet::new("cut".to_string(), 24, 2, 144);
    ts.ensure_frames(3);
    ts.set_cell(0, 0, n(1));
    ts.set_cell(0, 1, Some(CellValue::Same));
    ts.set_cell(1, 2, n(300));
    let bytes = encode_sts(&ts).unwrap();
    let back = parse_sts_bytes(&bytes, "back".to_string()).unwrap();
    assert_eq!(back.layer_count, 2);
    assert_eq!(back.total_frames(), 3);
    assert_eq!(back.layer_names, vec!["A".to_string(), "B".to_string()]);
    assert_eq!(back.get_cell(0, 0), Some(&CellValue::Number(1)));
    assert_eq!(back.get_cell(0, 1), Some(&CellValue::Number(1)));
    assert_eq!(back.get_cell(0, 2), None);
    assert_eq!(back.get_cell(1, 2), Some(&CellValue::Number(300)));
    assert_eq!(back.name, "back");
}

#[test]
fn sts_header_errors() {
    assert_eq!(parse_sts_bytes(&[0u8; 5], "x".to_string()).err(), Some(StsError::TooSmall));
    let mut bytes = vec![0u8; 30];
    assert_eq!(parse_sts_bytes(&bytes, "x".to_string()).err(), Some(StsError::InvalidSignature));
    bytes[0] = 0x11;
    bytes[1..18].copy_from_slice(b"NotAShiraheiSheet");
    assert_eq!(parse_sts_bytes(&bytes, "x".to_string()).err(), Some(StsError::NotShiraheiTimeSheet));
    bytes[1..18].copy_from_slice(b"ShiraheiTimeSheet");
    assert_eq!(parse_sts_bytes(&bytes, "x".to_string()).err(), Some(StsError::EmptyLayersOrFrames));
    bytes[18] = 1;
    bytes[19] = 100;
    assert_eq!(parse_sts_bytes(&bytes, "x".to_string()).err(), Some(StsError::IncompleteFrameData));
    bytes[1] = 0xff;
    assert_eq!(parse_sts_bytes(&bytes, "x".to_string()).err(), Some(StsError::InvalidHeaderString));
}

#[test]
fn csv_holds_values_and_marks_empties() {
    let text = "H,X,Y\nFrame,L1,L2\n1,1,2\n2,,\u{d7}\n3,3,\n";
    let ts = parse_csv_text(text, "sheet.csv").unwrap();
    assert_eq!(ts.name, "sheet.csv");
    assert_eq!(ts.layer_count, 2);
    assert_eq!(ts.layer_names, vec!["L1".to_string(), "L2".to_string()]);
    assert_eq!(ts.get_cell(0, 0), Some(&CellValue::Number(1)));
    assert_eq!(ts.get_cell(0, 1), Some(&CellValue::Number(1)));
    assert_eq!(ts.get_cell(0, 2), Some(&CellValue::Number(3)));
    assert_eq!(ts.get_cell(1, 0), Some(&CellValue::Number(2)));
    assert_eq!(ts.get_cell(1, 1), None);
    assert_eq!(ts.get_cell(1, 2), None);
}

#[test]
fn csv_errors() {
    assert_eq!(parse_csv_text("H\nFrame\n", "a").err(), Some(CsvError::TooFewRows));
    assert_eq!(parse_csv_text("H\nFrame\n1\n", "a").err(), Some(CsvError::NoLayers));
    assert_eq!(parse_csv_text("H,A\nF,a\n1,2,3\n", "a").err(), Some(CsvError::Malformed));
}

#[test]
fn csv_bytes_in_gbk() {
    let mut bytes = b"H,X\nFrame,".to_vec();
    bytes.extend_from_slice(&[0xb6, 0xaf]);
    bytes.extend_from_slice(b"\n1,5\n");
    let ts = parse_csv_bytes(&bytes, "g.csv").unwrap();
    assert_eq!(ts.layer_names, vec!["\u{52a8}".to_string()]);
    assert_eq!(ts.get_cell(0, 0), Some(&CellValue::Number(5)));
}

#[test]
fn decoding_falls_back_between_encodings() {
    assert_eq!(decode_with_fallback("abc".as_bytes()), "abc");
    assert_eq!(decode_with_fallback(&[0xb6, 0xaf]), "\u{52a8}");
}

#[test]
fn keyframes_hold_until_the_next() {
    let mut ts = TimeSheet::new("k".to_string(), 24, 1, 144);
    ts.ensure_frames(5);
    fill_keyframes(&mut ts, 0, &[(0, n(1)), (2, None), (3, n(4))], 5);
    let col: Vec<Option<CellValue>> = (0..5).map(|f| ts.get_cell(0, f).copied()).collect();
    assert_eq!(col, vec![n(1), n(1), None, n(4), n(4)]);
}

#[test]
fn keyframes_sort_by_frame_keeps_equal_frames_in_order() {
    let mut kfs = vec![(3, n(1)), (1, n(2)), (3, n(3)), (0, None)];
    sort_by_frame(&mut kfs);
    assert_eq!(kfs, vec![(0, None), (1, n(2)), (3, n(1)), (3, n(3))]);
}

#[test]
fn sxf_binary_header_errors() {
    assert_eq!(parse_sxf_groups_bytes(&[0u8; 10]).err(), Some(SxfError::FileTooSmall(10)));
    assert_eq!(parse_sxf_groups_bytes(&[0u8; 24]).err(), Some(SxfError::InvalidMagic));
    let mut bytes = b"WBSC".to_vec();
    bytes.extend_from_slice(&[0u8; 20]);
    assert_eq!(parse_sxf_groups_bytes(&bytes).err(), Some(SxfError::NoLayerGroups));
}

#[test]
fn sxf_reading_two_bytes() {
    assert_eq!(read_u16_be(&[0x01, 0x02, 0x03], 1), Ok(0x0203));
    assert_eq!(read_u16_be(&[0x01, 0x02], 1), Err(SxfError::OffsetOutOfRange { offset: 1, len: 2 }));
}

fn group(name: &str, layers: Vec<(&str, Vec<&str>)>) -> LayerGroup {
    LayerGroup {
        name: name.to_string(),
        layers: layers
            .into_iter()
            .map(|(n, fs)| LayerData { name: n.to_string(), frames: fs.into_iter().map(|s| s.to_string()).collect() })
            .collect(),
    }
}

#[test]
fn sxf_groups_become_one_sheet() {
    let groups = vec![group("G", vec![("A", vec!["1", "", "2"])]), group("D", vec![("B", vec!["3", "x", ""])])];
    let ts = groups_to_timesheet(&groups, "f.sxf").unwrap();
    assert_eq!(ts.layer_count, 2);
    assert_eq!(ts.layer_names, vec!["G_A".to_string(), "D_B".to_string()]);
    assert_eq!(ts.frames_per_page, 3);
    assert_eq!(ts.get_cell(0, 0), Some(&CellValue::Number(1)));
    assert_eq!(ts.get_cell(0, 1), None);
    assert_eq!(ts.get_cell(1, 1), None);
    assert_eq!(groups_to_timesheet(&[], "f").err(), Some(SxfError::NoGroups));
}

#[test]
fn sxf_groups_as_csv_text() {
    let groups = vec![group("G", vec![("A", vec!["1", "2"])])];
    let text = groups_to_csv_text(&groups);
    assert!(text.contains("A"));
    assert!(text.contains("1"));
}

#[test]
fn sxf_line_layout() {
    let mut bytes = b"xA~~~~~~\n#".to_vec();
    bytes.extend_from_slice(b"1");
    bytes.extend_from_slice(&[1u8; 9]);
    bytes.extend_from_slice(b"2");
    bytes.extend_from_slice(&[1u8; 9]);
    bytes.extend_from_slice(b"\n");
    let ts = parse_sxf_text(&bytes, "t.sxf").unwrap();
    assert_eq!(ts.layer_count, 1);
    assert_eq!(ts.layer_names, vec!["xA".to_string()]);
    assert_eq!(ts.total_frames(), 2);
    assert_eq!(ts.get_cell(0, 0), Some(&CellValue::Number(1)));
    assert_eq!(ts.get_cell(0, 1), Some(&CellValue::Number(2)));
    let same = parse_sxf_bytes(&bytes, "t.sxf").unwrap();
    assert_eq!(same.layer_names, ts.layer_names);
}

#[test]
fn sxf_line_layout_without_data() {
    assert_eq!(parse_sxf_text(b"hello\n", "t").err(), Some(SxfTextError::NoData { lines: 1, cells: 0, frames: 0 }));
}

#[test]
fn tdts_table_becomes_a_sheet() {
    let frame = |f: i32, v: &str| TdtsFrame { frame: f, data: vec![TdtsData { values: vec![v.to_string()] }] };
    let root = TdtsRoot {
        time_sheets: vec![TdtsTimeSheet {
            header: TdtsHeader { cut: "c1".to_string() },
            time_tables: vec![TdtsTimeTable {
                name: "t1".to_string(),
                duration: 4,
                fields: vec![TdtsField {
                    field_id: 4,
                    tracks: vec![TdtsTrack { track_no: 0, frames: vec![frame(0, "1"), frame(2, "SYMBOL_NULL_CELL"), frame(-1, "5")] }],
                }],
                time_table_headers: vec![TdtsTimeTableHeader { field_id: 4, names: vec!["A".to_string(), "B".to_string()] }],
            }],
        }],
    };
    let result = tdts_to_timesheets(&root, "f.tdts").unwrap();
    assert_eq!(result.timesheets.len(), 1);
    let ts = &result.timesheets[0];
    assert_eq!(ts.name, "f.tdts->c1->t1");
    assert_eq!(ts.layer_count, 2);
    assert_eq!(ts.get_cell(0, 0), Some(&CellValue::Number(1)));
    assert_eq!(ts.get_cell(0, 1), Some(&CellValue::Number(1)));
    assert_eq!(ts.get_cell(0, 2), None);
    assert_eq!(result.warnings.len(), 1);
}

#[test]
fn ae_keyframe_files_are_not_supported() {
    let ts = TimeSheet::new("a".to_string(), 24, 1, 144);
    assert!(parse_ae_keyframe_file("x").is_err());
    assert!(write_ae_keyframe_file(&ts, "x").is_err());
}

#[test]
fn sts_limits_come_before_layer_names() {
    let mut ts = TimeSheet::new("big".to_string(), 24, 256, 144);
    ts.ensure_frames(2);
    ts.layer_names.clear();
    assert_eq!(encode_sts(&ts).err(), Some(StsError::TooManyLayers(256)));
}

#[test]
fn csv_records_build_a_sheet() {
    let records = vec![
        vec!["".to_string(), "A".to_string(), "B".to_string()],
        vec!["1".to_string(), "3".to_string(), "".to_string()],
        vec!["2".to_string(), "".to_string(), "\u{00D7}".to_string()],
    ];
    let ts = csv_records_to_timesheet(&records, "r.csv").unwrap();
    assert_eq!(ts.layer_names, vec!["A".to_string(), "B".to_string()]);
    assert_eq!(ts.get_cell(0, 0), Some(&CellValue::Number(3)));
    assert_eq!(ts.get_cell(0, 1), Some(&CellValue::Number(3)));
    assert_eq!(ts.get_cell(1, 1), None);
    let too_few = vec![vec!["".to_string(), "A".to_string()]];
    assert_eq!(csv_records_to_timesheet(&too_few, "r.csv").err(), Some(CsvError::TooFewRows));
}

#[test]
fn sxf_line_layout_from_decoded_text() {
    let ts = parse_sxf_content("xA~~~~~~\n#1#########2#########\n", "t.sxf").unwrap();
    assert_eq!(ts.layer_names, vec!["xA".to_string()]);
    assert_eq!(ts.get_cell(0, 0), Some(&CellValue::Number(1)));
    assert_eq!(ts.get_cell(0, 1), Some(&CellValue::Number(2)));
    assert_eq!(parse_sxf_content("hello\n", "t").err(), Some(SxfTextError::NoData { lines: 1, cells: 0, frames: 0 }));
}

#[test]
fn sxf_layer_from_its_decoded_name() {
    let mut data = vec![0u8; 4];
    let mut slot = vec![0u8; 40];
    slot[0] = 0x00;
    slot[1] = 0x01;
    slot[2] = b'3';
    data.extend_from_slice(&slot);
    data.extend_from_slice(&[0u8; 40]);
    let layer = layer_from_name(&data, "  A1 ", 4, 3).unwrap();
    assert_eq!(layer.name, "A1");
    assert_eq!(layer.frames, vec!["3".to_string(), "3".to_string(), "3".to_string()]);
    assert_eq!(layer_from_name(&data, "   ", 4, 3).err(), Some(SxfError::EmptyLayerName));
    assert_eq!(layer_from_name(&data, "A", 100, 3).err(), Some(SxfError::FrameDataBeyondSection));
}
