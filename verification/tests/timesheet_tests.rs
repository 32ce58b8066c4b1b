use sts_rust::timesheet::{CellValue, TimeSheet};

#[test]
fn test_column_name() {
    assert_eq!(TimeSheet::column_name(0), "A");
    assert_eq!(TimeSheet::column_name(1), "B");
    assert_eq!(TimeSheet::column_name(25), "Z");
    assert_eq!(TimeSheet::column_name(26), "AA");
    assert_eq!(TimeSheet::column_name(27), "AB");
}

#[test]
fn test_page_and_frame() {
    let ts = TimeSheet::new("test".to_string(), 24, 12, 144);
    assert_eq!(ts.get_page_and_frame(0), (1, 1));
    assert_eq!(ts.get_page_and_frame(142), (1, 143));
    assert_eq!(ts.get_page_and_frame(143), (1, 144));
    assert_eq!(ts.get_page_and_frame(144), (2, 1));
}

#[test]
fn test_actual_value() {
    let mut ts = TimeSheet::new("test".to_string(), 24, 2, 144);
    ts.set_cell(0, 0, Some(CellValue::Number(1)));
    ts.set_cell(0, 1, Some(CellValue::Same));
    ts.set_cell(0, 2, Some(CellValue::Number(2)));
    ts.set_cell(0, 3, Some(CellValue::Same));
    assert_eq!(ts.get_actual_value(0, 0), Some(1));
    assert_eq!(ts.get_actual_value(0, 1), Some(1));
    assert_eq!(ts.get_actual_value(0, 2), Some(2));
    assert_eq!(ts.get_actual_value(0, 3), Some(2));
}

#[test]
fn column_names_past_two_letters() {
    assert_eq!(TimeSheet::column_name(51), "AZ");
    assert_eq!(TimeSheet::column_name(52), "BA");
    assert_eq!(TimeSheet::column_name(701), "ZZ");
    assert_eq!(TimeSheet::column_name(702), "AAA");
}

#[test]
fn column_names_are_distinct() {
    let mut seen = std::collections::HashSet::new();
    for i in 0..2000 {
        assert!(seen.insert(TimeSheet::column_name(i)));
    }
}

#[test]
fn new_sheet_names_layers_by_column() {
    let ts = TimeSheet::new("cut".to_string(), 30, 3, 120);
    assert_eq!(ts.name, "cut");
    assert_eq!(ts.framerate, 30);
    assert_eq!(ts.frames_per_page, 120);
    assert_eq!(ts.layer_count, 3);
    assert_eq!(ts.layer_names, vec!["A".to_string(), "B".to_string(), "C".to_string()]);
    assert_eq!(ts.total_frames(), 0);
    assert_eq!(ts.source_width, 640);
    assert_eq!(ts.source_height, 480);
}

#[test]
fn default_sheet() {
    let ts = TimeSheet::default();
    assert_eq!(ts.name, "sheet1");
    assert_eq!(ts.framerate, 24);
    assert_eq!(ts.frames_per_page, 144);
    assert_eq!(ts.layer_count, 12);
}

#[test]
fn set_cell_reads_back_and_grows_the_layer() {
    let mut ts = TimeSheet::new("t".to_string(), 24, 2, 144);
    ts.set_cell(1, 4, Some(CellValue::Number(7)));
    assert_eq!(ts.get_cell(1, 4), Some(&CellValue::Number(7)));
    assert_eq!(ts.get_cell(1, 3), None);
    assert_eq!(ts.cells[1].len(), 5);
    assert_eq!(ts.cells[0].len(), 0);
    ts.set_cell(5, 0, Some(CellValue::Number(1)));
    assert_eq!(ts.get_cell(5, 0), None);
    assert_eq!(ts.cells.len(), 2);
}

#[test]
fn actual_value_skips_to_the_nearest_number_above() {
    let mut ts = TimeSheet::new("t".to_string(), 24, 1, 144);
    ts.ensure_frames(4);
    ts.set_cell(0, 1, Some(CellValue::Number(3)));
    ts.set_cell(0, 3, Some(CellValue::Same));
    assert_eq!(ts.get_actual_value(0, 0), None);
    assert_eq!(ts.get_actual_value(0, 2), None);
    assert_eq!(ts.get_actual_value(0, 3), Some(3));
    let mut ts2 = TimeSheet::new("t".to_string(), 24, 1, 144);
    ts2.set_cell(0, 0, Some(CellValue::Same));
    assert_eq!(ts2.get_actual_value(0, 0), None);
}

#[test]
fn ensure_frames_pads_every_layer() {
    let mut ts = TimeSheet::new("t".to_string(), 24, 2, 144);
    ts.set_cell(0, 5, Some(CellValue::Number(1)));
    ts.ensure_frames(3);
    assert_eq!(ts.cells[0].len(), 6);
    assert_eq!(ts.cells[1].len(), 3);
    assert_eq!(ts.total_frames(), 6);
}

#[test]
fn insert_and_delete_layer() {
    let mut ts = TimeSheet::new("t".to_string(), 24, 2, 144);
    ts.ensure_frames(2);
    ts.set_cell(1, 0, Some(CellValue::Number(9)));
    ts.insert_layer(1);
    assert_eq!(ts.layer_count, 3);
    assert_eq!(ts.layer_names[1], "B");
    assert_eq!(ts.cells[1], vec![None, None]);
    assert_eq!(ts.get_cell(2, 0), Some(&CellValue::Number(9)));
    let removed = ts.delete_layer(1);
    assert_eq!(removed, Some(("B".to_string(), vec![None, None])));
    assert_eq!(ts.layer_count, 2);
    assert_eq!(ts.get_cell(1, 0), Some(&CellValue::Number(9)));
    assert_eq!(ts.delete_layer(7), None);
    ts.insert_layer(9);
    assert_eq!(ts.layer_count, 2);
}

#[test]
fn page_and_frame_inverse_example() {
    let ts = TimeSheet::new("t".to_string(), 24, 1, 96);
    let (page, frame) = ts.get_page_and_frame(300);
    assert_eq!((page, frame), (4, 13));
    assert_eq!((page as usize - 1) * 96 + (frame as usize - 1), 300);
}
