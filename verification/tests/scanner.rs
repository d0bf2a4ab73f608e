use python2ipynb::scan::{scan, CellType};

fn lines(v: &[&str]) -> Vec<String> {
    v.iter().map(|s| s.to_string()).collect()
}

#[test]
fn round_trip_three_cells() {
    let input = "#%%code\nprint(1)\n#%%markdown\n# hello\n#%%code\nprint(2)\n";
    let ls: Vec<String> = input.lines().map(|s| s.to_string()).collect();
    let cells = scan(&ls);
    assert_eq!(cells.len(), 3);
    assert_eq!(cells[0].cell_type, CellType::Code);
    assert_eq!(cells[0].source, "print(1)");
    assert_eq!(cells[1].cell_type, CellType::Markdown);
    assert_eq!(cells[1].source, "hello");
    assert_eq!(cells[2].cell_type, CellType::Code);
    assert_eq!(cells[2].source, "print(2)");
}

#[test]
fn empty_input_yields_no_cells() {
    let cells = scan(&Vec::new());
    assert!(cells.is_empty());
}

#[test]
fn code_cell_preserves_hash_lines() {
    let cells = scan(&lines(&["#%%code", "# comment", "x = 1"]));
    assert_eq!(cells.len(), 1);
    assert_eq!(cells[0].cell_type, CellType::Code);
    assert_eq!(cells[0].source, "# comment\nx = 1");
}

#[test]
fn prose_cell_strips_comment_prefix() {
    let cells = scan(&lines(&["#%%markdown", "# hello", "plain", "#  double"]));
    assert_eq!(cells.len(), 1);
    assert_eq!(cells[0].cell_type, CellType::Markdown);
    assert_eq!(cells[0].source, "hello\nplain\n double");
}

#[test]
fn raw_cell_strips_comment_prefix() {
    let cells = scan(&lines(&["#%%raw", "# kept as text"]));
    assert_eq!(cells.len(), 1);
    assert_eq!(cells[0].cell_type, CellType::Raw);
    assert_eq!(cells[0].source, "kept as text");
}

#[test]
fn unknown_label_discards_its_span() {
    let cells = scan(&lines(&["#%%mystery", "gone", "also gone", "#%%code", "kept"]));
    assert_eq!(cells.len(), 1);
    assert_eq!(cells[0].cell_type, CellType::Code);
    assert_eq!(cells[0].source, "kept");
}

#[test]
fn cell_count_matches_recognized_delimiters() {
    let cells = scan(&lines(&[
        "#%%code", "a", "#%%markdown", "b", "#%%nope", "c", "#%%raw", "d",
    ]));
    assert_eq!(cells.len(), 3);
}

#[test]
fn trailing_open_cell_is_flushed() {
    let cells = scan(&lines(&["#%%code", "print(1)"]));
    assert_eq!(cells.len(), 1);
    assert_eq!(cells[0].source, "print(1)");
}

#[test]
fn delimiter_label_is_trimmed() {
    let cells = scan(&lines(&["#%%   code  ", "x"]));
    assert_eq!(cells.len(), 1);
    assert_eq!(cells[0].cell_type, CellType::Code);
}

#[test]
fn leading_and_trailing_blank_lines_are_trimmed() {
    let cells = scan(&lines(&["#%%code", "", "x", "", "#%%code", "y"]));
    assert_eq!(cells.len(), 2);
    assert_eq!(cells[0].source, "x");
    assert_eq!(cells[1].source, "y");
}

#[test]
fn interior_blank_lines_are_kept() {
    let cells = scan(&lines(&["#%%code", "a", "", "b"]));
    assert_eq!(cells.len(), 1);
    assert_eq!(cells[0].source, "a\n\nb");
}

#[test]
fn lines_before_first_delimiter_are_discarded() {
    let cells = scan(&lines(&["orphan", "#%%code", "x"]));
    assert_eq!(cells.len(), 1);
    assert_eq!(cells[0].source, "x");
}

#[test]
fn delimiter_without_label_is_unrecognized() {
    let cells = scan(&lines(&["#%%", "gone", "#%%code", "x"]));
    assert_eq!(cells.len(), 1);
    assert_eq!(cells[0].source, "x");
}
