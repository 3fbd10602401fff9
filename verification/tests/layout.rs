use ghostty_pane_splitter::layout::{parse_layout, Layout};

#[test]
fn parse_layout_valid_numeric() {
    let cases: &[(&str, &[u32])] = &[
        ("2", &[1, 1]),
        ("3", &[1, 1, 1]),
        ("4", &[2, 2]),
        ("5", &[1, 1, 1, 1, 1]), // prime => single row per column
        ("6", &[2, 2, 2]),
        ("9", &[3, 3, 3]),
    ];
    for (input, expected_columns) in cases {
        assert_eq!(
            parse_layout(input),
            Ok(Layout {
                columns: expected_columns.to_vec()
            }),
            "input: {}",
            input
        );
    }
}

#[test]
fn parse_layout_valid_grid() {
    let cases: &[(&str, &[u32])] = &[("2x3", &[3, 3]), ("3x2", &[2, 2, 2]), ("1x4", &[4])];
    for (input, expected_columns) in cases {
        assert_eq!(
            parse_layout(input),
            Ok(Layout {
                columns: expected_columns.to_vec()
            }),
            "input: {}",
            input
        );
    }
}

#[test]
fn parse_layout_valid_custom() {
    let cases: &[(&str, &[u32])] = &[("1,3", &[1, 3]), ("2,1,3", &[2, 1, 3]), ("1,1", &[1, 1])];
    for (input, expected_columns) in cases {
        assert_eq!(
            parse_layout(input),
            Ok(Layout {
                columns: expected_columns.to_vec()
            }),
            "input: {}",
            input
        );
    }
}

#[test]
fn parse_layout_invalid_cases() {
    let cases = [
        "abc", "0", "1", "0x3", "2x0", "1x1", "axb", ",3", "3,", "1,,3", "0,3", "1,0", "a,b",
    ];
    for input in cases {
        assert!(parse_layout(input).is_err(), "input: {}", input);
    }
}

#[test]
fn parse_layout_custom_single_column_too_few_panes() {
    // "1" via custom layout is not reachable (no comma), but total panes < 2 check
    // is tested via numeric "1" above. Here we ensure a single-pane custom layout fails.
    // Not possible with comma format since at least two parts are needed.
}

#[test]
fn parse_layout_grid_and_custom_equivalence() {
    // "2,2" (custom) and "2x2" (grid) should produce the same Layout
    let custom = parse_layout("2,2").unwrap();
    let grid = parse_layout("2x2").unwrap();
    assert_eq!(custom, grid);
}

#[test]
fn layout_num_cols() {
    let cases: &[(&[u32], usize)] = &[(&[1, 3], 2), (&[2, 1, 3], 3), (&[4], 1)];
    for (columns, expected) in cases {
        let layout = Layout {
            columns: columns.to_vec(),
        };
        assert_eq!(layout.num_cols(), *expected);
    }
}

#[test]
fn layout_total_panes() {
    let cases: &[(&[u32], u32)] = &[(&[1, 3], 4), (&[2, 1, 3], 6), (&[4], 4), (&[2, 2], 4)];
    for (columns, expected) in cases {
        let layout = Layout {
            columns: columns.to_vec(),
        };
        assert_eq!(layout.total_panes(), *expected);
    }
}
