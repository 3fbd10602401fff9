use ghostty_pane_splitter::layout::{parse_layout, Layout};

fn cols(input: &str) -> Vec<u32> {
    parse_layout(input).unwrap().columns
}

#[test]
fn numeric_is_near_square() {
    assert_eq!(cols("7"), vec![1; 7]);
    assert_eq!(cols("10"), vec![2, 2, 2, 2, 2]);
    assert_eq!(cols("12"), vec![3, 3, 3, 3]);
    assert_eq!(cols("16"), vec![4, 4, 4, 4]);
    assert_eq!(cols("8"), vec![2, 2, 2, 2]);
}

#[test]
fn numeric_accepts_what_u32_parsing_accepts() {
    assert_eq!(cols("+4"), vec![2, 2]);
    assert_eq!(cols("004"), vec![2, 2]);
    assert_eq!(
        parse_layout("-4"),
        Err("Invalid argument: '-4'. Expected a number or grid spec (e.g. 4, 2x3)".to_string())
    );
    assert_eq!(
        parse_layout(""),
        Err("Invalid argument: ''. Expected a number or grid spec (e.g. 4, 2x3)".to_string())
    );
    assert_eq!(
        parse_layout("4294967296"),
        Err("Invalid argument: '4294967296'. Expected a number or grid spec (e.g. 4, 2x3)"
            .to_string())
    );
    assert_eq!(
        parse_layout("+"),
        Err("Invalid argument: '+'. Expected a number or grid spec (e.g. 4, 2x3)".to_string())
    );
    assert_eq!(parse_layout("1"), Err("Number of panes must be >= 2".to_string()));
    assert_eq!(parse_layout("0"), Err("Number of panes must be >= 2".to_string()));
}

#[test]
fn grid_errors() {
    assert_eq!(parse_layout("1x1"), Err("Total panes must be >= 2".to_string()));
    assert_eq!(
        parse_layout("0x3"),
        Err("Grid dimensions must be >= 1, got: '0x3'".to_string())
    );
    assert_eq!(parse_layout("2x3x4"), Err("Invalid grid format: '2x3x4'".to_string()));
    assert_eq!(parse_layout("x3"), Err("Invalid grid format: 'x3'".to_string()));
    assert_eq!(
        parse_layout("65536x65536"),
        Err("Total panes must be <= 4294967295".to_string())
    );
    assert_eq!(cols("+2x3"), vec![3, 3]);
}

#[test]
fn custom_errors_follow_the_first_bad_column() {
    assert_eq!(
        parse_layout("0,a"),
        Err("Each column must have >= 1 row, got 0 in: '0,a'".to_string())
    );
    assert_eq!(parse_layout("a,0"), Err("Invalid custom layout: 'a,0'".to_string()));
    assert_eq!(parse_layout("1,"), Err("Invalid custom layout: '1,'".to_string()));
    assert_eq!(
        parse_layout("1,4294967295"),
        Err("Total panes must be <= 4294967295".to_string())
    );
    assert_eq!(parse_layout("3,1x"), Err("Invalid custom layout: '3,1x'".to_string()));
}

#[test]
fn custom_comma_wins_over_x() {
    assert_eq!(parse_layout("2,2x3"), Err("Invalid custom layout: '2,2x3'".to_string()));
}

#[test]
fn uniform_layouts() {
    assert!(Layout { columns: vec![3, 3] }.is_uniform());
    assert!(!Layout { columns: vec![1, 3] }.is_uniform());
    assert!(Layout { columns: vec![] }.is_uniform());
    assert!(parse_layout("9").unwrap().is_uniform());
}

#[test]
fn grid_custom_equivalence_on_larger_grid() {
    assert_eq!(parse_layout("3x4"), parse_layout("4,4,4"));
    assert_eq!(parse_layout("2x1"), parse_layout("1,1"));
}

#[test]
fn totals_and_columns() {
    let l = parse_layout("2,1,3").unwrap();
    assert_eq!(l.num_cols(), 3);
    assert_eq!(l.total_panes(), 6);
}
