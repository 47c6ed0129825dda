use renoir::utils::{create_banner, Table};

#[test]
fn test_banner_simple() {
    let banner = create_banner("TEST", &[]);
    assert!(banner.contains("TEST"));
    assert!(banner.contains("╔"));
    assert!(banner.contains("╚"));
}

#[test]
fn test_banner_with_content() {
    let banner = create_banner("SUMMARY", &["Line 1", "Line 2"]);
    assert!(banner.contains("SUMMARY"));
    assert!(banner.contains("Line 1"));
    assert!(banner.contains("Line 2"));
    assert!(banner.contains("╠")); // Separator should be present
}

#[test]
fn test_table_formatting() {
    let table = Table::new(&[("A", 5), ("B", 5)]);
    let header = table.format_header();
    assert!(header.contains("┌"));
    assert!(header.contains("A"));
    assert!(header.contains("B"));

    let row = table.format_row(&["1", "2"]);
    assert!(row.contains("1"));
    assert!(row.contains("2"));

    let footer = table.format_footer();
    assert!(footer.contains("└"));
}

#[test]
fn test_table_separator() {
    let table = Table::new(&[("X", 5), ("Y", 5)]);
    let sep = table.format_separator();
    assert!(sep.contains("├"));
    assert!(sep.contains("┼"));
    assert!(sep.contains("┤"));
}

fn rule(left: &str, fill: usize, right: &str) -> String {
    format!("{}{}{}\n", left, "═".repeat(fill), right)
}

#[test]
fn banner_exact_text_without_lines() {
    let banner = create_banner("TEST", &[]);
    let expected = format!(
        "\n{}║{}TEST{}║\n{}",
        rule("╔", 62, "╗"),
        " ".repeat(29),
        " ".repeat(29),
        rule("╚", 62, "╝")
    );
    assert_eq!(banner, expected);
}

#[test]
fn banner_exact_text_with_lines() {
    let banner = create_banner("SUM", &["a", "bc"]);
    let expected = format!(
        "\n{}║{}SUM{}║\n{}║  a{}║\n║  bc{}║\n{}",
        rule("╔", 62, "╗"),
        " ".repeat(29),
        " ".repeat(30),
        rule("╠", 62, "╣"),
        " ".repeat(59),
        " ".repeat(58),
        rule("╚", 62, "╝")
    );
    assert_eq!(banner, expected);
}

#[test]
fn banner_widens_for_long_line() {
    let long = "x".repeat(70);
    let banner = create_banner("T", &[long.as_str()]);
    // 70 + 4 = 74 outer width, 72 inner.
    let lines: Vec<&str> = banner.split('\n').collect();
    assert_eq!(lines[0], "");
    for row in &lines[1..lines.len() - 1] {
        assert_eq!(row.chars().count(), 74, "row {:?}", row);
    }
    assert_eq!(lines[lines.len() - 1], "");
}

#[test]
fn banner_widens_for_long_title() {
    let title = "y".repeat(100);
    let banner = create_banner(&title, &[]);
    let rows: Vec<&str> = banner.split('\n').filter(|r| !r.is_empty()).collect();
    assert_eq!(rows.len(), 3);
    for row in rows {
        assert_eq!(row.chars().count(), 104);
    }
}

#[test]
fn banner_rows_aligned_for_ascii() {
    let banner = create_banner("Report", &["Total: 10", "Average: 5.5", ""]);
    let rows: Vec<&str> = banner.split('\n').filter(|r| !r.is_empty()).collect();
    assert_eq!(rows.len(), 7);
    for row in rows {
        assert_eq!(row.chars().count(), 64);
    }
}

#[test]
fn banner_non_ascii_measured_in_bytes() {
    // "é" is two bytes: the title row is one character narrower.
    let banner = create_banner("é", &[]);
    let rows: Vec<&str> = banner.split('\n').filter(|r| !r.is_empty()).collect();
    assert_eq!(rows[0].chars().count(), 64);
    assert_eq!(rows[1].chars().count(), 63);
}

#[test]
fn table_exact_header_row_and_footer() {
    let table = Table::new(&[("A", 5), ("Name", 0)]);
    assert_eq!(
        table.format_header(),
        "┌─────┬──────┐\n│  A  │ Name │\n├─────┼──────┤\n"
    );
    assert_eq!(table.format_row(&["1", "xy"]), "│  1  │  xy  │\n");
    assert_eq!(table.format_row(&["1"]), "│  1  │      │\n");
    assert_eq!(table.format_row_no_newline(&["toolong", "z"]), "│toolong│  z   │");
    assert_eq!(table.format_separator(), "├─────┼──────┤\n");
    assert_eq!(table.format_footer(), "└─────┴──────┘\n");
}

#[test]
fn table_rows_as_wide_as_borders() {
    let table = Table::new(&[("ID", 6), ("Name", 20), ("Score", 10)]);
    let width = table.format_separator().trim_end().chars().count();
    assert_eq!(table.format_row(&["7", "Ada", "99"]).trim_end().chars().count(), width);
    assert_eq!(table.format_footer().trim_end().chars().count(), width);
    for line in table.format_header().lines() {
        assert_eq!(line.chars().count(), width);
    }
}

#[test]
fn table_empty_columns() {
    let table = Table::new(&[]);
    assert_eq!(table.format_header(), "┌┐\n││\n├┤\n");
    assert_eq!(table.format_footer(), "└┘\n");
}

#[test]
fn table_add_row_and_finish() {
    let mut table = Table::new(&[("K", 3), ("V", 3)]);
    let first = table.add_row(&["a", "1"]);
    assert_eq!(
        first,
        format!("{}{}", table.format_header(), table.format_row(&["a", "1"]))
    );
    let second = table.add_row(&["b", "2"]);
    assert_eq!(
        second,
        format!("{}{}", table.format_separator(), table.format_row(&["b", "2"]))
    );
    let footer = table.finish();
    assert_eq!(footer, table.format_footer());
    assert_eq!(table.finish(), "");
}

#[test]
fn table_finish_without_rows_is_silent() {
    let mut table = Table::new(&[("K", 3)]);
    assert_eq!(table.finish(), "");
}

#[test]
fn table_incremental_rows() {
    let mut table = Table::new(&[("Name", 6), ("Value", 5)]);
    let start = table.start_row();
    assert_eq!(
        start,
        format!("{}\r│      │     │", table.format_header())
    );
    assert_eq!(table.set_cell(0, "foo"), "\r│ foo  │     │");
    assert_eq!(table.set_cell(1, "42"), "\r│ foo  │ 42  │");
    assert_eq!(table.set_cell(5, "ignored"), "");
    assert_eq!(table.flush_row(), "\n");
    assert_eq!(table.flush_row(), "");
    let next = table.start_row();
    assert_eq!(next, format!("{}\r│      │     │", table.format_separator()));
    assert_eq!(table.set_cell(0, "bar"), "\r│ bar  │     │");
    assert_eq!(table.flush_row(), "\n");
    // Outside a row, setting a cell starts one.
    assert_eq!(
        table.set_cell(1, "7"),
        format!("{}\r│      │  7  │", table.format_separator())
    );
    assert_eq!(table.flush_row(), "\n");
    assert_eq!(table.finish(), table.format_footer());
}

#[test]
fn table_cells_set_without_start_row_make_a_row() {
    let mut table = Table::new(&[("Name", 10), ("Value", 8)]);
    let mut out = String::new();
    out.push_str(&table.set_cell(0, "foo"));
    out.push_str(&table.set_cell(1, "42"));
    out.push_str(&table.flush_row());
    out.push_str(&table.start_row());
    out.push_str(&table.set_cell(0, "bar"));
    out.push_str(&table.set_cell(1, "123"));
    out.push_str(&table.flush_row());
    out.push_str(&table.finish());
    let expected = format!(
        "{}\r│   foo    │        │\r│   foo    │   42   │\n{}\r│          │        │\r│   bar    │        │\r│   bar    │  123   │\n{}",
        table.format_header(),
        table.format_separator(),
        table.format_footer()
    );
    assert_eq!(out, expected);
}

#[test]
fn table_counts_completed_rows() {
    let mut table = Table::new(&[("Name", 10), ("Value", 8)]);
    assert_eq!(table.current_row(), 0);
    let _ = table.set_cell(0, "foo");
    let _ = table.set_cell(1, "42");
    assert_eq!(table.current_row(), 0);
    let _ = table.flush_row();
    assert_eq!(table.current_row(), 1);
    let _ = table.add_row(&["bar", "123"]);
    assert_eq!(table.current_row(), 2);
    let _ = table.flush_row();
    assert_eq!(table.current_row(), 2);
}
