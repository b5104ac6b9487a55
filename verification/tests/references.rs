use zk_lsp::handlers::references::{find_id_at_col, id_at_position};

#[test]
fn finds_at_angle_and_quoted_ids_under_the_column() {
    let line = "see @1234567890 and <2345678901> or \"3456789012\"";
    assert_eq!(find_id_at_col(line, 4).as_deref(), Some("1234567890"));
    assert_eq!(find_id_at_col(line, 15).as_deref(), Some("1234567890"));
    assert_eq!(find_id_at_col(line, 3), None);
    assert_eq!(find_id_at_col(line, 22).as_deref(), Some("2345678901"));
    assert_eq!(find_id_at_col(line, 40).as_deref(), Some("3456789012"));
}

#[test]
fn unclosed_or_short_ids_are_not_found() {
    assert_eq!(find_id_at_col("<1234567890", 3), None);
    assert_eq!(find_id_at_col("@123456789", 2), None);
    assert_eq!(find_id_at_col("\"1234567890'", 2), None);
}

#[test]
fn id_at_position_reads_the_cursor_line() {
    let content = "first\nlink @1234567890 here\n";
    assert_eq!(id_at_position(content, 1, 6).as_deref(), Some("1234567890"));
    assert_eq!(id_at_position(content, 0, 2), None);
    assert_eq!(id_at_position(content, 5, 0), None);
}
