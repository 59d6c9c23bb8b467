use uiua_core::terminal::{clear_line, clear_watching, clear_watching_with};

#[test]
fn clear_line_repeats_once_per_column() {
    assert_eq!(clear_line("-", "\n", Some((3, 40))), "\r---\n");
    assert_eq!(clear_line("ab", "", Some((2, 1))), "\rabab");
}

#[test]
fn clear_line_falls_back_to_ten_columns() {
    assert_eq!(clear_line(" ", "", None), "\r          ");
}

#[test]
fn clear_watching_draws_a_rule() {
    let line = clear_watching();
    assert!(line.starts_with('\r'));
    assert!(line.ends_with('\n'));
    let rule: Vec<char> = line.chars().skip(1).collect();
    assert!(rule[..rule.len() - 1].iter().all(|c| *c == '―'));
    assert_eq!(clear_watching_with("―", "\n"), line);
}
