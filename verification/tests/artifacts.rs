use derive_analysis::parser::RustParser;
use derive_analysis::persistence::ResultsPersistence;
use derive_analysis::text::parse_u64_str;
use derive_analysis::text::str_eq;
use derive_analysis::text::u64_to_string;

#[test]
fn csv_rows_have_header_and_joined_derives() {
    let parser = RustParser::new();
    let derives = parser.extract_derives_text_only(
        "#[derive(Clone, Copy)]\nstruct S;",
        "owner/repo",
        "src/lib.rs",
    );
    let rows = ResultsPersistence::csv_records(&derives);
    assert_eq!(rows.len(), 2);
    assert_eq!(
        rows[0],
        vec!["repository", "file_path", "line_number", "derives", "full_line"]
    );
    assert_eq!(
        rows[1],
        vec!["owner/repo", "src/lib.rs", "1", "Clone, Copy", "#[derive(Clone, Copy)]"]
    );
}

#[test]
fn summary_on_empty_set() {
    let summary = ResultsPersistence::build_summary(&Vec::new());
    assert_eq!(summary.total_derive_statements, 0);
    assert_eq!(summary.total_repositories, 0);
    assert_eq!(summary.total_unique_derives, 0);
    assert!(summary.most_common_derives.is_empty());
    assert!(summary.repositories_by_derive_count.is_empty());
}

#[test]
fn summary_tables_cut_at_twenty() {
    let parser = RustParser::new();
    let mut content = String::new();
    // 25 distinct identifiers, with d0 occurring twice
    content.push_str("#[derive(d0, d0)]\nstruct A;\n");
    for i in 1..25 {
        content.push_str(&format!("#[derive(d{})]\nstruct S{};\n", i, i));
    }
    let derives = parser.extract_derives_text_only(&content, "o/r", "f.rs");
    assert_eq!(derives.len(), 25);
    let summary = ResultsPersistence::build_summary(&derives);
    assert_eq!(summary.total_unique_derives, 25);
    assert_eq!(summary.most_common_derives.len(), 20);
    assert_eq!(summary.most_common_derives[0].name, "d0");
    assert_eq!(summary.most_common_derives[0].count, 2);
    for w in summary.most_common_derives.windows(2) {
        assert!(w[0].count >= w[1].count);
    }
}

#[test]
fn decimal_text_round_trip() {
    assert_eq!(u64_to_string(0), "0");
    assert_eq!(u64_to_string(7), "7");
    assert_eq!(u64_to_string(1234567890), "1234567890");
    assert_eq!(u64_to_string(u64::MAX), "18446744073709551615");
    assert_eq!(parse_u64_str("0"), Some(0));
    assert_eq!(parse_u64_str("+41"), Some(41));
    assert_eq!(parse_u64_str("18446744073709551615"), Some(u64::MAX));
    assert_eq!(parse_u64_str("18446744073709551616"), None);
    assert_eq!(parse_u64_str(""), None);
    assert_eq!(parse_u64_str("+"), None);
    assert_eq!(parse_u64_str("12x"), None);
    assert_eq!(parse_u64_str("-3"), None);
}

#[test]
fn string_equality_by_characters() {
    assert!(str_eq("abc", "abc"));
    assert!(!str_eq("abc", "abd"));
    assert!(!str_eq("abc", "ab"));
    assert!(str_eq("", ""));
}
