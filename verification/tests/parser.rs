use derive_analysis::parser::RustParser;

#[test]
fn test_parse_simple_derive() {
    let parser = RustParser::new();
    let content = r#"
#[derive(Clone, Copy)]
struct MyStruct;
"#;
    let derives = parser.extract_derives(content, "test/repo", "src/lib.rs");
    assert_eq!(derives.len(), 1);
    assert_eq!(derives[0].derives, vec!["Clone", "Copy"]);
}

#[test]
fn test_parse_complex_derive() {
    let parser = RustParser::new();
    let content = r#"
#[derive(Debug, Clone, serde::Serialize, serde::Deserialize)]
pub struct ComplexStruct {
    field: String,
}
"#;
    let derives = parser.extract_derives(content, "test/repo", "src/lib.rs");
    assert_eq!(derives.len(), 1);
    assert!(derives[0].derives.contains(&"Debug".to_string()));
    assert!(derives[0].derives.contains(&"Clone".to_string()));
}

#[test]
fn structured_tier_single_line() {
    let parser = RustParser::new();
    let content = "#[derive(Clone, Copy)]\nstruct S;";
    let derives = parser.extract_derives(content, "r", "f.rs");
    assert_eq!(derives.len(), 1);
    assert_eq!(derives[0].derives, vec!["Clone", "Copy"]);
    assert_eq!(derives[0].line_number, 1);
    assert_eq!(derives[0].full_line, "#[derive(Clone, Copy)]");
    assert_eq!(derives[0].repository, "r");
    assert_eq!(derives[0].file_path, "f.rs");
}

#[test]
fn text_tier_single_line() {
    let parser = RustParser::new();
    let content = "#[derive(Clone, Copy)]\nstruct S;";
    let derives = parser.extract_derives_text_only(content, "r", "f.rs");
    assert_eq!(derives.len(), 1);
    assert_eq!(derives[0].derives, vec!["Clone", "Copy"]);
    assert_eq!(derives[0].line_number, 1);
    assert_eq!(derives[0].full_line, "#[derive(Clone, Copy)]");
}

#[test]
fn text_tier_indented_and_multiple() {
    let parser = RustParser::new();
    let content = "fn f() {}\n    #[derive(Debug)]\nstruct A;\n#[derive(Clone , Clone)]\nstruct B;\n";
    let derives = parser.extract_derives_text_only(content, "r", "f.rs");
    assert_eq!(derives.len(), 2);
    assert_eq!(derives[0].line_number, 2);
    assert_eq!(derives[0].derives, vec!["Debug"]);
    assert_eq!(derives[0].full_line, "    #[derive(Debug)]");
    assert_eq!(derives[1].line_number, 4);
    // duplicates are preserved as written
    assert_eq!(derives[1].derives, vec!["Clone", "Clone"]);
}

#[test]
fn text_tier_empty_list_is_no_finding() {
    let parser = RustParser::new();
    let derives = parser.extract_derives_text_only("#[derive()]\nstruct S;", "r", "f.rs");
    assert_eq!(derives.len(), 0);
}

#[test]
fn pathological_input_is_recovered() {
    let parser = RustParser::new();
    // thousands of unmatched braces: flagged before the structured parser
    let mut content = String::new();
    for _ in 0..1500 {
        content.push('{');
    }
    content.push('\n');
    content.push_str("#[derive(Clone)]\nstruct S;\n");
    assert!(parser.is_likely_problematic_file(&content, "src/lib.rs"));
    let derives = parser.extract_derives(&content, "r", "f.rs");
    // the text tier still reads the well-formed derive line
    assert_eq!(derives.len(), 1);
    assert_eq!(derives[0].derives, vec!["Clone"]);
    assert_eq!(derives[0].line_number, 2);
}

#[test]
fn unparseable_input_falls_back_to_text_tier() {
    let parser = RustParser::new();
    let content = "this is not rust at all (((\n#[derive(Debug)]\nstruct S;";
    let derives = parser.extract_derives(content, "r", "f.rs");
    assert_eq!(derives.len(), 1);
    assert_eq!(derives[0].derives, vec!["Debug"]);
    assert_eq!(derives[0].line_number, 2);
}

#[test]
fn scanning_twice_is_identical() {
    let parser = RustParser::new();
    let content = "#[derive(Clone)]\nstruct A;\n#[derive(Debug, PartialEq)]\nenum E { X }\n";
    let first = parser.extract_derives(content, "r", "f.rs");
    let second = parser.extract_derives(content, "r", "f.rs");
    assert_eq!(first, second);
    let t1 = parser.extract_derives_text_only(content, "r", "f.rs");
    let t2 = parser.extract_derives_text_only(content, "r", "f.rs");
    assert_eq!(t1, t2);
}

#[test]
fn parse_derive_tokens_filters_non_identifiers() {
    let parser = RustParser::new();
    let toks = parser.parse_derive_tokens("Clone , Copy");
    assert_eq!(toks, vec!["Clone", "Copy"]);
    let toks = parser.parse_derive_tokens("Debug, serde :: Serialize, bad-token!, , _Ok1");
    // path tokens keep their colons; pieces with spaces fail the
    // identifier-character filter and are dropped
    assert_eq!(toks, vec!["Debug", "_Ok1"]);
    let toks = parser.parse_derive_tokens("a::b::C");
    assert_eq!(toks, vec!["a::b::C"]);
    let toks = parser.parse_derive_tokens("");
    assert!(toks.is_empty());
}

#[test]
fn find_line_number_first_derive_line() {
    let parser = RustParser::new();
    let content = "use x;\n// derive soon\n#[derive(Clone)]\nstruct S;";
    // the first line containing the word "derive" wins, comment or not
    assert_eq!(parser.find_line_number(content, "ignored"), 2);
    assert_eq!(parser.find_line_number("no match here", "ignored"), 1);
}

#[test]
fn get_line_at_number_bounds() {
    let parser = RustParser::new();
    let content = "first\nsecond\r\nthird";
    assert_eq!(parser.get_line_at_number(content, 1), "first");
    assert_eq!(parser.get_line_at_number(content, 2), "second");
    assert_eq!(parser.get_line_at_number(content, 3), "third");
    assert_eq!(parser.get_line_at_number(content, 0), "first");
    assert_eq!(parser.get_line_at_number(content, 4), "");
}

#[test]
fn problematic_file_heuristics() {
    let parser = RustParser::new();
    assert!(parser.is_likely_problematic_file("fn main() {}", "rust-lang/rust/tests/ui/x.rs"));
    assert!(!parser.is_likely_problematic_file("fn main() {}", "src/lib.rs"));
    let big = "a".repeat(500_001);
    assert!(parser.is_likely_problematic_file(&big, "src/lib.rs"));
    let braces = "{".repeat(1001);
    assert!(parser.is_likely_problematic_file(&braces, "src/lib.rs"));
    let closers = "}".repeat(1001);
    assert!(parser.is_likely_problematic_file(&closers, "src/lib.rs"));
    let macros = "#[".repeat(201);
    assert!(parser.is_likely_problematic_file(&macros, "src/lib.rs"));
    let few_macros = "#[".repeat(200);
    assert!(!parser.is_likely_problematic_file(&few_macros, "src/lib.rs"));
}
