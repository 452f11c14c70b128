use derive_analysis::parallel_processor::ProcessingError;
use derive_analysis::parallel_processor::RepositoryProcessor;
use derive_analysis::parallel_processor::RepositoryTask;
use derive_analysis::parallel_processor::ScannedFile;
use derive_analysis::persistence::ResultsPersistence;
use derive_analysis::persistence::ResultsStore;
use derive_analysis::processor::RustFileProcessor;
use derive_analysis::processor::relative_path_of;
use derive_analysis::processor::ProcessingError as FileProcessingError;
use derive_analysis::error_handling::AnalysisError;
use derive_analysis::repo_cache::CacheConfig;
use derive_analysis::RepositoryInfo;

fn repo(full_name: &str, language: Option<&str>) -> RepositoryInfo {
    RepositoryInfo {
        name: full_name.to_string(),
        full_name: full_name.to_string(),
        clone_url: format!("https://example.invalid/{}.git", full_name),
        language: language.map(|l| l.to_string()),
        stars: 100,
    }
}

fn scanned(path: &str, content: &str) -> ScannedFile {
    ScannedFile { relative_path: path.to_string(), content: content.to_string() }
}

#[test]
fn end_to_end_three_repositories() {
    let processor = RepositoryProcessor::new(CacheConfig::default());
    let mut store = ResultsStore::new();
    let mut successful = 0usize;
    let mut failed = 0usize;

    // one repository fails to clone: its task fails alone, nothing is stored
    let clone_error: Result<(), ProcessingError> =
        Err(ProcessingError::CloneError("exit status 128".to_string()));
    assert!(clone_error.is_err());
    failed += 1;

    // one repository has no source files
    let empty = processor.scan_files("owner/empty", &Vec::new());
    assert_eq!(empty.rust_files_processed, 0);
    assert_eq!(empty.derive_statements.len(), 0);
    store.append(empty);
    successful += 1;

    // one repository has two files with one and two occurrences
    let files = vec![
        scanned("src/a.rs", "#[derive(Clone)]\nstruct A;\n"),
        scanned(
            "src/b.rs",
            "#[derive(Clone, Debug)]\nstruct B;\n#[derive(Serialize)]\nstruct C;\n",
        ),
    ];
    let busy = processor.scan_files("owner/busy", &files);
    assert_eq!(busy.rust_files_processed, 2);
    assert_eq!(busy.derive_statements.len(), 3);
    store.append(busy);
    successful += 1;

    assert_eq!(successful, 2);
    assert_eq!(failed, 1);
    assert_eq!(store.result_count(), 2);

    let all = store.all_derives();
    assert_eq!(all.len(), 3);

    let summary = ResultsPersistence::build_summary(&all);
    assert_eq!(summary.total_derive_statements, 3);
    assert_eq!(summary.total_repositories, 1);
    assert_eq!(summary.total_unique_derives, 3);
    // top identifiers, counted and sorted descending
    assert_eq!(summary.most_common_derives[0].name, "Clone");
    assert_eq!(summary.most_common_derives[0].count, 2);
    assert_eq!(summary.most_common_derives.len(), 3);
    for w in summary.most_common_derives.windows(2) {
        assert!(w[0].count >= w[1].count);
    }
    // top repositories by derive-statement count
    assert_eq!(summary.repositories_by_derive_count.len(), 1);
    assert_eq!(summary.repositories_by_derive_count[0].name, "owner/busy");
    assert_eq!(summary.repositories_by_derive_count[0].count, 3);
    assert!(!summary.analysis_timestamp.is_empty());
}

#[test]
fn gated_file_takes_text_tier_only() {
    let processor = RepositoryProcessor::new(CacheConfig::default());
    let mut content = String::new();
    for _ in 0..600 {
        content.push('{');
    }
    content.push_str("\n#[derive(Clone)]\nstruct S;\n");
    assert!(processor.should_use_text_only_parsing(&content, "src/lib.rs"));
    let found = processor.process_file_safely(&content, "o/r", "src/lib.rs").unwrap();
    assert_eq!(found.len(), 1);
    assert_eq!(found[0].derives, vec!["Clone"]);
}

#[test]
fn text_only_gate_thresholds() {
    let processor = RepositoryProcessor::new(CacheConfig::default());
    assert!(processor.should_use_text_only_parsing("fn f() {}", "rust-lang/rust/tests/x.rs"));
    assert!(processor.should_use_text_only_parsing("fn f() {}", "ui/associated-consts/x.rs"));
    assert!(processor.should_use_text_only_parsing("text expected `!` here", "src/lib.rs"));
    assert!(processor.should_use_text_only_parsing("see issue-105330 for details", "src/lib.rs"));
    let big = "a".repeat(200_001);
    assert!(processor.should_use_text_only_parsing(&big, "src/lib.rs"));
    let macros = "#[".repeat(101);
    assert!(processor.should_use_text_only_parsing(&macros, "src/lib.rs"));
    assert!(!processor.should_use_text_only_parsing("fn f() {}", "src/lib.rs"));
}

#[test]
fn processor_descriptions() {
    let processor = RepositoryProcessor::new(CacheConfig::default());
    assert_eq!(processor.name(), "RepositoryProcessor");
    assert_eq!(
        processor.config_info(),
        "RepositoryProcessor: cache_limit=5, cache_size=2147483648 bytes"
    );
    assert!(processor.can_process(&RepositoryTask { repo_info: repo("o/r", Some("Rust")) }));
    assert!(!processor.can_process(&RepositoryTask { repo_info: repo("", Some("Rust")) }));
}

#[test]
fn file_processor_accepts_rust_only() {
    let p = RustFileProcessor::new();
    assert!(p.can_process(&repo("o/r", Some("Rust"))));
    assert!(!p.can_process(&repo("o/r", Some("Go"))));
    assert!(!p.can_process(&repo("o/r", None)));
    assert_eq!(p.name(), "RustFileProcessor");
    assert_eq!(p.config_info(), "RustFileProcessor: git clone based processing");
    let found = p.process_rust_file("o/r", "src/x.rs", "#[derive(Hash)]\nstruct H;");
    assert_eq!(found.len(), 1);
    assert_eq!(found[0].derives, vec!["Hash"]);
}

#[test]
fn relative_paths_for_reporting() {
    assert_eq!(relative_path_of("/tmp/repo/src/lib.rs", "/tmp/repo"), "src/lib.rs");
    assert_eq!(relative_path_of("/tmp/repo", "/tmp/repo"), "");
    assert_eq!(relative_path_of("/elsewhere/x.rs", "/tmp/repo"), "/elsewhere/x.rs");
}

#[test]
fn processing_error_messages() {
    assert_eq!(
        ProcessingError::CloneError("boom".to_string()).message(),
        "Clone error: boom"
    );
    assert_eq!(
        ProcessingError::FileAccessError("gone".to_string()).message(),
        "File access error: gone"
    );
    assert_eq!(
        FileProcessingError::CacheError("c".to_string()).message(),
        "Cache error: c"
    );
    assert_eq!(
        FileProcessingError::FileReadError("f".to_string()).message(),
        "File read error: f"
    );
    assert_eq!(
        AnalysisError::GitHub("g".to_string()).message(),
        "GitHub API error: g"
    );
    assert_eq!(
        AnalysisError::Persistence("p".to_string()).message(),
        "Persistence error: p"
    );
}
