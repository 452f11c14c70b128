//! Per-repository processing: the decisions a worker makes once the cache
//! has produced a local path and the files' contents are in hand. Reading
//! directories and files is the caller's part; every file handed in is
//! scanned here, in order, with per-file tier selection and fault isolation.
use crate::parser::scan_spec;
use crate::parser::text_findings;
use crate::parser::RustParser;
use crate::repo_cache::CacheConfig;
use crate::text::chars_vec;
use crate::text::contains_seq;
use crate::text::contains_sub;
use crate::text::count_char;
use crate::text::count_char_occurrences;
use crate::text::count_matches;
use crate::text::count_matches_exec;
use crate::text::u64_to_string;
use crate::text::dec_rep;
use crate::DeriveStatement;
use crate::DeriveStatementView;
use crate::RepositoryInfo;
use vstd::prelude::*;
use vstd::string::StringExecFns;

verus! {

/// One unit of work: a discovered repository to acquire and scan.
pub struct RepositoryTask {
    pub repo_info: RepositoryInfo,
}

/// What one repository's scan produced: every finding, in file order, and
/// how many files were read.
pub struct RepositoryResult {
    pub repo_name: String,
    pub derive_statements: Vec<DeriveStatement>,
    pub rust_files_processed: usize,
}

/// Why a repository's task failed: it could not be cloned, or its files
/// could not be reached. Such a failure never touches sibling tasks.
#[derive(Debug)]
pub enum ProcessingError {
    CloneError(String),
    FileAccessError(String),
}

impl ProcessingError {
    /// The error's description, ready for reporting.
    pub fn message(&self) -> (r: String)
        ensures
            match self {
                ProcessingError::CloneError(m) => r@ == "Clone error: "@ + m@,
                ProcessingError::FileAccessError(m) => r@ == "File access error: "@ + m@,
            },
    {
        match self {
            ProcessingError::CloneError(m) => String::from_str("Clone error: ").concat(m.as_str()),
            ProcessingError::FileAccessError(m) => String::from_str("File access error: ").concat(
                m.as_str(),
            ),
        }
    }
}

/// One source file of a repository, read by the caller: its path relative
/// to the repository root, and its text.
pub struct ScannedFile {
    pub relative_path: String,
    pub content: String,
}

/// The pipeline-level gate before the scanner: content signals that send a
/// file straight to the text tier, on purpose stricter than the scanner's
/// own guard.
pub open spec fn text_only_heuristic(content: Seq<char>, path: Seq<char>) -> bool {
    ||| contains_seq(path, "rust-lang/rust/tests/"@)
    ||| vstd::utf8::encode_utf8(content).len() > 200000
    ||| count_matches(content, "macro_rules!"@) + count_matches(content, "#["@) > 100
    ||| count_char(content, '{') > 500
    ||| contains_seq(content, "expected `!`"@)
    ||| contains_seq(content, "issue-105330"@)
    ||| contains_seq(path, "associated-consts"@)
}

/// Everything the scanner reports for one file under the pipeline's gate.
pub open spec fn file_findings(f: ScannedFile, repo: Seq<char>) -> Seq<DeriveStatementView> {
    if text_only_heuristic(f.content@, f.relative_path@) {
        text_findings(f.content@, repo, f.relative_path@)
    } else {
        scan_spec(f.content@, repo, f.relative_path@)
    }
}

/// The findings of a whole repository, in file order.
pub open spec fn files_findings(fs: Seq<ScannedFile>, repo: Seq<char>) -> Seq<
    DeriveStatementView,
>
    decreases fs.len(),
{
    if fs.len() == 0 {
        seq![]
    } else {
        file_findings(fs[0], repo) + files_findings(fs.drop_first(), repo)
    }
}

proof fn lemma_files_findings_skip(fs: Seq<ScannedFile>, i: int, repo: Seq<char>)
    requires
        0 <= i < fs.len(),
    ensures
        files_findings(fs.skip(i), repo) == file_findings(fs[i], repo) + files_findings(
            fs.skip(i + 1),
            repo,
        ),
{
    assert(fs.skip(i).drop_first() =~= fs.skip(i + 1));
    assert(fs.skip(i)[0] == fs[i]);
}

/// Processes one repository task at a time: tier selection, scanning and
/// result assembly. The caller owns cloning, file enumeration and storage.
#[derive(Clone)]
pub struct RepositoryProcessor {
    pub cache_config: CacheConfig,
    pub parser: RustParser,
}

impl RepositoryProcessor {
    pub fn new(cache_config: CacheConfig) -> (r: Self)
        ensures
            r.cache_config == cache_config,
    {
        RepositoryProcessor { cache_config, parser: RustParser::new() }
    }

    /// The pipeline's gate before the scanner, with its own threshold set.
    pub fn should_use_text_only_parsing(&self, content: &str, file_path: &str) -> (r: bool)
        ensures
            r == text_only_heuristic(content@, file_path@),
    {
        let pv = chars_vec(file_path);
        if contains_sub(&pv, "rust-lang/rust/tests/") {
            return true;
        }
        let bytes = content.as_bytes();
        proof {
            assert(bytes@ == vstd::utf8::encode_utf8(content@));
        }
        if bytes.len() > 200000 {
            return true;
        }
        let cv = chars_vec(content);
        proof {
            reveal_strlit("macro_rules!");
            reveal_strlit("#[");
        }
        let m1 = count_matches_exec(&cv, "macro_rules!");
        if m1 > 100 {
            return true;
        }
        let m2 = count_matches_exec(&cv, "#[");
        if m2 > 100 - m1 {
            return true;
        }
        if count_char_occurrences(&cv, '{') > 500 {
            return true;
        }
        if contains_sub(&cv, "expected `!`") {
            return true;
        }
        if contains_sub(&cv, "issue-105330") {
            return true;
        }
        contains_sub(&pv, "associated-consts")
    }

    /// Scan one file with error isolation: gated content takes the text
    /// tier only; everything else takes the scanner with its fallback. No
    /// input fails: the error case does not occur.
    pub fn process_file_safely(&self, content: &str, repository: &str, file_path: &str) -> (r:
        Result<Vec<DeriveStatement>, ProcessingError>)
        ensures
            r matches Ok(v) && v.deep_view() == (if text_only_heuristic(content@, file_path@) {
                text_findings(content@, repository@, file_path@)
            } else {
                scan_spec(content@, repository@, file_path@)
            }),
    {
        if self.should_use_text_only_parsing(content, file_path) {
            return Ok(self.parser.extract_derives_text_only(content, repository, file_path));
        }
        Ok(self.parser.extract_derives(content, repository, file_path))
    }

    /// The per-repository scan once the caller has read the files: every
    /// file in order, findings concatenated, the file count recorded.
    pub fn scan_files(&self, repo_name: &str, files: &Vec<ScannedFile>) -> (r: RepositoryResult)
        ensures
            r.repo_name@ == repo_name@,
            r.rust_files_processed == files@.len(),
            r.derive_statements.deep_view() == files_findings(files@, repo_name@),
    {
        let mut all: Vec<DeriveStatement> = Vec::new();
        let mut i: usize = 0;
        proof {
            assert(files@.skip(0) =~= files@);
            assert(all.deep_view() =~= Seq::<DeriveStatementView>::empty());
        }
        while i < files.len()
            invariant
                0 <= i <= files@.len(),
                files_findings(files@, repo_name@) == all.deep_view() + files_findings(
                    files@.skip(i as int),
                    repo_name@,
                ),
            decreases files@.len() - i,
        {
            proof {
                lemma_files_findings_skip(files@, i as int, repo_name@);
            }
            let f = &files[i];
            let found = match self.process_file_safely(
                f.content.as_str(),
                repo_name,
                f.relative_path.as_str(),
            ) {
                Ok(v) => v,
                Err(_) => Vec::new(),
            };
            let ghost all_old = all.deep_view();
            let ghost found_v = found.deep_view();
            let mut found = found;
            all.append(&mut found);
            proof {
                assert(all.deep_view() =~= all_old + found_v);
                assert(found_v == file_findings(files@[i as int], repo_name@));
            }
            i += 1;
        }
        proof {
            assert(files_findings(files@.skip(files@.len() as int), repo_name@)
                =~= Seq::<DeriveStatementView>::empty());
            assert(all.deep_view() + Seq::<DeriveStatementView>::empty() =~= all.deep_view());
        }
        RepositoryResult {
            repo_name: String::from_str(repo_name),
            derive_statements: all,
            rust_files_processed: files.len(),
        }
    }

    /// The processor's name for the scheduler's reporting.
    pub fn name(&self) -> (r: &'static str)
        ensures
            r@ == "RepositoryProcessor"@,
    {
        "RepositoryProcessor"
    }

    /// A task is processable when its repository has a non-empty key.
    pub fn can_process(&self, task: &RepositoryTask) -> (r: bool)
        ensures
            r == (task.repo_info.full_name@.len() != 0),
    {
        !task.repo_info.full_name.as_str().is_empty()
    }

    /// A line describing the processor's configuration.
    pub fn config_info(&self) -> (r: String)
        ensures
            r@ == "RepositoryProcessor: cache_limit="@ + dec_rep(
                self.cache_config.max_repositories as nat,
            ) + ", cache_size="@ + dec_rep(self.cache_config.max_size_bytes as nat)
                + " bytes"@,
    {
        let mut s = String::from_str("RepositoryProcessor: cache_limit=");
        let lim = u64_to_string(self.cache_config.max_repositories as u64);
        s.append(lim.as_str());
        s.append(", cache_size=");
        let sz = u64_to_string(self.cache_config.max_size_bytes);
        s.append(sz.as_str());
        s.append(" bytes");
        s
    }
}

} // verus!
