//! The earlier single-cache processor: scans one repository's files through
//! the shared scanner. File reading and cache locking are the caller's
//! part; the decisions — which repositories qualify, how a file's path is
//! reported, what each file yields — are verified here.
use crate::parser::scan_spec;
use crate::parser::RustParser;
use crate::text::chars_vec;
use crate::text::matches_at;
use crate::text::range_to_string;
use crate::text::str_eq;
use crate::DeriveStatement;
use crate::RepositoryInfo;
use vstd::prelude::*;
use vstd::string::StringExecFns;

verus! {

/// Why this processor failed a repository: the cache could not produce a
/// working copy, or a file could not be read.
#[derive(Debug)]
pub enum ProcessingError {
    CacheError(String),
    FileReadError(String),
}

impl ProcessingError {
    /// The error's description, ready for reporting.
    pub fn message(&self) -> (r: String)
        ensures
            match self {
                ProcessingError::CacheError(m) => r@ == "Cache error: "@ + m@,
                ProcessingError::FileReadError(m) => r@ == "File read error: "@ + m@,
            },
    {
        match self {
            ProcessingError::CacheError(m) => String::from_str("Cache error: ").concat(m.as_str()),
            ProcessingError::FileReadError(m) => String::from_str("File read error: ").concat(
                m.as_str(),
            ),
        }
    }
}

/// The reporting path for a file under a repository root: the remainder
/// after the root and its separator; the root itself reads as empty; a path
/// not under the root is reported as it is.
pub open spec fn relative_path_spec(file: Seq<char>, root: Seq<char>) -> Seq<char> {
    if file.len() > root.len() && file.take(root.len() as int) == root && file[root.len() as int]
        == '/' {
        file.skip(root.len() as int + 1)
    } else if file == root {
        Seq::empty()
    } else {
        file
    }
}

/// Turn an absolute file path into its repository-relative reporting path.
pub fn relative_path_of(file: &str, root: &str) -> (r: String)
    ensures
        r@ == relative_path_spec(file@, root@),
{
    let v = chars_vec(file);
    let n = root.unicode_len();
    if v.len() > n && matches_at(&v, 0, root) && v[n] == '/' {
        proof {
            assert(v@.subrange(0, 0 + root@.len() as int) =~= v@.take(root@.len() as int));
            assert(v@.subrange(n + 1, v@.len() as int) =~= file@.skip(root@.len() as int + 1));
        }
        range_to_string(file, n + 1, v.len())
    } else if str_eq(file, root) {
        String::new()
    } else {
        proof {
            if v.len() > n && v@.take(root@.len() as int) == root@ && v@[n as int] == '/' {
                assert(v@.subrange(0, 0 + root@.len() as int) =~= v@.take(root@.len() as int));
            }
        }
        String::from_str(file)
    }
}

/// Scans repositories file by file with one shared parser.
#[derive(Clone)]
pub struct RustFileProcessor {
    pub parser: RustParser,
}

impl RustFileProcessor {
    pub fn new() -> (r: Self) {
        RustFileProcessor { parser: RustParser::new() }
    }

    /// Scan one file the caller has read, under its reporting path.
    pub fn process_rust_file(&self, repo_name: &str, relative_path: &str, content: &str) -> (r:
        Vec<DeriveStatement>)
        ensures
            r.deep_view() == scan_spec(content@, repo_name@, relative_path@),
    {
        self.parser.extract_derives(content, repo_name, relative_path)
    }

    /// The processor's name for the scheduler's reporting.
    pub fn name(&self) -> (r: &'static str)
        ensures
            r@ == "RustFileProcessor"@,
    {
        "RustFileProcessor"
    }

    /// Only repositories tagged as Rust qualify for this processor.
    pub fn can_process(&self, repo: &RepositoryInfo) -> (r: bool)
        ensures
            r == (repo.language matches Some(l) && l@ == "Rust"@),
    {
        match &repo.language {
            Some(l) => str_eq(l.as_str(), "Rust"),
            None => false,
        }
    }

    /// A line describing the processor's configuration.
    pub fn config_info(&self) -> (r: String)
        ensures
            r@ == "RustFileProcessor: git clone based processing"@,
    {
        String::from_str("RustFileProcessor: git clone based processing")
    }
}

} // verus!
