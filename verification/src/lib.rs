//! A resilient acquisition-and-extraction pipeline for derive-attribute
//! statistics over Rust repositories: a rate-limit-aware, paginated search
//! client; a bounded local repository cache with insertion-order eviction;
//! a two-tier, fault-isolated source scanner; and the aggregation that the
//! exported reports are computed from. Network, subprocess and file work is
//! the embedding program's part; every decision and every computed value is
//! specified and verified here.
pub mod cloned_repo;
pub mod error_handling;
pub mod github;
pub mod parallel_processor;
pub mod parser;
pub mod persistence;
pub mod processor;
pub mod repo_cache;
pub mod text;

use vstd::prelude::*;

verus! {

/// One matched occurrence of a derive attribute in one source file:
/// where it was found and which identifiers it lists, in source order,
/// duplicates preserved.
#[derive(Debug, PartialEq)]
pub struct DeriveStatement {
    pub repository: String,
    pub file_path: String,
    pub line_number: usize,
    pub derives: Vec<String>,
    pub full_line: String,
}

/// Mathematical model of a `DeriveStatement`.
pub struct DeriveStatementView {
    pub repository: Seq<char>,
    pub file_path: Seq<char>,
    pub line_number: int,
    pub derives: Seq<Seq<char>>,
    pub full_line: Seq<char>,
}

impl View for DeriveStatement {
    type V = DeriveStatementView;

    open spec fn view(&self) -> DeriveStatementView {
        DeriveStatementView {
            repository: self.repository@,
            file_path: self.file_path@,
            line_number: self.line_number as int,
            derives: self.derives.deep_view(),
            full_line: self.full_line@,
        }
    }
}

impl DeepView for DeriveStatement {
    type V = DeriveStatementView;

    open spec fn deep_view(&self) -> DeriveStatementView {
        self.view()
    }
}

impl Clone for DeriveStatement {
    /// An exact copy: every field of the model is kept.
    fn clone(&self) -> (res: Self)
        ensures
            res.deep_view() == self.deep_view(),
    {
        let mut ds: Vec<String> = Vec::new();
        let mut i: usize = 0;
        while i < self.derives.len()
            invariant
                0 <= i <= self.derives@.len(),
                ds@ == self.derives@.take(i as int),
            decreases self.derives@.len() - i,
        {
            let v = self.derives[i].clone();
            ds.push(v);
            proof {
                assert(self.derives@.take(i + 1) =~= self.derives@.take(i as int).push(
                    self.derives@[i as int],
                ));
            }
            i += 1;
        }
        proof {
            assert(self.derives@.take(self.derives@.len() as int) =~= self.derives@);
        }
        DeriveStatement {
            repository: self.repository.clone(),
            file_path: self.file_path.clone(),
            line_number: self.line_number,
            derives: ds,
            full_line: self.full_line.clone(),
        }
    }
}

/// A repository discovered by the search client. Immutable once produced.
#[derive(Debug, Clone)]
pub struct RepositoryInfo {
    pub name: String,
    pub full_name: String,
    pub clone_url: String,
    pub language: Option<String>,
    pub stars: u32,
}

} // verus!
