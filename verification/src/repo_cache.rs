//! The bounded local repository cache, as a verified state machine over its
//! bookkeeping: which repository key maps to which local path, in insertion
//! order. The caller runs the clone and deletion commands the machine asks
//! for and reports what it saw; admission — evicting the oldest entries
//! under the count and size limits — is decided and proved here.
use crate::text::chars_vec;
use crate::text::first_token;
use crate::text::first_token_range;
use crate::text::parse_u64_range;
use crate::text::parse_u64_spec;
use crate::text::str_eq;
use crate::text::string_from_chars;
use vstd::prelude::*;
use vstd::string::StringExecFns;

verus! {

/// The cache's limits and its root directory.
#[derive(Clone)]
pub struct CacheConfig {
    pub max_repositories: usize,
    pub cache_root: String,
    pub max_size_bytes: u64,
}

impl CacheConfig {
    /// A usable configuration: room for at least one repository, so that
    /// admission always terminates.
    pub open spec fn wf(&self) -> bool {
        self.max_repositories >= 1
    }
}

impl Default for CacheConfig {
    /// Room for five repositories under `./repo_cache`, two gigabytes on
    /// disk.
    fn default() -> (r: Self)
        ensures
            r.max_repositories == 5,
            r.cache_root@ == "./repo_cache"@,
            r.max_size_bytes == 2147483648u64,
            r.wf(),
    {
        CacheConfig {
            max_repositories: 5,
            cache_root: String::from_str("./repo_cache"),
            max_size_bytes: 2147483648,
        }
    }
}

/// One cached repository: its key and its local path.
pub struct CacheEntry {
    pub key: String,
    pub path: String,
}

/// A cache failure: an I/O error or a version-control error, each with the
/// captured description.
#[derive(Debug)]
pub enum CacheError {
    IoError(String),
    GitError(String),
}

impl CacheError {
    /// The error's description, ready for reporting.
    pub fn message(&self) -> (r: String)
        ensures
            match self {
                CacheError::IoError(m) => r@ == "I/O error: "@ + m@,
                CacheError::GitError(m) => r@ == "Git error: "@ + m@,
            },
    {
        match self {
            CacheError::IoError(m) => String::from_str("I/O error: ").concat(m.as_str()),
            CacheError::GitError(m) => String::from_str("Git error: ").concat(m.as_str()),
        }
    }
}

/// Replace path separators by underscores: the directory name a repository
/// key is cloned under.
pub open spec fn sanitize_spec(s: Seq<char>) -> Seq<char> {
    s.map_values(
        |c: char|
            if c == '/' || c == '\\' {
                '_'
            } else {
                c
            },
    )
}

/// What the next acquisition step is for a target directory that the caller
/// probed: reuse a valid working copy, delete an invalid one and clone
/// fresh, or clone into a fresh target.
pub enum CloneDecision {
    UseExisting,
    RecloneAfterDelete,
    FreshClone,
}

/// The decision tree of acquisition: an existing valid working copy is
/// reused without cloning; an existing invalid one is deleted and cloned
/// over; anything else is cloned fresh.
pub fn clone_decision(target_exists: bool, valid_repo: bool) -> (r: CloneDecision)
    ensures
        (r matches CloneDecision::UseExisting) <==> (target_exists && valid_repo),
        (r matches CloneDecision::RecloneAfterDelete) <==> (target_exists && !valid_repo),
        (r matches CloneDecision::FreshClone) <==> !target_exists,
{
    if target_exists {
        if valid_repo {
            CloneDecision::UseExisting
        } else {
            CloneDecision::RecloneAfterDelete
        }
    } else {
        CloneDecision::FreshClone
    }
}

/// The byte count a disk-usage query's output reports: its first
/// whitespace-separated token read as a number, zero when there is none or
/// it is not one.
pub open spec fn du_size_spec(s: Seq<char>) -> u64 {
    match parse_u64_spec(first_token(s)) {
        Some(v) => v,
        None => 0,
    }
}

/// Read a disk-usage query's output.
pub fn parse_du_size(output: &str) -> (r: u64)
    ensures
        r == du_size_spec(output@),
{
    let v = chars_vec(output);
    let tok = first_token_range(&v);
    match parse_u64_range(&v, tok.0, tok.1) {
        Some(x) => x,
        None => 0,
    }
}

/// The cache's bookkeeping: entries in insertion order, never more than the
/// configured count.
pub struct RepositoryCache {
    config: CacheConfig,
    entries: Vec<CacheEntry>,
}

impl RepositoryCache {
    pub closed spec fn entries_spec(&self) -> Seq<CacheEntry> {
        self.entries@
    }

    pub closed spec fn config_spec(&self) -> CacheConfig {
        self.config
    }

    /// The key is mapped.
    pub open spec fn has_key(&self, key: Seq<char>) -> bool {
        exists|i: int|
            0 <= i < self.entries_spec().len() && (#[trigger] self.entries_spec()[i]).key@ == key
    }

    /// The path the key maps to (meaningful only when the key is mapped).
    pub open spec fn path_of(&self, key: Seq<char>) -> Seq<char> {
        let i = choose|i: int|
            0 <= i < self.entries_spec().len() && (#[trigger] self.entries_spec()[i]).key@ == key;
        self.entries_spec()[i].path@
    }

    /// The cache invariant: keys are distinct, and the active entry count
    /// never exceeds `max_repositories`.
    pub open spec fn inv(&self) -> bool {
        &&& self.config_spec().wf()
        &&& self.entries_spec().len() <= self.config_spec().max_repositories
        &&& forall|i: int, j: int|
            0 <= i < j < self.entries_spec().len() ==> (#[trigger] self.entries_spec()[i]).key@
                != (#[trigger] self.entries_spec()[j]).key@
    }

    /// An empty cache under the given limits.
    pub fn new(config: CacheConfig) -> (r: Self)
        requires
            config.wf(),
        ensures
            r.inv(),
            r.entries_spec() == Seq::<CacheEntry>::empty(),
            r.config_spec() == config,
    {
        RepositoryCache { config, entries: Vec::new() }
    }

    /// How many repositories are active.
    pub fn entry_count(&self) -> (r: usize)
        ensures
            r == self.entries_spec().len(),
    {
        self.entries.len()
    }

    /// The path the key is mapped to, if it is.
    pub fn cached_path(&self, key: &str) -> (r: Option<String>)
        requires
            self.inv(),
        ensures
            match r {
                Some(p) => self.has_key(key@) && p@ == self.path_of(key@),
                None => !self.has_key(key@),
            },
    {
        let mut i: usize = 0;
        while i < self.entries.len()
            invariant
                0 <= i <= self.entries@.len(),
                self.inv(),
                forall|k: int| 0 <= k < i ==> (#[trigger] self.entries@[k]).key@ != key@,
            decreases self.entries@.len() - i,
        {
            if str_eq(self.entries[i].key.as_str(), key) {
                proof {
                    assert(self.entries_spec()[i as int].key@ == key@);
                    let j = choose|j: int|
                        0 <= j < self.entries_spec().len() && (#[trigger] self.entries_spec()[j]).key@
                            == key@;
                    if i as int != j {
                        assert(self.entries_spec()[i as int].key@ != self.entries_spec()[j].key@);
                        assert(false);
                    }
                }
                return Some(self.entries[i].path.clone());
            }
            i += 1;
        }
        None
    }

    /// Drop a mapping whose path has vanished from disk: the key is treated
    /// as missing from then on; every other entry stays, in order.
    pub fn note_stale(&mut self, key: &str)
        requires
            old(self).inv(),
        ensures
            final(self).inv(),
            final(self).config_spec() == old(self).config_spec(),
            !final(self).has_key(key@),
            old(self).has_key(key@) ==> exists|i: int|
                0 <= i < old(self).entries_spec().len() && (#[trigger] old(self).entries_spec()[i]).key@
                    == key@ && final(self).entries_spec() == old(self).entries_spec().remove(i),
            !old(self).has_key(key@) ==> final(self).entries_spec() == old(self).entries_spec(),
    {
        let ghost orig = self.entries@;
        let mut i: usize = 0;
        while i < self.entries.len()
            invariant
                0 <= i <= self.entries@.len(),
                self.entries@ == orig,
                self.config == old(self).config,
                old(self).inv(),
                orig == old(self).entries@,
                forall|k: int| 0 <= k < i ==> (#[trigger] orig[k]).key@ != key@,
            decreases self.entries@.len() - i,
        {
            if str_eq(self.entries[i].key.as_str(), key) {
                proof {
                    assert(orig[i as int].key@ == key@);
                }
                self.entries.remove(i);
                proof {
                    assert(self.entries@ == orig.remove(i as int));
                    assert(forall|k: int|
                        0 <= k < i ==> #[trigger] self.entries@[k] == orig[k]);
                    assert(forall|k: int|
                        i <= k < self.entries@.len() ==> #[trigger] self.entries@[k] == orig[k
                            + 1]);
                    assert forall|k: int|
                        0 <= k < self.entries@.len() implies (#[trigger] self.entries@[k]).key@
                        != key@ by {
                        if k < i {
                            assert(self.entries@[k] == orig[k]);
                        } else {
                            assert(self.entries@[k] == orig[k + 1]);
                            assert(orig[k + 1].key@ != orig[i as int].key@);
                        }
                    }
                }
                return ;
            }
            i += 1;
        }
        proof {
            if self.has_key(key@) {
                let j = choose|j: int|
                    0 <= j < self.entries_spec().len() && (#[trigger] self.entries_spec()[j]).key@
                        == key@;
                assert(orig[j].key@ != key@);
            }
        }
    }
}

} // verus!

verus! {

impl RepositoryCache {
    /// The directory name a repository key is cloned under.
    pub fn sanitize_repo_name(&self, repo_name: &str) -> (r: String)
        ensures
            r@ == sanitize_spec(repo_name@),
    {
        let v = chars_vec(repo_name);
        let mut out: Vec<char> = Vec::new();
        let mut i: usize = 0;
        proof {
            assert(out@ =~= sanitize_spec(v@.take(0)));
        }
        while i < v.len()
            invariant
                0 <= i <= v@.len(),
                v@ == repo_name@,
                out@ == sanitize_spec(v@.take(i as int)),
            decreases v@.len() - i,
        {
            let c = v[i];
            let d = if c == '/' || c == '\\' {
                '_'
            } else {
                c
            };
            out.push(d);
            proof {
                assert(out@ =~= sanitize_spec(v@.take(i + 1)));
            }
            i += 1;
        }
        proof {
            assert(v@.take(v@.len() as int) =~= v@);
        }
        string_from_chars(&out)
    }

    /// The target path for a clone of the key: the sanitized key under the
    /// cache root.
    pub fn clone_target(&self, key: &str) -> (r: String)
        ensures
            r@ == self.config_spec().cache_root@ + "/"@ + sanitize_spec(key@),
    {
        let name = self.sanitize_repo_name(key);
        let mut s = self.config.cache_root.clone();
        s.append("/");
        s.append(name.as_str());
        s
    }

    /// Admission by count: pop entries in insertion order while the cache
    /// is at or over its entry limit, and hand back their paths, oldest
    /// first, for the caller to delete from disk. Afterwards there is room
    /// for one more repository.
    pub fn evict_for_count(&mut self) -> (r: Vec<String>)
        requires
            old(self).inv(),
        ensures
            final(self).inv(),
            final(self).config_spec() == old(self).config_spec(),
            final(self).entries_spec().len() < old(self).config_spec().max_repositories,
            final(self).entries_spec() == old(self).entries_spec().skip(r@.len() as int),
            r@.len() == if old(self).entries_spec().len()
                >= old(self).config_spec().max_repositories {
                old(self).entries_spec().len() - old(self).config_spec().max_repositories + 1
            } else {
                0
            },
            forall|j: int|
                0 <= j < r@.len() ==> (#[trigger] r@[j])@ == old(self).entries_spec()[j].path@,
    {
        let ghost orig = self.entries@;
        let mut r: Vec<String> = Vec::new();
        proof {
            assert(orig.skip(0) =~= orig);
        }
        while self.entries.len() >= self.config.max_repositories
            invariant
                self.config == old(self).config,
                old(self).inv(),
                orig == old(self).entries@,
                r@.len() <= orig.len(),
                self.entries@ == orig.skip(r@.len() as int),
                r@.len() == if orig.len() >= self.config.max_repositories {
                    orig.len() - self.entries@.len()
                } else {
                    0
                },
                self.entries@.len() >= self.config.max_repositories - 1 || r@.len() == 0,
                forall|j: int| 0 <= j < r@.len() ==> (#[trigger] r@[j])@ == orig[j].path@,
            decreases self.entries@.len(),
        {
            let ghost n = r@.len() as int;
            let e = self.entries.remove(0);
            r.push(e.path);
            proof {
                assert(orig.skip(n).remove(0) =~= orig.skip(n + 1));
                assert(orig.skip(n)[0] == orig[n]);
                assert(forall|j: int| 0 <= j < n ==> (#[trigger] r@[j])@ == orig[j].path@);
                assert(r@[n]@ == orig[n].path@);
            }
        }
        proof {
            assert forall|i: int, j: int|
                0 <= i < j < self.entries@.len() implies (#[trigger] self.entries@[i]).key@
                != (#[trigger] self.entries@[j]).key@ by {
                let k = r@.len() as int;
                assert(self.entries@[i] == orig[i + k]);
                assert(self.entries@[j] == orig[j + k]);
            }
        }
        r
    }

    /// Admission by size: while the reported on-disk size exceeds the
    /// limit and entries remain, pop the oldest entry and hand its path
    /// back for deletion; the caller re-measures and calls again. `None`
    /// exactly when the size is within the limit or nothing is left to
    /// evict.
    pub fn size_eviction_step(&mut self, size_bytes: u64) -> (r: Option<String>)
        requires
            old(self).inv(),
        ensures
            final(self).inv(),
            final(self).config_spec() == old(self).config_spec(),
            (r is None) <==> (size_bytes <= old(self).config_spec().max_size_bytes || old(
                self,
            ).entries_spec().len() == 0),
            r is None ==> final(self).entries_spec() == old(self).entries_spec(),
            r is Some ==> final(self).entries_spec() == old(self).entries_spec().skip(1)
                && r->0@ == old(self).entries_spec()[0].path@,
    {
        if size_bytes > self.config.max_size_bytes && self.entries.len() > 0 {
            let ghost orig = self.entries@;
            let e = self.entries.remove(0);
            proof {
                assert(orig.remove(0) =~= orig.skip(1));
                assert forall|i: int, j: int|
                    0 <= i < j < self.entries@.len() implies (#[trigger] self.entries@[i]).key@
                    != (#[trigger] self.entries@[j]).key@ by {
                    assert(self.entries@[i] == orig[i + 1]);
                    assert(self.entries@[j] == orig[j + 1]);
                }
            }
            Some(e.path)
        } else {
            None
        }
    }

    /// Record a fresh clone: the key now maps to the path, as the newest
    /// entry. The entry count stays within the limit.
    pub fn record_clone(&mut self, key: &str, path: String)
        requires
            old(self).inv(),
            old(self).entries_spec().len() < old(self).config_spec().max_repositories,
            !old(self).has_key(key@),
        ensures
            final(self).inv(),
            final(self).config_spec() == old(self).config_spec(),
            final(self).entries_spec().last().key@ == key@,
            final(self).entries_spec().last().path == path,
            final(self).has_key(key@),
            final(self).path_of(key@) == path@,
            final(self).entries_spec().len() == old(self).entries_spec().len() + 1,
            forall|i: int|
                0 <= i < old(self).entries_spec().len()
                    ==> #[trigger] final(self).entries_spec()[i] == old(self).entries_spec()[i],
    {
        let ghost orig = self.entries@;
        let entry = CacheEntry { key: String::from_str(key), path };
        self.entries.push(entry);
        proof {
            let n = orig.len() as int;
            assert(self.entries@[n].key@ == key@);
            assert forall|i: int, j: int|
                0 <= i < j < self.entries@.len() implies (#[trigger] self.entries@[i]).key@
                != (#[trigger] self.entries@[j]).key@ by {
                if j < n {
                    assert(self.entries@[i] == orig[i]);
                    assert(self.entries@[j] == orig[j]);
                } else {
                    assert(self.entries@[i] == orig[i]);
                    if self.entries@[i].key@ == key@ {
                        assert(old(self).has_key(key@));
                    }
                }
            }
            assert(self.entries@ =~= orig.push(self.entries@[n]));
            let w = choose|w: int|
                0 <= w < self.entries@.len() && (#[trigger] self.entries@[w]).key@ == key@;
            if w != n {
                assert(self.entries@[w].key@ != self.entries@[n].key@);
            }
        }
    }

    /// Tear the cache down: every entry leaves, and the caller deletes each
    /// returned path and then the cache root.
    pub fn evict_all(&mut self) -> (r: Vec<String>)
        requires
            old(self).inv(),
        ensures
            final(self).inv(),
            final(self).config_spec() == old(self).config_spec(),
            final(self).entries_spec() == Seq::<CacheEntry>::empty(),
            r@.len() == old(self).entries_spec().len(),
            forall|j: int|
                0 <= j < r@.len() ==> (#[trigger] r@[j])@ == old(self).entries_spec()[j].path@,
    {
        let ghost orig = self.entries@;
        let mut r: Vec<String> = Vec::new();
        while self.entries.len() > 0
            invariant
                self.config == old(self).config,
                old(self).inv(),
                orig == old(self).entries@,
                r@.len() + self.entries@.len() == orig.len(),
                self.entries@ == orig.skip(r@.len() as int),
                forall|j: int| 0 <= j < r@.len() ==> (#[trigger] r@[j])@ == orig[j].path@,
            decreases self.entries@.len(),
        {
            let ghost n = r@.len() as int;
            let e = self.entries.remove(0);
            r.push(e.path);
            proof {
                assert(orig.skip(n).remove(0) =~= orig.skip(n + 1));
                assert(orig.skip(n)[0] == orig[n]);
                assert(r@[n]@ == orig[n].path@);
            }
        }
        proof {
            assert(self.entries@ =~= Seq::<CacheEntry>::empty());
        }
        r
    }

    /// The hit path of `ensure`: a mapped key whose path still exists on
    /// disk is served from the cache, with no clone and no change of state;
    /// a mapped key whose path vanished loses its stale mapping and is
    /// treated as a miss.
    pub fn ensure_hit(&mut self, key: &str, cached_path_exists: bool) -> (r: Option<String>)
        requires
            old(self).inv(),
        ensures
            final(self).inv(),
            final(self).config_spec() == old(self).config_spec(),
            (r is Some) <==> (old(self).has_key(key@) && cached_path_exists),
            r is Some ==> r->0@ == old(self).path_of(key@) && *final(self) == *old(self),
            r is None ==> !final(self).has_key(key@),
    {
        let hit = self.cached_path(key);
        match hit {
            Some(p) => {
                if cached_path_exists {
                    Some(p)
                } else {
                    self.note_stale(key);
                    None
                }
            },
            None => None,
        }
    }
}

/// After any admission, the active entry count stays within
/// `max_repositories`: it is part of the cache invariant, which every
/// operation preserves.
pub proof fn lemma_entry_count_bounded(c: RepositoryCache)
    requires
        c.inv(),
    ensures
        c.entries_spec().len() <= c.config_spec().max_repositories,
{
}

} // verus!

verus! {

/// Directories that hold no source of interest and are skipped when
/// enumerating files, to bound the search space.
pub open spec fn skipped_dir_spec(name: Seq<char>) -> bool {
    ||| name == "target"@
    ||| name == "node_modules"@
    ||| name == ".git"@
    ||| name == ".github"@
    ||| name == "vendor"@
    ||| name == "third_party"@
    ||| name == "deps"@
    ||| name == "build"@
}

/// Whether a directory of this name is skipped during file enumeration.
pub fn is_skipped_dir(name: &str) -> (r: bool)
    ensures
        r == skipped_dir_spec(name@),
{
    str_eq(name, "target") || str_eq(name, "node_modules") || str_eq(name, ".git") || str_eq(
        name,
        ".github",
    ) || str_eq(name, "vendor") || str_eq(name, "third_party") || str_eq(name, "deps") || str_eq(
        name,
        "build",
    )
}

/// A path naming a Rust source file: it ends in the `.rs` extension with a
/// non-empty stem.
pub open spec fn rust_file_spec(path: Seq<char>) -> bool {
    path.len() >= 4 && path.skip(path.len() - 3) == ".rs"@ && path[path.len() - 4] != '/'
}

/// Whether the path names a Rust source file.
pub fn is_rust_file(path: &str) -> (r: bool)
    ensures
        r == rust_file_spec(path@),
{
    let v = chars_vec(path);
    let n = v.len();
    if n < 4 {
        return false;
    }
    proof {
        reveal_strlit(".rs");
        assert(v@.subrange(n - 3, n - 3 + ".rs"@.len() as int) =~= path@.skip(path@.len() - 3));
    }
    crate::text::matches_at(&v, n - 3, ".rs") && v[n - 4] != '/'
}

} // verus!
