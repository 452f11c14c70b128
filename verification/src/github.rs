//! Discovery of candidate repositories from the hosted search endpoint,
//! as a verified state machine: the caller performs one HTTP request per
//! `Request` step and hands the outcome back; every decision — paging,
//! rate-limit waits, retry backoff, the result cap — is made and proved here.
use crate::text::dec_rep;
use crate::text::parse_u64_range;
use crate::text::parse_u64_spec;
use crate::text::chars_vec;
use crate::text::u64_to_string;
use crate::RepositoryInfo;
use rand::Rng;
use vstd::prelude::*;
use vstd::string::StringExecFns;

verus! {

/// Relies on rand's Rng::random_range over an inclusive range: the sample
/// lies in the range. Nothing else is assumed of a random value.
#[verifier::external_body]
fn rand_up_to(max: u64) -> (r: u64)
    ensures
        r <= max,
{
    rand::rng().random_range(0..=max)
}

/// Relies on std's SystemTime: seconds since the Unix epoch, by the system
/// clock (zero if the clock reads before the epoch). Nothing is assumed of
/// the value.
#[verifier::external_body]
pub fn now_secs() -> u64 {
    match std::time::SystemTime::now().duration_since(std::time::UNIX_EPOCH) {
        Ok(d) => d.as_secs(),
        Err(_) => 0,
    }
}

/// Milliseconds for a count of seconds, capped at the largest wait.
fn secs_to_ms_saturating(secs: u64) -> (r: u64)
    ensures
        r == if secs * 1000 <= u64::MAX {
            secs * 1000
        } else {
            u64::MAX as int
        },
{
    if secs <= u64::MAX / 1000 {
        secs * 1000
    } else {
        u64::MAX
    }
}

/// A wait with random jitter: between the base and half as much again.
pub fn jitter_ms(ms: u64) -> (r: u64)
    ensures
        ms <= r <= ms + ms / 2,
{
    let j = rand_up_to(ms / 2);
    ms.saturating_add(j)
}

/// One repository record of a search response page, as plain values.
pub struct SearchItem {
    pub name: String,
    pub full_name: String,
    pub clone_url: String,
    pub language: Option<String>,
    pub stargazers_count: u32,
    pub size: u32,
}

/// What one page request came back with: a parsed page with its rate-limit
/// headers, a retryable rejection, or any other failure.
pub enum PageOutcome {
    Success { items: Vec<SearchItem>, rate_remaining: Option<String>, rate_reset: Option<String> },
    Throttled { retry_after: Option<String> },
    Failed { status: u16, body: String },
}

/// What the caller must do next: request a page after sleeping, collect the
/// results, or abort discovery.
pub enum SearchStep {
    Request { page: usize, per_page: usize, delay_ms: u64 },
    Done,
    Abort { status: u16, body: String },
}

/// The descriptor kept for an accepted item.
pub open spec fn item_to_repo(it: SearchItem) -> RepositoryInfo {
    RepositoryInfo {
        name: it.name,
        full_name: it.full_name,
        clone_url: it.clone_url,
        language: it.language,
        stars: it.stargazers_count,
    }
}

/// The descriptors a page contributes: items in order, near-empty
/// repositories (size of ten or below) excluded, cut off at the room left.
pub open spec fn absorb_items(items: Seq<SearchItem>, room: int) -> Seq<RepositoryInfo>
    decreases items.len(),
{
    if items.len() == 0 || room <= 0 {
        seq![]
    } else if items[0].size > 10 {
        seq![item_to_repo(items[0])] + absorb_items(items.drop_first(), room - 1)
    } else {
        absorb_items(items.drop_first(), room)
    }
}

pub proof fn lemma_absorb_items_len(items: Seq<SearchItem>, room: int)
    ensures
        absorb_items(items, room).len() <= room || room < 0,
    decreases items.len(),
{
    if items.len() == 0 || room <= 0 {
    } else if items[0].size > 10 {
        lemma_absorb_items_len(items.drop_first(), room - 1);
    } else {
        lemma_absorb_items_len(items.drop_first(), room);
    }
}

/// A paginated search in progress. Owns every decision of discovery; the
/// caller only moves bytes.
pub struct SearchSession {
    desired: usize,
    per_page: usize,
    max_pages: usize,
    page: usize,
    attempt: u32,
    min_stars: u32,
    repos: Vec<RepositoryInfo>,
}

impl SearchSession {
    /// The cap on results: at most `min(limit, 1000)` descriptors ever.
    pub closed spec fn desired_spec(&self) -> int {
        self.desired as int
    }

    pub closed spec fn repos_spec(&self) -> Seq<RepositoryInfo> {
        self.repos@
    }

    pub closed spec fn page_spec(&self) -> int {
        self.page as int
    }

    pub closed spec fn min_stars_spec(&self) -> u32 {
        self.min_stars
    }

    /// How many retries the current page has seen.
    pub closed spec fn attempt_spec(&self) -> int {
        self.attempt as int
    }

    /// The session invariant: the collected descriptors never outgrow the
    /// requested cap, and the cap never exceeds the searchable window.
    pub closed spec fn wf(&self) -> bool {
        &&& self.repos@.len() <= self.desired as int
        &&& self.desired <= 1000
        &&& 1 <= self.per_page <= 100
        &&& self.max_pages <= 10
        &&& 1 <= self.page
    }

    /// Start a search. The cap is `min(limit, 1000)`; pages hold up to 100
    /// items; at most ten pages are ever requested.
    pub fn begin(limit: usize, min_stars: u32) -> (r: (SearchSession, SearchStep))
        ensures
            r.0.wf(),
            r.0.desired_spec() == if limit < 1000 {
                limit as int
            } else {
                1000
            },
            r.0.per_page_spec() == if 0 < r.0.desired_spec() < 100 {
                r.0.desired_spec()
            } else {
                100
            },
            r.0.max_pages_spec() == if r.0.desired_spec() == 0 {
                0
            } else if (r.0.desired_spec() + r.0.per_page_spec() - 1) / r.0.per_page_spec() < 10 {
                (r.0.desired_spec() + r.0.per_page_spec() - 1) / r.0.per_page_spec()
            } else {
                10
            },
            r.0.repos_spec() == Seq::<RepositoryInfo>::empty(),
            r.0.min_stars_spec() == min_stars,
            r.0.attempt_spec() == 0,
            r.0.page_spec() == 1,
            (r.1 matches SearchStep::Done <==> limit == 0),
            limit > 0 ==> (r.1 matches SearchStep::Request { page, per_page, delay_ms }
                && page == 1 && per_page == r.0.per_page_spec() && delay_ms == 0),
    {
        let desired = if limit < 1000 {
            limit
        } else {
            1000
        };
        let per_page = if desired < 100 && desired > 0 {
            desired
        } else {
            100
        };
        let max_pages_raw = if desired == 0 {
            0
        } else {
            (desired + per_page - 1) / per_page
        };
        let max_pages = if max_pages_raw < 10 {
            max_pages_raw
        } else {
            10
        };
        let s = SearchSession {
            desired,
            per_page,
            max_pages,
            page: 1,
            attempt: 0,
            min_stars,
            repos: Vec::new(),
        };
        let step = if limit == 0 {
            SearchStep::Done
        } else {
            SearchStep::Request { page: 1, per_page, delay_ms: 0 }
        };
        (s, step)
    }

    /// The search URL for one page.
    pub fn request_url(&self, page: usize, per_page: usize) -> (r: String)
        ensures
            r@ == search_url_spec(self.min_stars_spec(), page as nat, per_page as nat),
    {
        let mut s = String::from_str(
            "https://api.github.com/search/repositories?q=language:rust+stars:>=",
        );
        let stars = u64_to_string(self.min_stars as u64);
        s.append(stars.as_str());
        s.append("+sort:stars+size:>10&sort=stars&order=desc&page=");
        let p = u64_to_string(page as u64);
        s.append(p.as_str());
        s.append("&per_page=");
        let pp = u64_to_string(per_page as u64);
        s.append(pp.as_str());
        s
    }

    /// Feed back the outcome of the page request the last step asked for.
    ///
    /// A parsed page's acceptable items join the results up to the cap, and
    /// the next step pages on, or finishes at a short page, the cap, or the
    /// page limit. A retryable rejection asks for the same page again after
    /// the server's wait or exponential backoff. Anything else aborts.
    pub fn on_response(&mut self, outcome: PageOutcome) -> (step: SearchStep)
        requires
            old(self).wf(),
        ensures
            final(self).wf(),
            final(self).desired_spec() == old(self).desired_spec(),
            final(self).min_stars_spec() == old(self).min_stars_spec(),
            match outcome {
                PageOutcome::Failed { status, body } => {
                    &&& (step matches SearchStep::Abort { status: s2, body: b2 } && s2 == status
                        && b2 == body)
                    &&& final(self).repos_spec() == old(self).repos_spec()
                },
                PageOutcome::Throttled { retry_after } => {
                    &&& (step matches SearchStep::Request { page, per_page, delay_ms } && page
                        == old(self).page_spec() && per_page == final(self).per_page_spec()
                        && throttle_wait_ok(retry_after, final(self).attempt_spec(), delay_ms))
                    &&& final(self).repos_spec() == old(self).repos_spec()
                    &&& final(self).page_spec() == old(self).page_spec()
                    &&& final(self).attempt_spec() == if old(self).attempt_spec() < u32::MAX {
                        old(self).attempt_spec() + 1
                    } else {
                        old(self).attempt_spec()
                    }
                },
                PageOutcome::Success { items, .. } => {
                    &&& final(self).attempt_spec() == 0
                    &&& final(self).repos_spec() == old(self).repos_spec() + absorb_items(
                        items@,
                        old(self).desired_spec() - old(self).repos_spec().len(),
                    )
                    &&& (step matches SearchStep::Done || (step
                        matches SearchStep::Request { page, per_page, delay_ms } && page == old(
                        self,
                    ).page_spec() + 1 && per_page == final(self).per_page_spec() && delay_ms >= 2200))
                    &&& ((step matches SearchStep::Done) <==> (items@.len()
                        < final(self).per_page_spec() || final(self).repos_spec().len()
                        >= final(self).desired_spec() || old(self).page_spec() + 1
                        > final(self).max_pages_spec()))
                },
            },
    {
        match outcome {
            PageOutcome::Failed { status, body } => SearchStep::Abort { status, body },
            PageOutcome::Throttled { retry_after } => {
                self.attempt = if self.attempt < u32::MAX {
                    self.attempt + 1
                } else {
                    self.attempt
                };
                let delay_ms = match parse_header_u64(&retry_after) {
                    Some(sec) => jitter_ms(secs_to_ms_saturating(sec)),
                    None => {
                        let capped: u32 = if self.attempt < 6 {
                            self.attempt
                        } else {
                            6
                        };
                        let backoff: u64 = 1u64 << (capped as u64);
                        proof {
                            let c = capped as u64;
                            assert(1u64 << c <= 64) by (bit_vector)
                                requires
                                    c <= 6,
                            ;
                        }
                        jitter_ms(backoff * 1000)
                    },
                };
                SearchStep::Request { page: self.page, per_page: self.per_page, delay_ms }
            },
            PageOutcome::Success { items, rate_remaining, rate_reset } => {
                let mut rate_wait_ms: u64 = 0;
                match (parse_header_u64(&rate_remaining), parse_header_u64(&rate_reset)) {
                    (Some(rem), Some(reset)) => {
                        if rem == 0 {
                            let wait = reset.saturating_sub(now_secs());
                            rate_wait_ms = secs_to_ms_saturating(wait);
                        }
                    },
                    _ => {},
                }
                let items_len = items.len();
                self.absorb(&items);
                self.attempt = 0;
                if items_len < self.per_page {
                    return SearchStep::Done;
                }
                self.page = if self.page < usize::MAX {
                    self.page + 1
                } else {
                    self.page
                };
                if self.repos.len() < self.desired && self.page <= self.max_pages {
                    let delay_ms = jitter_ms(rate_wait_ms.saturating_add(2200));
                    SearchStep::Request { page: self.page, per_page: self.per_page, delay_ms }
                } else {
                    SearchStep::Done
                }
            },
        }
    }

    pub closed spec fn per_page_spec(&self) -> int {
        self.per_page as int
    }

    pub closed spec fn max_pages_spec(&self) -> int {
        self.max_pages as int
    }

    /// Append a page's acceptable items, never beyond the cap.
    fn absorb(&mut self, items: &Vec<SearchItem>)
        requires
            old(self).wf(),
        ensures
            final(self).wf(),
            final(self).repos@ == old(self).repos@ + absorb_items(
                items@,
                old(self).desired as int - old(self).repos@.len(),
            ),
            final(self).desired == old(self).desired,
            final(self).per_page == old(self).per_page,
            final(self).max_pages == old(self).max_pages,
            final(self).page == old(self).page,
            final(self).attempt == old(self).attempt,
            final(self).min_stars == old(self).min_stars,
    {
        let ghost orig = self.repos@;
        let mut i: usize = 0;
        proof {
            assert(items@.skip(0) =~= items@);
            assert(orig + absorb_items(items@, self.desired as int - orig.len()) =~= orig
                + absorb_items(items@.skip(0), self.desired as int - self.repos@.len()));
        }
        while i < items.len() && self.repos.len() < self.desired
            invariant
                0 <= i <= items@.len(),
                self.repos@.len() <= self.desired as int,
                self.desired == old(self).desired,
                self.per_page == old(self).per_page,
                self.max_pages == old(self).max_pages,
                self.page == old(self).page,
                self.attempt == old(self).attempt,
                self.min_stars == old(self).min_stars,
                old(self).wf(),
                orig == old(self).repos@,
                orig + absorb_items(items@, old(self).desired as int - orig.len())
                    == self.repos@ + absorb_items(
                    items@.skip(i as int),
                    self.desired as int - self.repos@.len(),
                ),
            decreases items@.len() - i,
        {
            let ghost rest = items@.skip(i as int);
            proof {
                assert(rest[0] == items@[i as int]);
                assert(rest.drop_first() =~= items@.skip(i + 1));
            }
            let it = &items[i];
            if it.size > 10 {
                let ghost repos_old = self.repos@;
                let repo = RepositoryInfo {
                    name: it.name.clone(),
                    full_name: it.full_name.clone(),
                    clone_url: it.clone_url.clone(),
                    language: match &it.language {
                        Some(l) => Some(l.clone()),
                        None => None,
                    },
                    stars: it.stargazers_count,
                };
                proof {
                    assert(repo == item_to_repo(items@[i as int]));
                }
                self.repos.push(repo);
                proof {
                    assert(self.repos@ =~= repos_old.push(item_to_repo(items@[i as int])));
                    assert(absorb_items(rest, self.desired as int - repos_old.len()) == seq![
                        item_to_repo(items@[i as int]),
                    ] + absorb_items(items@.skip(i + 1), self.desired as int - repos_old.len() - 1));
                    assert(repos_old + absorb_items(rest, self.desired as int - repos_old.len())
                        =~= self.repos@ + absorb_items(
                        items@.skip(i + 1),
                        self.desired as int - self.repos@.len(),
                    ));
                }
            } else {
                proof {
                    assert(absorb_items(rest, self.desired as int - self.repos@.len())
                        == absorb_items(items@.skip(i + 1), self.desired as int - self.repos@.len()));
                }
            }
            i += 1;
        }
        proof {
            let rest = items@.skip(i as int);
            if i == items@.len() {
                assert(rest =~= Seq::<SearchItem>::empty());
                assert(absorb_items(rest, self.desired as int - self.repos@.len())
                    =~= Seq::<RepositoryInfo>::empty());
            } else {
                assert(self.repos@.len() >= self.desired as int);
                assert(absorb_items(rest, self.desired as int - self.repos@.len())
                    =~= Seq::<RepositoryInfo>::empty());
            }
            assert(self.repos@ + Seq::<RepositoryInfo>::empty() =~= self.repos@);
        }
    }

    /// Hand out the collected descriptors: at most `min(limit, 1000)` of
    /// them, the cap fixed when the session began.
    pub fn finish(self) -> (r: Vec<RepositoryInfo>)
        requires
            self.wf(),
        ensures
            r@ == self.repos_spec(),
            r@.len() <= self.desired_spec() <= 1000,
    {
        self.repos
    }
}

/// Discovery returns at most `min(limit, 1000)` descriptors: the cap is
/// fixed when the session begins, and no step grows the collection beyond
/// it.
pub proof fn lemma_discovery_capped(s: SearchSession, limit: usize)
    requires
        s.wf(),
        s.desired_spec() == if limit < 1000 {
            limit as int
        } else {
            1000
        },
    ensures
        s.repos_spec().len() <= limit,
        s.repos_spec().len() <= 1000,
{
}

/// The wait a retryable rejection earns: the server's Retry-After seconds
/// when it sent one, else exponential backoff at two to the retry count,
/// capped at 64 seconds; either way with jitter of up to half as much
/// again.
pub open spec fn throttle_wait_ok(retry_after: Option<String>, attempt: int, delay_ms: u64) -> bool {
    let base: u64 = match retry_after {
        Some(s) => match parse_u64_spec(s@) {
            Some(sec) => if sec * 1000 <= u64::MAX {
                (sec * 1000) as u64
            } else {
                u64::MAX
            },
            None => backoff_base_ms(attempt),
        },
        None => backoff_base_ms(attempt),
    };
    base <= delay_ms <= base + base / 2
}

/// The exponential backoff base in milliseconds for a retry count.
pub open spec fn backoff_base_ms(attempt: int) -> u64 {
    let capped: u64 = if attempt < 6 {
        attempt as u64
    } else {
        6
    };
    ((1u64 << capped) * 1000) as u64
}

/// The text of the page request the session issues.
pub open spec fn search_url_spec(min_stars: u32, page: nat, per_page: nat) -> Seq<char> {
    "https://api.github.com/search/repositories?q=language:rust+stars:>="@ + dec_rep(
        min_stars as nat,
    ) + "+sort:stars+size:>10&sort=stars&order=desc&page="@ + dec_rep(page) + "&per_page="@
        + dec_rep(per_page)
}

/// Parse a rate-limit or retry header value as a number, as the endpoint's
/// decimal text; anything else reads as absent.
fn parse_header_u64(h: &Option<String>) -> (r: Option<u64>)
    ensures
        r == match h {
            Some(s) => parse_u64_spec(s@),
            None => None::<u64>,
        },
{
    match h {
        Some(s) => {
            let v = chars_vec(s.as_str());
            let n = v.len();
            proof {
                assert(v@.subrange(0, v@.len() as int) =~= s@);
            }
            parse_u64_range(&v, 0, n)
        },
        None => None,
    }
}

/// The discovery client: holds the optional bearer credential the caller
/// sends with each page request.
#[derive(Clone)]
pub struct GitHubClient {
    pub token: Option<String>,
}

impl GitHubClient {
    pub fn new(token: Option<String>) -> (r: Self)
        ensures
            r.token == token,
    {
        GitHubClient { token }
    }
}

} // verus!
