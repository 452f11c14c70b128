//! Verified character and string utilities: the library's own model of
//! lines, trimming, substring search and decimal numbers, over `Seq<char>`.
use vstd::prelude::*;
use vstd::string::StrSliceExecFns;
use vstd::string::StringExecFns;

verus! {

/// What `char::is_whitespace` returns: a fixed function of the character,
/// given by the Unicode `White_Space` property.
pub uninterp spec fn white_space(c: char) -> bool;

/// What `char::is_alphanumeric` returns: a fixed function of the character,
/// given by the Unicode `Alphabetic` and `Number` properties.
pub uninterp spec fn alphanumeric(c: char) -> bool;

/// Relies on char::is_whitespace: whether the character has the Unicode
/// `White_Space` property. The result depends on the character alone.
#[verifier::external_body]
pub fn char_is_whitespace(c: char) -> (r: bool)
    ensures
        r == white_space(c),
{
    c.is_whitespace()
}

/// Relies on char::is_alphanumeric: whether the character is alphabetic or
/// numeric in Unicode. The result depends on the character alone.
#[verifier::external_body]
pub fn char_is_alphanumeric(c: char) -> (r: bool)
    ensures
        r == alphanumeric(c),
{
    c.is_alphanumeric()
}

/// Relies on String::from_iter over std's char iterator: collecting characters
/// in order yields the string of exactly those characters.
#[verifier::external_body]
pub fn string_from_chars(v: &Vec<char>) -> (s: String)
    ensures
        s@ == v@,
{
    v.iter().collect()
}

/// The characters of a string, as an indexable vector.
pub fn chars_vec(s: &str) -> (v: Vec<char>)
    ensures
        v@ == s@,
{
    let n = s.unicode_len();
    let mut v: Vec<char> = Vec::new();
    let mut i: usize = 0;
    while i < n
        invariant
            i <= n,
            n == s@.len(),
            v@ == s@.take(i as int),
        decreases n - i,
    {
        let c = s.get_char(i);
        v.push(c);
        proof {
            assert(s@.take(i + 1 as int) =~= s@.take(i as int).push(s@[i as int]));
        }
        i += 1;
    }
    proof {
        assert(s@.take(n as int) =~= s@);
    }
    v
}

/// First index of `c` in `v[from..to]`, if any.
pub fn find_char_in(v: &Vec<char>, from: usize, to: usize, c: char) -> (r: Option<usize>)
    requires
        from <= to <= v@.len(),
    ensures
        match r {
            Some(j) => from <= j < to && v@[j as int] == c && (forall|k: int|
                from <= k < j ==> v@[k] != c),
            None => forall|k: int| from <= k < to ==> v@[k] != c,
        },
{
    let mut i = from;
    while i < to
        invariant
            from <= i <= to <= v@.len(),
            forall|k: int| from <= k < i ==> v@[k] != c,
        decreases to - i,
    {
        if v[i] == c {
            return Some(i);
        }
        i += 1;
    }
    None
}

/// Whether `pat` occurs anywhere in `v[from..to]`.
pub fn contains_range(v: &Vec<char>, from: usize, to: usize, pat: &str) -> (r: bool)
    requires
        from <= to <= v@.len(),
    ensures
        r == contains_seq(v@.subrange(from as int, to as int), pat@),
{
    let ghost s = v@.subrange(from as int, to as int);
    let m = pat.unicode_len();
    if m == 0 {
        proof {
            assert(s.subrange(0, 0 + pat@.len() as int) =~= pat@);
            assert(contains_seq(s, pat@));
        }
        return true;
    }
    if m > to - from {
        proof {
            if contains_seq(s, pat@) {
                let i = choose|i: int|
                    0 <= i && i + pat@.len() <= s.len() && #[trigger] s.subrange(
                        i,
                        i + pat@.len(),
                    ) == pat@;
                assert(false);
            }
        }
        return false;
    }
    let mut i: usize = from;
    while i <= to - m
        invariant
            from <= i <= to - m + 1,
            s == v@.subrange(from as int, to as int),
            m == pat@.len(),
            1 <= m <= to - from,
            to <= v@.len(),
            forall|k: int|
                0 <= k < i - from ==> #[trigger] s.subrange(k, k + pat@.len()) != pat@,
        decreases to - m - i + 1,
    {
        if matches_at(v, i, pat) {
            proof {
                assert(s.subrange(i - from, i - from + pat@.len()) =~= v@.subrange(
                    i as int,
                    i + pat@.len(),
                ));
            }
            return true;
        }
        proof {
            assert(s.subrange(i - from, i - from + pat@.len()) =~= v@.subrange(
                i as int,
                i + pat@.len(),
            ));
        }
        i += 1;
    }
    proof {
        if contains_seq(s, pat@) {
            let j = choose|j: int|
                0 <= j && j + pat@.len() <= s.len() && #[trigger] s.subrange(
                    j,
                    j + pat@.len(),
                ) == pat@;
            assert(s.subrange(j, j + pat@.len()) != pat@);
        }
    }
    false
}

/// The substring `s[a..b]` (character indices) as an owned string.
pub fn range_to_string(s: &str, a: usize, b: usize) -> (r: String)
    requires
        a <= b <= s@.len(),
    ensures
        r@ == s@.subrange(a as int, b as int),
{
    let sub = s.substring_char(a, b);
    String::from_str(sub)
}

/// Whether the characters of `v` from `at` on start with the pattern `pat`.
pub fn matches_at(v: &Vec<char>, at: usize, pat: &str) -> (r: bool)
    requires
        at <= v@.len(),
    ensures
        r == (at + pat@.len() <= v@.len() && v@.subrange(
            at as int,
            at + pat@.len(),
        ) == pat@),
{
    let m = pat.unicode_len();
    if v.len() - at < m {
        return false;
    }
    let end = at + m;
    let mut i: usize = 0;
    while i < m
        invariant
            0 <= i <= m,
            m == pat@.len(),
            end == at + m,
            end <= v@.len(),
            forall|k: int| 0 <= k < i ==> v@[at + k] == pat@[k],
        decreases m - i,
    {
        let j = at + i;
        if v[j] != pat.get_char(i) {
            proof {
                assert(v@.subrange(at as int, at + pat@.len())[i as int] == v@[at + i]);
            }
            return false;
        }
        i += 1;
    }
    proof {
        assert(v@.subrange(at as int, at + pat@.len()) =~= pat@);
    }
    true
}

/// The pattern occurs somewhere in `s`.
pub open spec fn contains_seq(s: Seq<char>, pat: Seq<char>) -> bool {
    exists|i: int|
        0 <= i && i + pat.len() <= s.len() && #[trigger] s.subrange(i, i + pat.len()) == pat
}

/// Whether `pat` occurs anywhere in `v`.
pub fn contains_sub(v: &Vec<char>, pat: &str) -> (r: bool)
    ensures
        r == contains_seq(v@, pat@),
{
    let m = pat.unicode_len();
    if m == 0 {
        proof {
            assert(v@.subrange(0, 0 + pat@.len() as int) =~= pat@);
            assert(contains_seq(v@, pat@));
        }
        return true;
    }
    if m > v.len() {
        proof {
            if contains_seq(v@, pat@) {
                let i = choose|i: int|
                    0 <= i && i + pat@.len() <= v@.len() && #[trigger] v@.subrange(
                        i,
                        i + pat@.len(),
                    ) == pat@;
                assert(false);
            }
        }
        return false;
    }
    let n = v.len();
    let mut i: usize = 0;
    while i <= n - m
        invariant
            0 <= i <= v@.len() - m + 1,
            n == v@.len(),
            m == pat@.len(),
            1 <= m <= v@.len(),
            forall|k: int| 0 <= k < i ==> #[trigger] v@.subrange(k, k + pat@.len()) != pat@,
        decreases v@.len() - m - i + 1,
    {
        if matches_at(v, i, pat) {
            return true;
        }
        i += 1;
    }
    proof {
        if contains_seq(v@, pat@) {
            let j = choose|j: int|
                0 <= j && j + pat@.len() <= v@.len() && #[trigger] v@.subrange(
                    j,
                    j + pat@.len(),
                ) == pat@;
            assert(v@.subrange(j, j + pat@.len()) != pat@);
        }
    }
    false
}

/// How many characters of `v` equal `c`.
pub open spec fn count_char(s: Seq<char>, c: char) -> nat
    decreases s.len(),
{
    if s.len() == 0 {
        0
    } else {
        count_char(s.drop_last(), c) + if s.last() == c {
            1nat
        } else {
            0nat
        }
    }
}

pub proof fn lemma_count_char_bound(s: Seq<char>, c: char)
    ensures
        count_char(s, c) <= s.len(),
    decreases s.len(),
{
    if s.len() > 0 {
        lemma_count_char_bound(s.drop_last(), c);
    }
}

/// Count the occurrences of the character `c` in `v`.
pub fn count_char_occurrences(v: &Vec<char>, c: char) -> (r: usize)
    ensures
        r == count_char(v@, c),
{
    proof {
        lemma_count_char_bound(v@, c);
    }
    let mut i: usize = 0;
    let mut n: usize = 0;
    while i < v.len()
        invariant
            0 <= i <= v@.len(),
            n == count_char(v@.take(i as int), c),
            n <= i,
        decreases v@.len() - i,
    {
        proof {
            assert(v@.take(i + 1 as int).drop_last() =~= v@.take(i as int));
            assert(v@.take(i + 1 as int).last() == v@[i as int]);
        }
        if v[i] == c {
            n += 1;
        }
        i += 1;
    }
    proof {
        assert(v@.take(v@.len() as int) =~= v@);
    }
    n
}

/// How many non-overlapping occurrences of `pat` the scan from the left
/// finds in `s` (what `str::matches(pat).count()` reports).
pub open spec fn count_matches(s: Seq<char>, pat: Seq<char>) -> nat
    decreases s.len(),
{
    if pat.len() == 0 || s.len() < pat.len() {
        0
    } else if s.take(pat.len() as int) == pat {
        1 + count_matches(s.skip(pat.len() as int), pat)
    } else {
        count_matches(s.skip(1), pat)
    }
}

pub proof fn lemma_count_matches_bound(s: Seq<char>, pat: Seq<char>)
    ensures
        count_matches(s, pat) <= s.len(),
    decreases s.len(),
{
    if pat.len() == 0 || s.len() < pat.len() {
    } else if s.take(pat.len() as int) == pat {
        lemma_count_matches_bound(s.skip(pat.len() as int), pat);
    } else {
        lemma_count_matches_bound(s.skip(1), pat);
    }
}

/// Count the non-overlapping occurrences of `pat` in `v`, scanning from
/// the left.
pub fn count_matches_exec(v: &Vec<char>, pat: &str) -> (r: usize)
    requires
        pat@.len() > 0,
    ensures
        r == count_matches(v@, pat@),
{
    proof {
        lemma_count_matches_bound(v@, pat@);
    }
    let m = pat.unicode_len();
    let mut i: usize = 0;
    let mut n: usize = 0;
    proof {
        assert(v@.skip(0) =~= v@);
    }
    while i < v.len()
        invariant
            0 <= i <= v@.len(),
            m == pat@.len(),
            m > 0,
            count_matches(v@, pat@) == n + count_matches(v@.skip(i as int), pat@),
            n <= i,
        decreases v@.len() - i,
    {
        let ghost rest = v@.skip(i as int);
        if matches_at(v, i, pat) {
            proof {
                assert(rest.take(pat@.len() as int) =~= v@.subrange(
                    i as int,
                    i + pat@.len(),
                ));
                assert(rest.skip(pat@.len() as int) =~= v@.skip(i + pat@.len()));
            }
            n += 1;
            i += m;
        } else {
            proof {
                if rest.len() >= pat@.len() {
                    assert(rest.take(pat@.len() as int) =~= v@.subrange(
                        i as int,
                        i + pat@.len(),
                    ));
                }
                assert(rest.skip(1) =~= v@.skip(i + 1));
            }
            i += 1;
        }
    }
    proof {
        assert(v@.skip(i as int).len() < pat@.len());
    }
    n
}

} // verus!

verus! {

/// Index of the first occurrence of `c` in `s`, or -1 when absent.
pub open spec fn find_char(s: Seq<char>, c: char) -> int
    decreases s.len(),
{
    if s.len() == 0 {
        -1
    } else if s[0] == c {
        0
    } else {
        let r = find_char(s.drop_first(), c);
        if r < 0 {
            -1
        } else {
            r + 1
        }
    }
}

pub proof fn lemma_find_char_props(s: Seq<char>, c: char)
    ensures
        find_char(s, c) == -1 ==> forall|k: int| 0 <= k < s.len() ==> s[k] != c,
        find_char(s, c) != -1 ==> 0 <= find_char(s, c) < s.len() && s[find_char(s, c)] == c
            && (forall|k: int| 0 <= k < find_char(s, c) ==> s[k] != c),
    decreases s.len(),
{
    if s.len() == 0 {
    } else if s[0] == c {
    } else {
        lemma_find_char_props(s.drop_first(), c);
        assert(forall|k: int| 1 <= k < s.len() ==> s[k] == s.drop_first()[k - 1]);
    }
}

/// When a witness position is known, `find_char` returns it.
pub proof fn lemma_find_char_at(s: Seq<char>, c: char, j: int)
    requires
        0 <= j < s.len(),
        s[j] == c,
        forall|k: int| 0 <= k < j ==> s[k] != c,
    ensures
        find_char(s, c) == j,
{
    lemma_find_char_props(s, c);
}

pub proof fn lemma_find_char_none(s: Seq<char>, c: char)
    requires
        forall|k: int| 0 <= k < s.len() ==> s[k] != c,
    ensures
        find_char(s, c) == -1,
{
    lemma_find_char_props(s, c);
}

/// A line as `str::lines` hands it out: without one trailing carriage return.
pub open spec fn strip_cr(l: Seq<char>) -> Seq<char> {
    if l.len() > 0 && l.last() == '\r' {
        l.drop_last()
    } else {
        l
    }
}

/// The lines of `s`, split on newline characters, each without a trailing
/// carriage return; a trailing newline produces no final empty line
/// (the behaviour of `str::lines`).
pub open spec fn split_lines(s: Seq<char>) -> Seq<Seq<char>>
    decreases s.len(),
    via split_lines_decreases
{
    if s.len() == 0 {
        Seq::empty()
    } else {
        let i = find_char(s, '\n');
        if i < 0 {
            seq![strip_cr(s)]
        } else {
            seq![strip_cr(s.take(i))] + split_lines(s.skip(i + 1))
        }
    }
}

#[via_fn]
proof fn split_lines_decreases(s: Seq<char>) {
    lemma_find_char_props(s, '\n');
}

/// Unfolding rule for `split_lines` at an explicit first newline position.
pub proof fn lemma_split_lines_step(s: Seq<char>, j: int)
    requires
        0 <= j < s.len(),
        s[j] == '\n',
        forall|k: int| 0 <= k < j ==> s[k] != '\n',
    ensures
        split_lines(s) == seq![strip_cr(s.take(j))] + split_lines(s.skip(j + 1)),
{
    lemma_find_char_at(s, '\n', j);
}

pub proof fn lemma_split_lines_last(s: Seq<char>)
    requires
        s.len() > 0,
        forall|k: int| 0 <= k < s.len() ==> s[k] != '\n',
    ensures
        split_lines(s) == seq![strip_cr(s)],
{
    lemma_find_char_none(s, '\n');
}

/// Each entry of `r` bounds one line of `v`: `split_lines(v)[i]` is
/// `v.subrange(r[i].0, r[i].1)`.
pub open spec fn valid_line_ranges(v: Seq<char>, r: Seq<(usize, usize)>) -> bool {
    forall|i: int|
        0 <= i < r.len() ==> (#[trigger] r[i]).0 <= r[i].1 <= v.len() && v.subrange(
            r[i].0 as int,
            r[i].1 as int,
        ) == split_lines(v)[i]
}

proof fn lemma_line_ranges_push(
    v: Seq<char>,
    r_old: Seq<(usize, usize)>,
    r_new: Seq<(usize, usize)>,
    p: usize,
    e: usize,
)
    requires
        r_new == r_old.push((p, e)),
        p <= e <= v.len(),
        v.subrange(p as int, e as int) == split_lines(v)[r_old.len() as int],
        valid_line_ranges(v, r_old),
    ensures
        valid_line_ranges(v, r_new),
{
    assert forall|i: int|
        0 <= i < r_new.len() implies (#[trigger] r_new[i]).0 <= r_new[i].1 <= v.len()
        && v.subrange(r_new[i].0 as int, r_new[i].1 as int) == split_lines(v)[i] by {
        if i < r_old.len() {
            assert(r_new[i] == r_old[i]);
            assert(r_old[i].0 <= r_old[i].1 <= v.len() && v.subrange(
                r_old[i].0 as int,
                r_old[i].1 as int,
            ) == split_lines(v)[i]);
        } else {
            assert(r_new[i] == (p, e));
        }
    }
}

/// The boundaries of each line of `v`: `split_lines(v@)[i]` is
/// `v@.subrange(r[i].0, r[i].1)`.
pub fn split_lines_ranges(v: &Vec<char>) -> (r: Vec<(usize, usize)>)
    ensures
        r@.len() == split_lines(v@).len(),
        valid_line_ranges(v@, r@),
{
    let mut r: Vec<(usize, usize)> = Vec::new();
    let mut pos: usize = 0;
    proof {
        assert(v@.skip(0) =~= v@);
    }
    while pos < v.len()
        invariant
            0 <= pos <= v@.len(),
            r@.len() <= split_lines(v@).len(),
            valid_line_ranges(v@, r@),
            split_lines(v@).skip(r@.len() as int) == split_lines(v@.skip(pos as int)),
        decreases v@.len() - pos,
    {
        let ghost t = v@.skip(pos as int);
        match find_char_in(v, pos, v.len(), '\n') {
            Some(j) => {
                let end = if j > pos && v[j - 1] == '\r' {
                    j - 1
                } else {
                    j
                };
                proof {
                    assert(forall|k: int| 0 <= k < j - pos ==> t[k] == v@[pos + k]);
                    lemma_split_lines_step(t, j - pos);
                    assert(t.take(j - pos) =~= v@.subrange(pos as int, j as int));
                    assert(t.skip(j - pos + 1) =~= v@.skip(j + 1));
                    assert(strip_cr(v@.subrange(pos as int, j as int)) =~= v@.subrange(
                        pos as int,
                        end as int,
                    ));
                    let lines = split_lines(v@);
                    let n = r@.len() as int;
                    assert(lines.skip(n) == seq![v@.subrange(pos as int, end as int)]
                        + split_lines(v@.skip(j + 1)));
                    assert(lines.skip(n).len() == lines.len() - n);
                    assert(n < lines.len());
                    assert(lines[n] == lines.skip(n)[0]);
                    assert((seq![v@.subrange(pos as int, end as int)] + split_lines(
                        v@.skip(j + 1),
                    ))[0] =~= v@.subrange(pos as int, end as int));
                    assert(lines[n] =~= v@.subrange(pos as int, end as int));
                    assert(lines.skip(n + 1) =~= lines.skip(n).skip(1));
                    assert(lines.skip(n).skip(1) =~= split_lines(v@.skip(j + 1)));
                }
                let ghost r_old = r@;
                r.push((pos, end));
                proof {
                    lemma_line_ranges_push(v@, r_old, r@, pos, end);
                }
                pos = j + 1;
            },
            None => {
                let end = if v.len() > pos && v[v.len() - 1] == '\r' {
                    v.len() - 1
                } else {
                    v.len()
                };
                proof {
                    assert(forall|k: int| 0 <= k < t.len() ==> t[k] == v@[pos + k]);
                    lemma_split_lines_last(t);
                    assert(t =~= v@.subrange(pos as int, v@.len() as int));
                    assert(strip_cr(t) =~= v@.subrange(pos as int, end as int));
                    let lines = split_lines(v@);
                    let n = r@.len() as int;
                    assert(lines.skip(n) == seq![v@.subrange(pos as int, end as int)]);
                    assert(lines.skip(n).len() == lines.len() - n);
                    assert(n < lines.len());
                    assert(lines[n] == lines.skip(n)[0]);
                    assert(seq![v@.subrange(pos as int, end as int)][0] =~= v@.subrange(
                        pos as int,
                        end as int,
                    ));
                    assert(lines[n] =~= v@.subrange(pos as int, end as int));
                    assert(lines.skip(n + 1) =~= lines.skip(n).skip(1));
                    assert(split_lines(v@.skip(v@.len() as int)) =~= Seq::<Seq<char>>::empty());
                    assert(lines.skip(n + 1) =~= split_lines(v@.skip(v@.len() as int)));
                }
                let ghost r_old = r@;
                r.push((pos, end));
                proof {
                    lemma_line_ranges_push(v@, r_old, r@, pos, end);
                }
                pos = v.len();
            },
        }
    }
    proof {
        assert(v@.skip(v@.len() as int) =~= Seq::<char>::empty());
        assert(split_lines(v@).skip(r@.len() as int).len() == 0);
        assert(r@.len() == split_lines(v@).len());
    }
    r
}

} // verus!

verus! {

/// `s` without leading whitespace.
pub open spec fn trim_start_spec(s: Seq<char>) -> Seq<char>
    decreases s.len(),
{
    if s.len() > 0 && white_space(s[0]) {
        trim_start_spec(s.drop_first())
    } else {
        s
    }
}

/// `s` without trailing whitespace.
pub open spec fn trim_end_spec(s: Seq<char>) -> Seq<char>
    decreases s.len(),
{
    if s.len() > 0 && white_space(s.last()) {
        trim_end_spec(s.drop_last())
    } else {
        s
    }
}

/// `s` without leading and trailing whitespace (what `str::trim` returns).
pub open spec fn trim_spec(s: Seq<char>) -> Seq<char> {
    trim_end_spec(trim_start_spec(s))
}

pub proof fn lemma_trim_start_skip(s: Seq<char>, k: int)
    requires
        0 <= k <= s.len(),
        forall|j: int| 0 <= j < k ==> white_space(s[j]),
        k == s.len() || !white_space(s[k]),
    ensures
        trim_start_spec(s) == s.skip(k),
    decreases k,
{
    if k == 0 {
        assert(s.skip(0) =~= s);
    } else {
        let t = s.drop_first();
        assert(forall|j: int| 0 <= j < k - 1 ==> t[j] == s[j + 1]);
        lemma_trim_start_skip(t, k - 1);
        assert(t.skip(k - 1) =~= s.skip(k));
    }
}

proof fn lemma_trim_end_take(s: Seq<char>, k: int)
    requires
        0 <= k <= s.len(),
        forall|j: int| k <= j < s.len() ==> white_space(s[j]),
        k == 0 || !white_space(s[k - 1]),
    ensures
        trim_end_spec(s) == s.take(k),
    decreases s.len(),
{
    if k == s.len() {
        assert(s.take(k) =~= s);
    } else {
        let t = s.drop_last();
        assert(forall|j: int| 0 <= j < t.len() ==> t[j] == s[j]);
        lemma_trim_end_take(t, k);
        assert(t.take(k) =~= s.take(k));
    }
}

/// The subrange of `v` left when whitespace is trimmed from both ends of
/// `v[start..end]`.
pub fn trim_range(v: &Vec<char>, start: usize, end: usize) -> (r: (usize, usize))
    requires
        start <= end <= v@.len(),
    ensures
        start <= r.0 <= r.1 <= end,
        v@.subrange(r.0 as int, r.1 as int) == trim_spec(
            v@.subrange(start as int, end as int),
        ),
{
    let mut a = start;
    loop
        invariant
            start <= a <= end <= v@.len(),
            forall|j: int| start <= j < a ==> white_space(v@[j]),
        ensures
            start <= a <= end,
            forall|j: int| start <= j < a ==> white_space(v@[j]),
            a == end || !white_space(v@[a as int]),
        decreases end - a,
    {
        if a == end {
            break;
        }
        if !char_is_whitespace(v[a]) {
            break;
        }
        a += 1;
    }
    let mut b = end;
    loop
        invariant
            a <= b <= end,
            end <= v@.len(),
            forall|j: int| b <= j < end ==> white_space(v@[j]),
        ensures
            a <= b <= end,
            forall|j: int| b <= j < end ==> white_space(v@[j]),
            b == a || !white_space(v@[b - 1]),
        decreases b,
    {
        if b == a {
            break;
        }
        if !char_is_whitespace(v[b - 1]) {
            break;
        }
        b -= 1;
    }
    proof {
        let s = v@.subrange(start as int, end as int);
        assert(forall|j: int| 0 <= j < s.len() ==> s[j] == v@[start + j]);
        lemma_trim_start_skip(s, a - start);
        assert(trim_start_spec(s) == s.skip(a - start));
        let t = v@.subrange(a as int, end as int);
        assert(s.skip(a - start) =~= t);
        assert(forall|j: int| 0 <= j < t.len() ==> t[j] == v@[a + j]);
        lemma_trim_end_take(t, b - a);
        assert(trim_end_spec(t) == t.take(b - a));
        assert(t.take(b - a) =~= v@.subrange(a as int, b as int));
    }
    (a, b)
}

/// The decimal digit character for a value below ten.
pub open spec fn dec_digit(d: int) -> char {
    if d == 0 {
        '0'
    } else if d == 1 {
        '1'
    } else if d == 2 {
        '2'
    } else if d == 3 {
        '3'
    } else if d == 4 {
        '4'
    } else if d == 5 {
        '5'
    } else if d == 6 {
        '6'
    } else if d == 7 {
        '7'
    } else if d == 8 {
        '8'
    } else {
        '9'
    }
}

/// The decimal representation of `n`, most significant digit first, with
/// no leading zeros (a single zero for zero itself).
pub open spec fn dec_rep(n: nat) -> Seq<char>
    decreases n,
{
    if n < 10 {
        seq![dec_digit(n as int)]
    } else {
        dec_rep(n / 10).push(dec_digit((n % 10) as int))
    }
}

fn digit_char(d: u64) -> (c: char)
    requires
        d < 10,
    ensures
        c == dec_digit(d as int),
{
    match d {
        0 => '0',
        1 => '1',
        2 => '2',
        3 => '3',
        4 => '4',
        5 => '5',
        6 => '6',
        7 => '7',
        8 => '8',
        _ => '9',
    }
}

/// The decimal text of `x`.
pub fn u64_to_string(x: u64) -> (s: String)
    ensures
        s@ == dec_rep(x as nat),
{
    let mut digits: Vec<char> = Vec::new();
    let mut n = x;
    while n >= 10
        invariant
            dec_rep(x as nat) == dec_rep(n as nat) + digits@.reverse(),
        decreases n,
    {
        let d = digit_char(n % 10);
        proof {
            assert(dec_rep(n as nat) == dec_rep((n as nat) / 10).push(dec_digit(
                ((n as nat) % 10) as int,
            )));
            assert(dec_rep((n as nat) / 10).push(dec_digit(((n as nat) % 10) as int))
                =~= dec_rep((n as nat) / 10) + seq![dec_digit(((n as nat) % 10) as int)]);
            assert(digits@.push(dec_digit(((n as nat) % 10) as int)).reverse() =~= seq![
                dec_digit(((n as nat) % 10) as int),
            ] + digits@.reverse());
            assert((dec_rep((n as nat) / 10) + seq![dec_digit(((n as nat) % 10) as int)])
                + digits@.reverse() =~= dec_rep((n as nat) / 10) + (seq![
                dec_digit(((n as nat) % 10) as int),
            ] + digits@.reverse()));
        }
        digits.push(d);
        n = n / 10;
    }
    let d = digit_char(n);
    proof {
        assert(dec_rep(n as nat) == seq![dec_digit(n as int)]);
        assert(digits@.push(dec_digit(n as int)).reverse() =~= seq![dec_digit(n as int)]
            + digits@.reverse());
    }
    digits.push(d);
    let ghost rev = digits@.reverse();
    let mut out: Vec<char> = Vec::new();
    let mut i = digits.len();
    while i > 0
        invariant
            0 <= i <= digits@.len(),
            out@ =~= digits@.reverse().take(digits@.len() - i),
        decreases i,
    {
        i -= 1;
        let c = digits[i];
        proof {
            assert(digits@.reverse()[digits@.len() - 1 - i] == digits@[i as int]);
            assert(digits@.reverse().take(digits@.len() - i) =~= digits@.reverse().take(
                digits@.len() - i - 1,
            ).push(digits@.reverse()[digits@.len() - 1 - i]));
        }
        out.push(c);
    }
    proof {
        assert(digits@.reverse().take(digits@.len() as int) =~= digits@.reverse());
    }
    string_from_chars(&out)
}

/// A decimal digit character.
pub open spec fn is_dec_digit(c: char) -> bool {
    48 <= c as u32 <= 57
}

/// The numeric value of a digit character.
pub open spec fn digit_val(c: char) -> int {
    c as u32 - 48
}

/// The number the digit string `s` denotes.
pub open spec fn dec_value(s: Seq<char>) -> int
    decreases s.len(),
{
    if s.len() == 0 {
        0
    } else {
        dec_value(s.drop_last()) * 10 + digit_val(s.last())
    }
}

pub open spec fn all_dec_digits(s: Seq<char>) -> bool {
    forall|k: int| 0 <= k < s.len() ==> is_dec_digit(#[trigger] s[k])
}

/// What `str::parse::<u64>` returns: the denoted number, for a non-empty
/// string of digits (after one optional leading plus sign) whose value fits.
pub open spec fn parse_u64_spec(s: Seq<char>) -> Option<u64> {
    let t = if s.len() > 0 && s[0] == '+' {
        s.drop_first()
    } else {
        s
    };
    if t.len() > 0 && all_dec_digits(t) && dec_value(t) <= u64::MAX {
        Some(dec_value(t) as u64)
    } else {
        None
    }
}

proof fn lemma_dec_value_nonneg(s: Seq<char>)
    requires
        all_dec_digits(s),
    ensures
        dec_value(s) >= 0,
    decreases s.len(),
{
    if s.len() > 0 {
        assert(forall|k: int| 0 <= k < s.len() - 1 ==> s.drop_last()[k] == s[k]);
        lemma_dec_value_nonneg(s.drop_last());
    }
}

proof fn lemma_dec_value_grows(s: Seq<char>, i: int)
    requires
        all_dec_digits(s),
        0 <= i <= s.len(),
    ensures
        dec_value(s.take(i)) <= dec_value(s),
    decreases s.len() - i,
{
    if i == s.len() {
        assert(s.take(i) =~= s);
    } else {
        assert(forall|k: int| 0 <= k < s.len() ==> s.take(s.len() as int)[k] == s[k]);
        lemma_dec_value_grows(s, i + 1);
        let t = s.take(i + 1);
        assert(t.drop_last() =~= s.take(i));
        assert(all_dec_digits(s.take(i)) && all_dec_digits(t)) by {
            assert(forall|k: int| 0 <= k < i + 1 ==> t[k] == s[k]);
            assert(forall|k: int| 0 <= k < i ==> s.take(i)[k] == s[k]);
        }
        lemma_dec_value_nonneg(s.take(i));
        assert(dec_value(t) == dec_value(s.take(i)) * 10 + digit_val(t.last()));
        assert(dec_value(s.take(i)) * 10 >= dec_value(s.take(i))) by {
            lemma_dec_value_nonneg(s.take(i));
        }
    }
}

/// Parse the characters `v[start..end]` as `str::parse::<u64>` would.
pub fn parse_u64_range(v: &Vec<char>, start: usize, end: usize) -> (r: Option<u64>)
    requires
        start <= end <= v@.len(),
    ensures
        r == parse_u64_spec(v@.subrange(start as int, end as int)),
{
    let ghost s = v@.subrange(start as int, end as int);
    let mut i = start;
    if i < end && v[i] == '+' {
        i += 1;
    }
    let ghost t = v@.subrange(i as int, end as int);
    proof {
        if s.len() > 0 && s[0] == '+' {
            assert(t =~= s.drop_first());
        } else {
            assert(t =~= s);
        }
    }
    if i == end {
        return None;
    }
    let mut acc: u64 = 0;
    let mut j = i;
    while j < end
        invariant
            i <= j <= end <= v@.len(),
            start <= i,
            s == v@.subrange(start as int, end as int),
            t == v@.subrange(i as int, end as int),
            t == (if s.len() > 0 && s[0] == '+' {
                s.drop_first()
            } else {
                s
            }),
            t.len() > 0,
            all_dec_digits(t.take(j - i)),
            acc as int == dec_value(t.take(j - i)),
        decreases end - j,
    {
        let u = v[j] as u32;
        if u < 48 || u > 57 {
            proof {
                assert(t[j - i] == v@[j as int]);
                assert(!all_dec_digits(t));
            }
            return None;
        }
        let d = (u - 48) as u64;
        proof {
            assert(t.take(j - i + 1).drop_last() =~= t.take(j - i));
            assert(t.take(j - i + 1).last() == t[j - i]);
            assert(t[j - i] == v@[j as int]);
            assert(all_dec_digits(t.take(j - i + 1))) by {
                assert(forall|k: int|
                    0 <= k < j - i ==> #[trigger] t.take(j - i + 1)[k] == t.take(j - i)[k]);
            }
        }
        if acc > (u64::MAX - d) / 10 {
            proof {
                assert(dec_value(t.take(j - i + 1)) == acc as int * 10 + d);
                assert(acc as int * 10 + d > u64::MAX) by (nonlinear_arith)
                    requires
                        acc as int > (u64::MAX as int - d) / 10,
                        0 <= d < 10,
                        acc as int >= 0,
                ;
                if all_dec_digits(t) {
                    lemma_dec_value_grows(t, j - i + 1);
                }
            }
            return None;
        }
        acc = acc * 10 + d;
        j += 1;
    }
    proof {
        assert(t.take(t.len() as int) =~= t);
    }
    Some(acc)
}

} // verus!


verus! {

/// Whether two strings hold the same characters.
pub fn str_eq(a: &str, b: &str) -> (r: bool)
    ensures
        r == (a@ == b@),
{
    let n = a.unicode_len();
    let m = b.unicode_len();
    if n != m {
        return false;
    }
    let mut i: usize = 0;
    while i < n
        invariant
            0 <= i <= n,
            n == a@.len() && n == b@.len(),
            forall|k: int| 0 <= k < i ==> a@[k] == b@[k],
        decreases n - i,
    {
        if a.get_char(i) != b.get_char(i) {
            return false;
        }
        i += 1;
    }
    proof {
        assert(a@ =~= b@);
    }
    true
}

/// The longest whitespace-free prefix of `u`.
pub open spec fn until_ws(u: Seq<char>) -> Seq<char>
    decreases u.len(),
{
    if u.len() == 0 || white_space(u[0]) {
        Seq::empty()
    } else {
        seq![u[0]] + until_ws(u.drop_first())
    }
}

pub proof fn lemma_until_ws_take(u: Seq<char>, k: int)
    requires
        0 <= k <= u.len(),
        forall|j: int| 0 <= j < k ==> !white_space(u[j]),
        k == u.len() || white_space(u[k]),
    ensures
        until_ws(u) == u.take(k),
    decreases k,
{
    if k == 0 {
        assert(u.take(0) =~= Seq::<char>::empty());
    } else {
        let t = u.drop_first();
        assert(forall|j: int| 0 <= j < t.len() ==> t[j] == u[j + 1]);
        lemma_until_ws_take(t, k - 1);
        assert(seq![u[0]] + t.take(k - 1) =~= u.take(k));
    }
}

/// The first whitespace-separated token of `s` (empty when there is none):
/// what `str::split_whitespace` yields first.
pub open spec fn first_token(s: Seq<char>) -> Seq<char> {
    until_ws(trim_start_spec(s))
}

/// The boundaries of the first whitespace-separated token of `v`.
pub fn first_token_range(v: &Vec<char>) -> (r: (usize, usize))
    ensures
        r.0 <= r.1 <= v@.len(),
        v@.subrange(r.0 as int, r.1 as int) == first_token(v@),
{
    let n = v.len();
    let mut a: usize = 0;
    loop
        invariant
            0 <= a <= n,
            n == v@.len(),
            forall|j: int| 0 <= j < a ==> white_space(v@[j]),
        ensures
            0 <= a <= n,
            n == v@.len(),
            forall|j: int| 0 <= j < a ==> white_space(v@[j]),
            a == n || !white_space(v@[a as int]),
        decreases n - a,
    {
        if a == n {
            break;
        }
        if !char_is_whitespace(v[a]) {
            break;
        }
        a += 1;
    }
    let mut b = a;
    loop
        invariant
            a <= b <= n,
            n == v@.len(),
            forall|j: int| a <= j < b ==> !white_space(v@[j]),
        ensures
            a <= b <= n,
            forall|j: int| a <= j < b ==> !white_space(v@[j]),
            b == n || white_space(v@[b as int]),
        decreases n - b,
    {
        if b == n {
            break;
        }
        if char_is_whitespace(v[b]) {
            break;
        }
        b += 1;
    }
    proof {
        lemma_trim_start_skip(v@, a as int);
        let u = v@.skip(a as int);
        assert(forall|j: int| 0 <= j < u.len() ==> u[j] == v@[a + j]);
        lemma_until_ws_take(u, b - a);
        assert(u.take(b - a) =~= v@.subrange(a as int, b as int));
    }
    (a, b)
}

} // verus!

verus! {

/// Parse a whole string as `str::parse::<u64>` would.
pub fn parse_u64_str(s: &str) -> (r: Option<u64>)
    ensures
        r == parse_u64_spec(s@),
{
    let v = chars_vec(s);
    let n = v.len();
    proof {
        assert(v@.subrange(0, v@.len() as int) =~= s@);
    }
    parse_u64_range(&v, 0, n)
}

} // verus!
