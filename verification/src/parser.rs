//! The source scanner: extracts derive-attribute occurrences from one file's
//! text. A structured tier parses the file as Rust syntax through `syn`; a
//! text tier, fully verified here, scans single lines. Malformed input never
//! escapes the scanner: it degrades to the text tier.
use crate::text::alphanumeric;
use crate::text::chars_vec;
use crate::text::contains_range;
use crate::text::contains_seq;
use crate::text::contains_sub;
use crate::text::count_char;
use crate::text::count_char_occurrences;
use crate::text::count_matches;
use crate::text::count_matches_exec;
use crate::text::char_is_alphanumeric;
use crate::text::find_char;
use crate::text::find_char_in;
use crate::text::lemma_find_char_at;
use crate::text::lemma_find_char_none;
use crate::text::lemma_find_char_props;
use crate::text::matches_at;
use crate::text::range_to_string;
use crate::text::split_lines;
use crate::text::split_lines_ranges;
use crate::text::trim_range;
use crate::text::trim_spec;
use crate::text::valid_line_ranges;
use crate::DeriveStatement;
use crate::DeriveStatementView;
use vstd::prelude::*;
use vstd::string::StringExecFns;
use vstd::string::StringSliceAdditionalSpecFns;

verus! {

/// A character allowed in a derive identifier token: alphanumeric,
/// underscore, or the path separator colon.
pub open spec fn ident_char(c: char) -> bool {
    alphanumeric(c) || c == '_' || c == ':'
}

/// A non-empty token made only of identifier characters.
pub open spec fn is_ident_token(t: Seq<char>) -> bool {
    t.len() > 0 && forall|k: int| 0 <= k < t.len() ==> ident_char(#[trigger] t[k])
}

/// Whether a trimmed token is kept: the structured tier keeps identifier
/// tokens only, the text tier keeps every non-empty token.
pub open spec fn token_keep(t: Seq<char>, ident_only: bool) -> bool {
    if ident_only {
        is_ident_token(t)
    } else {
        t.len() > 0
    }
}

pub open spec fn kept_token(t: Seq<char>, ident_only: bool) -> Seq<Seq<char>> {
    if token_keep(t, ident_only) {
        seq![t]
    } else {
        seq![]
    }
}

/// The comma-separated pieces of `s`, each trimmed, dropping the pieces
/// that are not kept.
pub open spec fn token_list(s: Seq<char>, ident_only: bool) -> Seq<Seq<char>>
    decreases s.len(),
    via token_list_decreases
{
    let i = find_char(s, ',');
    if i < 0 {
        kept_token(trim_spec(s), ident_only)
    } else {
        kept_token(trim_spec(s.take(i)), ident_only) + token_list(s.skip(i + 1), ident_only)
    }
}

#[via_fn]
proof fn token_list_decreases(s: Seq<char>, ident_only: bool) {
    lemma_find_char_props(s, ',');
}

/// What the structured tier makes of a derive attribute's argument text.
pub open spec fn derive_token_list(s: Seq<char>) -> Seq<Seq<char>> {
    token_list(s, true)
}

/// What the text tier makes of the interior of a derive line.
pub open spec fn comma_token_list(s: Seq<char>) -> Seq<Seq<char>> {
    token_list(s, false)
}

proof fn lemma_token_list_step(s: Seq<char>, j: int, ident_only: bool)
    requires
        0 <= j < s.len(),
        s[j] == ',',
        forall|k: int| 0 <= k < j ==> s[k] != ',',
    ensures
        token_list(s, ident_only) == kept_token(trim_spec(s.take(j)), ident_only)
            + token_list(s.skip(j + 1), ident_only),
{
    lemma_find_char_at(s, ',', j);
}

proof fn lemma_token_list_last(s: Seq<char>, ident_only: bool)
    requires
        forall|k: int| 0 <= k < s.len() ==> s[k] != ',',
    ensures
        token_list(s, ident_only) == kept_token(trim_spec(s), ident_only),
{
    lemma_find_char_none(s, ',');
}

/// Whether `v[a..b]` is a non-empty run of identifier characters.
fn is_ident_range(v: &Vec<char>, a: usize, b: usize) -> (r: bool)
    requires
        a <= b <= v@.len(),
    ensures
        r == is_ident_token(v@.subrange(a as int, b as int)),
{
    let ghost t = v@.subrange(a as int, b as int);
    if a == b {
        return false;
    }
    let mut i = a;
    while i < b
        invariant
            a <= i <= b <= v@.len(),
            t == v@.subrange(a as int, b as int),
            forall|k: int| 0 <= k < i - a ==> ident_char(#[trigger] t[k]),
        decreases b - i,
    {
        let c = v[i];
        proof {
            assert(t[i - a] == v@[i as int]);
        }
        if !(char_is_alphanumeric(c) || c == '_' || c == ':') {
            return false;
        }
        i += 1;
    }
    true
}

/// Split `v[start..end]` on commas, trim each piece, and keep the pieces
/// the tier accepts, as owned strings.
fn split_tokens(s: &str, v: &Vec<char>, start: usize, end: usize, ident_only: bool) -> (r: Vec<
    String,
>)
    requires
        v@ == s@,
        start <= end <= v@.len(),
    ensures
        r.deep_view() == token_list(v@.subrange(start as int, end as int), ident_only),
{
    let ghost whole = v@.subrange(start as int, end as int);
    let mut out: Vec<String> = Vec::new();
    let mut pos = start;
    proof {
        assert(out.deep_view() =~= Seq::<Seq<char>>::empty());
        assert(v@.subrange(pos as int, end as int) == whole);
    }
    loop
        invariant_except_break
            start <= pos <= end <= v@.len(),
            v@ == s@,
            token_list(whole, ident_only) == out.deep_view() + token_list(
                v@.subrange(pos as int, end as int),
                ident_only,
            ),
        ensures
            out.deep_view() == token_list(whole, ident_only),
        decreases end - pos,
    {
        let ghost piece_src = v@.subrange(pos as int, end as int);
        let cut = find_char_in(v, pos, end, ',');
        let pe = match cut {
            Some(j) => j,
            None => end,
        };
        let trimmed = trim_range(v, pos, pe);
        let a = trimmed.0;
        let b = trimmed.1;
        let ghost tok = v@.subrange(a as int, b as int);
        proof {
            match cut {
                Some(j) => {
                    assert(forall|k: int| 0 <= k < j - pos ==> piece_src[k] == v@[pos + k]);
                    lemma_token_list_step(piece_src, j - pos, ident_only);
                    assert(piece_src.take(j - pos) =~= v@.subrange(pos as int, j as int));
                },
                None => {
                    assert(forall|k: int|
                        0 <= k < piece_src.len() ==> piece_src[k] == v@[pos + k]);
                    lemma_token_list_last(piece_src, ident_only);
                    assert(piece_src =~= v@.subrange(pos as int, end as int));
                },
            }
            assert(trim_spec(v@.subrange(pos as int, pe as int)) == tok);
        }
        let keep = if ident_only {
            is_ident_range(v, a, b)
        } else {
            b > a
        };
        proof {
            assert(keep == token_keep(tok, ident_only));
        }
        if keep {
            let ghost dv_old = out.deep_view();
            let token = range_to_string(s, a, b);
            out.push(token);
            proof {
                assert(out.deep_view() =~= dv_old.push(tok));
                assert(dv_old.push(tok) =~= dv_old + seq![tok]);
            }
        }
        match cut {
            Some(j) => {
                proof {
                    assert(piece_src.skip(j - pos + 1) =~= v@.subrange(j + 1, end as int));
                    assert(out.deep_view() + token_list(v@.subrange(j + 1, end as int), ident_only)
                        =~= token_list(whole, ident_only));
                }
                pos = j + 1;
            },
            None => {
                proof {
                    assert(token_list(piece_src, ident_only) == kept_token(tok, ident_only));
                    assert(out.deep_view() =~= token_list(whole, ident_only));
                }
                break;
            },
        }
    }
    out
}

} // verus!

verus! {

/// A trimmed line that the text tier accepts: it begins with the derive
/// attribute opener and ends with its closer.
pub open spec fn derive_line_guard(t: Seq<char>) -> bool {
    t.len() >= 9 && t.take(9) == "#[derive("@ && t.len() >= 2 && t.skip(t.len() - 2) == ")]"@
}

proof fn lemma_guard_len(t: Seq<char>)
    requires
        derive_line_guard(t),
    ensures
        t.len() >= 11,
{
    reveal_strlit("#[derive(");
    reveal_strlit(")]");
    if t.len() < 11 {
        assert(t.take(9)[8] == t[8]);
        assert(t[8] == '(');
        if t.len() == 9 {
            assert(t.take(9)[7] == t[7]);
            assert(t[7] == 'e');
            assert(t.skip(7)[0] == t[7]);
            assert(t[7] == ')');
        } else {
            assert(t.skip(t.len() - 2)[0] == t[t.len() - 2]);
            assert(t[8] == ')');
        }
        assert(false);
    }
}

/// The findings the text tier reports for one line (none or one).
pub open spec fn text_line_findings(
    line: Seq<char>,
    idx: int,
    repo: Seq<char>,
    path: Seq<char>,
) -> Seq<DeriveStatementView> {
    let t = trim_spec(line);
    if derive_line_guard(t) {
        let toks = comma_token_list(t.subrange(9, t.len() - 2));
        if toks.len() > 0 {
            seq![
                DeriveStatementView {
                    repository: repo,
                    file_path: path,
                    line_number: idx + 1,
                    derives: toks,
                    full_line: line,
                },
            ]
        } else {
            seq![]
        }
    } else {
        seq![]
    }
}

pub open spec fn text_findings_from(
    ls: Seq<Seq<char>>,
    idx: int,
    repo: Seq<char>,
    path: Seq<char>,
) -> Seq<DeriveStatementView>
    decreases ls.len(),
{
    if ls.len() == 0 {
        seq![]
    } else {
        text_line_findings(ls[0], idx, repo, path) + text_findings_from(
            ls.drop_first(),
            idx + 1,
            repo,
            path,
        )
    }
}

/// Everything the text tier reports for a whole file, in line order.
pub open spec fn text_findings(
    content: Seq<char>,
    repo: Seq<char>,
    path: Seq<char>,
) -> Seq<DeriveStatementView> {
    text_findings_from(split_lines(content), 0, repo, path)
}

proof fn lemma_text_findings_skip(ls: Seq<Seq<char>>, idx: int, repo: Seq<char>, path: Seq<char>)
    requires
        0 <= idx < ls.len(),
    ensures
        text_findings_from(ls.skip(idx), idx, repo, path) == text_line_findings(
            ls[idx],
            idx,
            repo,
            path,
        ) + text_findings_from(ls.skip(idx + 1), idx + 1, repo, path),
{
    assert(ls.skip(idx).drop_first() =~= ls.skip(idx + 1));
    assert(ls.skip(idx)[0] == ls[idx]);
}

/// The text tier: scan each line on its own; a line whose trimmed text is a
/// whole derive attribute yields one finding. Never fails, whatever the input.
fn extract_derives_text_based(content: &str, repository: &str, file_path: &str) -> (r: Vec<
    DeriveStatement,
>)
    ensures
        r.deep_view() == text_findings(content@, repository@, file_path@),
{
    let cv = chars_vec(content);
    let ranges = split_lines_ranges(&cv);
    let mut out: Vec<DeriveStatement> = Vec::new();
    let mut idx: usize = 0;
    proof {
        assert(split_lines(content@).skip(0) =~= split_lines(content@));
        assert(out.deep_view() =~= Seq::<DeriveStatementView>::empty());
    }
    while idx < ranges.len()
        invariant
            0 <= idx <= ranges@.len(),
            cv@ == content@,
            ranges@.len() == split_lines(content@).len(),
            valid_line_ranges(cv@, ranges@),
            text_findings(content@, repository@, file_path@) == out.deep_view()
                + text_findings_from(
                split_lines(content@).skip(idx as int),
                idx as int,
                repository@,
                file_path@,
            ),
        decreases ranges@.len() - idx,
    {
        let ghost ls = split_lines(content@);
        let rg = ranges[idx];
        let l0 = rg.0;
        let l1 = rg.1;
        proof {
            assert(ranges@[idx as int].0 <= ranges@[idx as int].1 <= cv@.len());
        }
        let ghost line = cv@.subrange(l0 as int, l1 as int);
        let trimmed = trim_range(&cv, l0, l1);
        let a = trimmed.0;
        let b = trimmed.1;
        let ghost t = cv@.subrange(a as int, b as int);
        let guard = b - a >= 9 && matches_at(&cv, a, "#[derive(") && matches_at(&cv, b - 2, ")]");
        proof {
            reveal_strlit("#[derive(");
            reveal_strlit(")]");
            assert(t.len() == b - a);
            if b - a >= 9 {
                assert(t.take(9) =~= cv@.subrange(a as int, a + 9));
                assert(t.skip(t.len() - 2) =~= cv@.subrange(b - 2, b as int));
            }
            assert(guard == derive_line_guard(t));
        }
        if guard {
            proof {
                lemma_guard_len(t);
                assert(t.subrange(9, t.len() - 2) =~= cv@.subrange(a + 9, b - 2));
            }
            let toks = split_tokens(content, &cv, a + 9, b - 2, false);
            if toks.len() > 0 {
                let ds = DeriveStatement {
                    repository: String::from_str(repository),
                    file_path: String::from_str(file_path),
                    line_number: idx + 1,
                    derives: toks,
                    full_line: range_to_string(content, l0, l1),
                };
                let ghost dv_old = out.deep_view();
                proof {
                    assert(ds.deep_view() == text_line_findings(
                        line,
                        idx as int,
                        repository@,
                        file_path@,
                    )[0]);
                }
                out.push(ds);
                proof {
                    assert(out.deep_view() =~= dv_old.push(ds.deep_view()));
                    assert(dv_old.push(ds.deep_view()) =~= dv_old + text_line_findings(
                        line,
                        idx as int,
                        repository@,
                        file_path@,
                    ));
                }
            } else {
                proof {
                    assert(text_line_findings(line, idx as int, repository@, file_path@)
                        =~= Seq::<DeriveStatementView>::empty());
                }
            }
        } else {
            proof {
                assert(text_line_findings(line, idx as int, repository@, file_path@)
                    =~= Seq::<DeriveStatementView>::empty());
            }
        }
        proof {
            lemma_text_findings_skip(ls, idx as int, repository@, file_path@);
            assert(ls[idx as int] == line);
        }
        idx += 1;
    }
    proof {
        assert(split_lines(content@).skip(ranges@.len() as int).len() == 0);
        assert(text_findings_from(
            split_lines(content@).skip(ranges@.len() as int),
            ranges@.len() as int,
            repository@,
            file_path@,
        ) =~= Seq::<DeriveStatementView>::empty());
    }
    out
}

} // verus!

verus! {

/// The 1-based number of the first line containing "derive", or 1 when no
/// line does: the best-effort location the structured tier reports.
pub open spec fn first_derive_line_from(ls: Seq<Seq<char>>, idx: int) -> int
    decreases ls.len(),
{
    if ls.len() == 0 {
        1
    } else if contains_seq(ls[0], "derive"@) {
        idx
    } else {
        first_derive_line_from(ls.drop_first(), idx + 1)
    }
}

pub open spec fn first_derive_line(content: Seq<char>) -> int {
    first_derive_line_from(split_lines(content), 1)
}

proof fn lemma_first_derive_step(ls: Seq<Seq<char>>, i: int)
    requires
        0 <= i < ls.len(),
    ensures
        first_derive_line_from(ls.skip(i), i + 1) == if contains_seq(ls[i], "derive"@) {
            i + 1
        } else {
            first_derive_line_from(ls.skip(i + 1), i + 2)
        },
{
    assert(ls.skip(i).drop_first() =~= ls.skip(i + 1));
    assert(ls.skip(i)[0] == ls[i]);
}

/// The line `str::lines` yields at a 1-based position (a zero position is
/// treated as the first line), or the empty string past the end.
pub open spec fn line_at(content: Seq<char>, n: int) -> Seq<char> {
    let ls = split_lines(content);
    let idx = if n == 0 {
        0
    } else {
        n - 1
    };
    if 0 <= idx < ls.len() {
        ls[idx]
    } else {
        Seq::empty()
    }
}

/// Content that would distress the structured parser, routed straight to
/// the text tier: a known-pathological path, a very large file, heavy brace
/// nesting, or dense macro and attribute use.
pub open spec fn likely_problematic(content: Seq<char>, path: Seq<char>) -> bool {
    ||| contains_seq(path, "rust-lang/rust/tests/"@)
    ||| vstd::utf8::encode_utf8(content).len() > 500000
    ||| count_char(content, '{') > 1000
    ||| count_char(content, '}') > 1000
    ||| count_matches(content, "macro_rules!"@) + count_matches(content, "#["@) > 200
}

/// What the structured tier returns for a file's content: the argument text
/// of each derive attribute on a type definition, in source order, or
/// nothing when the content is not parseable Rust. Named here; the trusted
/// item below states that `syn` computes it.
pub uninterp spec fn syn_derive_lists(s: Seq<char>) -> Option<Seq<Seq<char>>>;

/// Relies on syn 2's parse_file and syntax tree: collects, in source order,
/// the argument text of every `derive` attribute attached to a struct, enum
/// or union item, and reports failure as a value for content that does not
/// parse as a Rust file. The result depends on the content alone.
#[verifier::external_body]
fn parse_derive_attr_lists(content: &str) -> (r: Option<Vec<String>>)
    ensures
        r.deep_view() == syn_derive_lists(content@),
{
    let ast = match syn::parse_file(content) { Ok(f) => f, Err(_) => return None };
    let mut lists: Vec<String> = Vec::new();
    for item in ast.items {
        let attrs = match item {
            syn::Item::Struct(i) => i.attrs, syn::Item::Enum(i) => i.attrs,
            syn::Item::Union(i) => i.attrs, _ => Vec::new(),
        };
        for a in attrs {
            if let (true, syn::Meta::List(m)) = (a.path().is_ident("derive"), a.meta) {
                lists.push(m.tokens.to_string());
            }
        }
    }
    Some(lists)
}

/// The findings the structured tier assembles from the derive argument
/// texts of one file, in source order.
pub open spec fn structured_findings(
    lists: Seq<Seq<char>>,
    content: Seq<char>,
    repo: Seq<char>,
    path: Seq<char>,
) -> Seq<DeriveStatementView>
    decreases lists.len(),
{
    if lists.len() == 0 {
        seq![]
    } else {
        let toks = derive_token_list(lists[0]);
        (if toks.len() > 0 {
            seq![
                DeriveStatementView {
                    repository: repo,
                    file_path: path,
                    line_number: first_derive_line(content),
                    derives: toks,
                    full_line: line_at(content, first_derive_line(content)),
                },
            ]
        } else {
            seq![]
        }) + structured_findings(lists.drop_first(), content, repo, path)
    }
}

proof fn lemma_structured_findings_skip(
    lists: Seq<Seq<char>>,
    i: int,
    content: Seq<char>,
    repo: Seq<char>,
    path: Seq<char>,
)
    requires
        0 <= i < lists.len(),
    ensures
        structured_findings(lists.skip(i), content, repo, path) == (if derive_token_list(
            lists[i],
        ).len() > 0 {
            seq![
                DeriveStatementView {
                    repository: repo,
                    file_path: path,
                    line_number: first_derive_line(content),
                    derives: derive_token_list(lists[i]),
                    full_line: line_at(content, first_derive_line(content)),
                },
            ]
        } else {
            seq![]
        }) + structured_findings(lists.skip(i + 1), content, repo, path),
{
    assert(lists.skip(i).drop_first() =~= lists.skip(i + 1));
    assert(lists.skip(i)[0] == lists[i]);
}

/// Everything the scanner reports for one file: the text tier for content
/// routed away from the parser or rejected by it, the structured tier
/// otherwise.
pub open spec fn scan_spec(
    content: Seq<char>,
    repo: Seq<char>,
    path: Seq<char>,
) -> Seq<DeriveStatementView> {
    if likely_problematic(content, path) {
        text_findings(content, repo, path)
    } else {
        match syn_derive_lists(content) {
            Some(lists) => structured_findings(lists, content, repo, path),
            None => text_findings(content, repo, path),
        }
    }
}

/// Extracts derive-attribute occurrences from Rust source text.
#[derive(Clone)]
pub struct RustParser;

impl RustParser {
    pub fn new() -> (r: Self) {
        RustParser
    }

    /// Scan one file's text: the structured tier when the content looks
    /// safe and parses, the text tier otherwise. Total: no input makes it
    /// fail.
    pub fn extract_derives(&self, content: &str, repository: &str, file_path: &str) -> (r: Vec<
        DeriveStatement,
    >)
        ensures
            r.deep_view() == scan_spec(content@, repository@, file_path@),
    {
        if self.is_likely_problematic_file(content, file_path) {
            return extract_derives_text_based(content, repository, file_path);
        }
        match parse_derive_attr_lists(content) {
            Some(lists) => {
                let ghost lv = lists.deep_view();
                let mut out: Vec<DeriveStatement> = Vec::new();
                let mut i: usize = 0;
                proof {
                    assert(lv.skip(0) =~= lv);
                    assert(out.deep_view() =~= Seq::<DeriveStatementView>::empty());
                }
                while i < lists.len()
                    invariant
                        0 <= i <= lists@.len(),
                        lv == lists.deep_view(),
                        syn_derive_lists(content@) == Some(lv),
                        !likely_problematic(content@, file_path@),
                        structured_findings(lv, content@, repository@, file_path@)
                            == out.deep_view() + structured_findings(
                            lv.skip(i as int),
                            content@,
                            repository@,
                            file_path@,
                        ),
                    decreases lists@.len() - i,
                {
                    proof {
                        assert(lv[i as int] == lists@[i as int]@);
                    }
                    let toks = self.parse_derive_tokens(lists[i].as_str());
                    proof {
                        lemma_structured_findings_skip(
                            lv,
                            i as int,
                            content@,
                            repository@,
                            file_path@,
                        );
                    }
                    if toks.len() > 0 {
                        let ln = self.find_line_number(content, lists[i].as_str());
                        let fl = self.get_line_at_number(content, ln);
                        let ds = DeriveStatement {
                            repository: String::from_str(repository),
                            file_path: String::from_str(file_path),
                            line_number: ln,
                            derives: toks,
                            full_line: fl,
                        };
                        let ghost dv_old = out.deep_view();
                        out.push(ds);
                        proof {
                            assert(out.deep_view() =~= dv_old.push(ds.deep_view()));
                            assert(dv_old.push(ds.deep_view()) =~= dv_old + seq![ds.deep_view()]);
                        }
                    }
                    i += 1;
                }
                proof {
                    assert(structured_findings(
                        lv.skip(lists@.len() as int),
                        content@,
                        repository@,
                        file_path@,
                    ) =~= Seq::<DeriveStatementView>::empty());
                }
                out
            },
            None => extract_derives_text_based(content, repository, file_path),
        }
    }

    /// The text tier alone, for content the caller already distrusts.
    pub fn extract_derives_text_only(
        &self,
        content: &str,
        repository: &str,
        file_path: &str,
    ) -> (r: Vec<DeriveStatement>)
        ensures
            r.deep_view() == text_findings(content@, repository@, file_path@),
    {
        extract_derives_text_based(content, repository, file_path)
    }

    /// Split a derive attribute's argument text into identifier tokens,
    /// in order, duplicates kept.
    pub fn parse_derive_tokens(&self, tokens: &str) -> (r: Vec<String>)
        ensures
            r.deep_view() == derive_token_list(tokens@),
    {
        let v = chars_vec(tokens);
        let n = v.len();
        proof {
            assert(v@.subrange(0, v@.len() as int) =~= tokens@);
        }
        split_tokens(tokens, &v, 0, n, true)
    }

    /// The best-effort 1-based line number for a finding: the first line
    /// containing "derive". The target text is not consulted.
    pub fn find_line_number(&self, content: &str, _target: &str) -> (r: usize)
        ensures
            r == first_derive_line(content@),
    {
        let cv = chars_vec(content);
        let ranges = split_lines_ranges(&cv);
        let ghost ls = split_lines(content@);
        let mut i: usize = 0;
        proof {
            assert(ls.skip(0) =~= ls);
        }
        while i < ranges.len()
            invariant
                0 <= i <= ranges@.len(),
                cv@ == content@,
                ranges@.len() == ls.len(),
                ls == split_lines(content@),
                valid_line_ranges(cv@, ranges@),
                first_derive_line(content@) == first_derive_line_from(
                    ls.skip(i as int),
                    i + 1 as int,
                ),
            decreases ranges@.len() - i,
        {
            let rg = ranges[i];
            proof {
                assert(ranges@[i as int].0 <= ranges@[i as int].1 <= cv@.len());
                lemma_first_derive_step(ls, i as int);
            }
            if contains_range(&cv, rg.0, rg.1, "derive") {
                return i + 1;
            }
            i += 1;
        }
        proof {
            assert(ls.skip(ranges@.len() as int).len() == 0);
        }
        1
    }

    /// The verbatim text of a 1-based line, or the empty string when the
    /// file has no such line.
    pub fn get_line_at_number(&self, content: &str, line_number: usize) -> (r: String)
        ensures
            r@ == line_at(content@, line_number as int),
    {
        let cv = chars_vec(content);
        let ranges = split_lines_ranges(&cv);
        let idx = if line_number == 0 {
            0
        } else {
            line_number - 1
        };
        if idx < ranges.len() {
            let rg = ranges[idx];
            proof {
                assert(ranges@[idx as int].0 <= ranges@[idx as int].1 <= cv@.len());
            }
            range_to_string(content, rg.0, rg.1)
        } else {
            String::new()
        }
    }

    /// The scanner's own last-resort guard: content signals that predict
    /// parser distress route the file to the text tier.
    pub fn is_likely_problematic_file(&self, content: &str, file_path: &str) -> (r: bool)
        ensures
            r == likely_problematic(content@, file_path@),
    {
        let pv = chars_vec(file_path);
        if contains_sub(&pv, "rust-lang/rust/tests/") {
            return true;
        }
        let bytes = content.as_bytes();
        proof {
            assert(bytes@ == vstd::utf8::encode_utf8(content@));
        }
        if bytes.len() > 500000 {
            return true;
        }
        let cv = chars_vec(content);
        if count_char_occurrences(&cv, '{') > 1000 {
            return true;
        }
        if count_char_occurrences(&cv, '}') > 1000 {
            return true;
        }
        proof {
            reveal_strlit("macro_rules!");
            reveal_strlit("#[");
        }
        let m1 = count_matches_exec(&cv, "macro_rules!");
        if m1 > 200 {
            return true;
        }
        let m2 = count_matches_exec(&cv, "#[");
        m2 > 200 - m1
    }
}

} // verus!


verus! {

/// Scanning identical content twice yields identical ordered output: what
/// the scanner reports is a function of the file's text and names alone.
pub proof fn lemma_scan_deterministic(
    content: Seq<char>,
    repo: Seq<char>,
    path: Seq<char>,
    r1: Seq<DeriveStatementView>,
    r2: Seq<DeriveStatementView>,
)
    requires
        r1 == scan_spec(content, repo, path),
        r2 == scan_spec(content, repo, path),
    ensures
        r1 == r2,
{
}

/// Content that the guard flags never reaches the structured parser: the
/// scanner reports exactly the text tier's findings for it, so a
/// pathological input cannot bring the scan down.
pub proof fn lemma_problematic_takes_text_tier(content: Seq<char>, repo: Seq<char>, path: Seq<char>)
    requires
        likely_problematic(content, path),
    ensures
        scan_spec(content, repo, path) == text_findings(content, repo, path),
{
}

} // verus!
