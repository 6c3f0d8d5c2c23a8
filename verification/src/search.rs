//! Line matching: split a text into lines and keep the lines that contain
//! a query, case-sensitively or ignoring case.

use crate::config::Config;
use vstd::prelude::*;

verus! {

/// The lines still to be produced while scanning a text, when `cur` holds
/// the part of the current line read so far (it contains no `'\n'`) and
/// `rest` is the unread tail of the text.  A `'\n'` ends the current line;
/// a final partial line is produced only if it is non-empty, so a trailing
/// newline yields no empty trailing line.
pub open spec fn lines_from(cur: Seq<char>, rest: Seq<char>) -> Seq<Seq<char>>
    decreases rest.len(),
{
    if rest.len() == 0 {
        if cur.len() == 0 {
            Seq::empty()
        } else {
            seq![cur]
        }
    } else if rest[0] == '\n' {
        seq![cur] + lines_from(Seq::empty(), rest.drop_first())
    } else {
        lines_from(cur.push(rest[0]), rest.drop_first())
    }
}

/// The lines of a text: the pieces between successive `'\n'` characters,
/// in order.  A trailing newline produces no empty trailing line, a text
/// without a newline is itself its one line, and the empty text has no
/// lines.
pub open spec fn lines_of(text: Seq<char>) -> Seq<Seq<char>> {
    lines_from(Seq::empty(), text)
}

/// `needle` occurs contiguously inside `hay`.
pub open spec fn contains_substring(hay: Seq<char>, needle: Seq<char>) -> bool {
    exists|i: int|
        0 <= i && i + needle.len() <= hay.len() && #[trigger] hay.subrange(i, i + needle.len())
            == needle
}

/// An empty needle occurs in every text.
pub proof fn lemma_empty_needle_contained(hay: Seq<char>, needle: Seq<char>)
    requires
        needle.len() == 0,
    ensures
        contains_substring(hay, needle),
{
    assert(hay.subrange(0, 0 + needle.len() as int) =~= needle);
}

/// Whether the text at position `i` of `hay` starts with `needle`.
fn match_at(hay: &str, needle: &str, i: usize, h: usize, m: usize) -> (r: bool)
    requires
        h == hay@.len(),
        m == needle@.len(),
        i + m <= h,
    ensures
        r == (hay@.subrange(i as int, i + m) == needle@),
{
    let mut j: usize = 0;
    while j < m
        invariant
            h == hay@.len(),
            m == needle@.len(),
            i + m <= h,
            j <= m,
            forall|k: int| 0 <= k < j ==> hay@[i + k] == needle@[k],
        decreases m - j,
    {
        if hay.get_char(i + j) != needle.get_char(j) {
            proof {
                assert(hay@.subrange(i as int, i + m)[j as int] == hay@[i + j]);
            }
            return false;
        }
        j += 1;
    }
    proof {
        assert(hay@.subrange(i as int, i + m) =~= needle@);
    }
    true
}

/// Whether `hay` contains `needle` as a contiguous substring.
pub fn contains_str(hay: &str, needle: &str) -> (r: bool)
    ensures
        r == contains_substring(hay@, needle@),
{
    let h = hay.unicode_len();
    let m = needle.unicode_len();
    if m > h {
        return false;
    }
    let mut i: usize = 0;
    loop
        invariant_except_break
            h == hay@.len(),
            m == needle@.len(),
            m <= h,
            i <= h - m,
            forall|k: int| 0 <= k < i ==> #[trigger] hay@.subrange(k, k + m as int) != needle@,
        ensures
            forall|k: int| 0 <= k <= h - m ==> #[trigger] hay@.subrange(k, k + m as int)
                != needle@,
        decreases h - m - i,
    {
        if match_at(hay, needle, i, h, m) {
            proof {
                assert(0 <= i as int && i as int + needle@.len() <= hay@.len()
                    && hay@.subrange(i as int, i as int + needle@.len()) == needle@);
            }
            return true;
        }
        if i == h - m {
            break;
        }
        i += 1;
    }
    proof {
        assert(!contains_substring(hay@, needle@)) by {
            if contains_substring(hay@, needle@) {
                let w = choose|w: int|
                    0 <= w && w + needle@.len() <= hay@.len() && #[trigger] hay@.subrange(
                        w,
                        w + needle@.len(),
                    ) == needle@;
                assert(hay@.subrange(w, w + m as int) != needle@);
            }
        }
    }
    false
}

/// The lines of `contents`, in order, each a slice of `contents`.
pub fn split_lines<'a>(contents: &'a str) -> (r: Vec<&'a str>)
    ensures
        r.deep_view() == lines_of(contents@),
{
    let n = contents.unicode_len();
    let mut r: Vec<&'a str> = Vec::new();
    let mut start: usize = 0;
    let mut i: usize = 0;
    proof {
        assert(contents@.subrange(0, 0) =~= Seq::<char>::empty());
        assert(contents@.subrange(0, n as int) =~= contents@);
        assert(r.deep_view() =~= Seq::<Seq<char>>::empty());
        assert(Seq::<Seq<char>>::empty() + lines_from(Seq::<char>::empty(), contents@)
            =~= lines_from(Seq::<char>::empty(), contents@));
    }
    while i < n
        invariant
            n == contents@.len(),
            start <= i <= n,
            forall|j: int| start <= j < i ==> contents@[j] != '\n',
            lines_of(contents@) == r.deep_view() + lines_from(
                contents@.subrange(start as int, i as int),
                contents@.subrange(i as int, n as int),
            ),
        decreases n - i,
    {
        let ghost cur = contents@.subrange(start as int, i as int);
        let ghost rest = contents@.subrange(i as int, n as int);
        let c = contents.get_char(i);
        proof {
            assert(rest[0] == c);
            assert(rest.drop_first() =~= contents@.subrange(i + 1, n as int));
        }
        if c == '\n' {
            let line = contents.substring_char(start, i);
            let ghost dv = r.deep_view();
            r.push(line);
            start = i + 1;
            proof {
                assert(lines_from(cur, rest) == seq![cur] + lines_from(
                    Seq::<char>::empty(),
                    rest.drop_first(),
                ));
                assert(r.deep_view() =~= dv + seq![cur]);
                assert((dv + seq![cur]) + lines_from(Seq::<char>::empty(), rest.drop_first())
                    =~= dv + (seq![cur] + lines_from(Seq::<char>::empty(), rest.drop_first())));
                assert(contents@.subrange(i + 1, i + 1) =~= Seq::<char>::empty());
            }
        } else {
            proof {
                assert(lines_from(cur, rest) == lines_from(cur.push(c), rest.drop_first()));
                assert(cur.push(c) =~= contents@.subrange(start as int, i + 1));
            }
        }
        i += 1;
    }
    let ghost cur = contents@.subrange(start as int, n as int);
    proof {
        assert(contents@.subrange(i as int, n as int) =~= Seq::<char>::empty());
    }
    if start < n {
        let line = contents.substring_char(start, n);
        let ghost dv = r.deep_view();
        r.push(line);
        proof {
            assert(lines_from(cur, Seq::<char>::empty()) == seq![cur]);
            assert(r.deep_view() =~= dv + seq![cur]);
        }
    } else {
        proof {
            assert(cur.len() == 0);
            assert(r.deep_view() + lines_from(cur, Seq::<char>::empty()) =~= r.deep_view());
        }
    }
    r
}

/// The lower-case fold of a text.
pub uninterp spec fn lower_of(s: Seq<char>) -> Seq<char>;

/// Relies on str::to_lowercase: the result depends on the characters of the
/// input alone, and an empty string stays empty.
#[verifier::external_body]
fn lowercase(s: &str) -> (r: String)
    ensures
        r@ == lower_of(s@),
        s@.len() == 0 ==> r@.len() == 0,
{
    s.to_lowercase()
}

/// The test a line must pass in case-sensitive mode: it contains the query.
pub open spec fn keeps_line(query: Seq<char>) -> spec_fn(Seq<char>) -> bool {
    |line: Seq<char>| contains_substring(line, query)
}

/// The test a line must pass in case-insensitive mode: its lower-case fold
/// contains the lower-case fold of the query.
pub open spec fn keeps_line_folded(query: Seq<char>) -> spec_fn(Seq<char>) -> bool {
    |line: Seq<char>| contains_substring(lower_of(line), lower_of(query))
}

/// What a case-sensitive search returns: the lines of `contents` that
/// contain `query`, in their original order.
pub open spec fn search_spec(query: Seq<char>, contents: Seq<char>) -> Seq<Seq<char>> {
    lines_of(contents).filter(keeps_line(query))
}

/// What a case-insensitive search returns: the lines of `contents` whose
/// lower-case fold contains the lower-case fold of `query`, in their
/// original order and with their original text.
pub open spec fn search_case_insensitive_spec(query: Seq<char>, contents: Seq<char>) -> Seq<
    Seq<char>,
> {
    lines_of(contents).filter(keeps_line_folded(query))
}

/// A filter whose test every element passes keeps the whole sequence.
proof fn lemma_filter_keeps_all<A>(s: Seq<A>, pred: spec_fn(A) -> bool)
    requires
        forall|i: int| 0 <= i < s.len() ==> pred(#[trigger] s[i]),
    ensures
        s.filter(pred) == s,
    decreases s.len(),
{
    reveal(Seq::filter);
    if s.len() > 0 {
        assert(forall|i: int| 0 <= i < s.drop_last().len() ==> pred(#[trigger] s.drop_last()[i]));
        lemma_filter_keeps_all(s.drop_last(), pred);
        assert(pred(s.last()));
        assert(s.filter(pred) =~= s);
    }
}

/// One filtering step: extending the input by one element extends the
/// filtered sequence by that element exactly when it passes the test.
proof fn lemma_filter_push<A>(s: Seq<A>, x: A, pred: spec_fn(A) -> bool)
    ensures
        s.push(x).filter(pred) == if pred(x) {
            s.filter(pred).push(x)
        } else {
            s.filter(pred)
        },
{
    reveal(Seq::filter);
    assert(s.push(x).drop_last() =~= s);
    assert(s.push(x).last() == x);
}

/// Case-sensitive search: the lines of `contents` that contain `query`, in
/// their original order.  An empty query keeps every line.
pub fn search<'a>(query: &str, contents: &'a str) -> (r: Vec<&'a str>)
    ensures
        r.deep_view() == search_spec(query@, contents@),
        query@.len() == 0 ==> r.deep_view() == lines_of(contents@),
{
    let lines = split_lines(contents);
    let mut r: Vec<&'a str> = Vec::new();
    let mut i: usize = 0;
    proof {
        reveal(Seq::filter);
        assert(lines.deep_view().subrange(0, 0) =~= Seq::<Seq<char>>::empty());
    }
    while i < lines.len()
        invariant
            lines.deep_view() == lines_of(contents@),
            i <= lines.len(),
            r.deep_view() == lines.deep_view().subrange(0, i as int).filter(keeps_line(query@)),
        decreases lines.len() - i,
    {
        let line = lines[i];
        let ghost prefix = lines.deep_view().subrange(0, i as int);
        let ghost dv = r.deep_view();
        if contains_str(line, query) {
            r.push(line);
            proof {
                assert(r.deep_view() =~= dv.push(line@));
            }
        }
        proof {
            lemma_filter_push(prefix, line@, keeps_line(query@));
            assert(prefix.push(line@) =~= lines.deep_view().subrange(0, i + 1));
        }
        i += 1;
    }
    proof {
        assert(lines.deep_view().subrange(0, lines.deep_view().len() as int)
            =~= lines.deep_view());
        if query@.len() == 0 {
            assert forall|k: int| 0 <= k < lines.deep_view().len() implies keeps_line(query@)(
                #[trigger] lines.deep_view()[k],
            ) by {
                lemma_empty_needle_contained(lines.deep_view()[k], query@);
            }
            lemma_filter_keeps_all(lines.deep_view(), keeps_line(query@));
        }
    }
    r
}

/// Case-insensitive search: the lines of `contents` whose lower-case fold
/// contains the lower-case fold of `query`, in their original order and
/// with their original text.  An empty query keeps every line.
pub fn search_case_insensitive<'a>(query: &str, contents: &'a str) -> (r: Vec<&'a str>)
    ensures
        r.deep_view() == search_case_insensitive_spec(query@, contents@),
        query@.len() == 0 ==> r.deep_view() == lines_of(contents@),
{
    let folded_query = lowercase(query);
    let lines = split_lines(contents);
    let mut r: Vec<&'a str> = Vec::new();
    let mut i: usize = 0;
    proof {
        reveal(Seq::filter);
        assert(lines.deep_view().subrange(0, 0) =~= Seq::<Seq<char>>::empty());
    }
    while i < lines.len()
        invariant
            folded_query@ == lower_of(query@),
            query@.len() == 0 ==> folded_query@.len() == 0,
            lines.deep_view() == lines_of(contents@),
            i <= lines.len(),
            r.deep_view() == lines.deep_view().subrange(0, i as int).filter(
                keeps_line_folded(query@),
            ),
        decreases lines.len() - i,
    {
        let line = lines[i];
        let ghost prefix = lines.deep_view().subrange(0, i as int);
        let ghost dv = r.deep_view();
        let folded_line = lowercase(line);
        if contains_str(folded_line.as_str(), folded_query.as_str()) {
            r.push(line);
            proof {
                assert(r.deep_view() =~= dv.push(line@));
            }
        }
        proof {
            lemma_filter_push(prefix, line@, keeps_line_folded(query@));
            assert(prefix.push(line@) =~= lines.deep_view().subrange(0, i + 1));
        }
        i += 1;
    }
    proof {
        assert(lines.deep_view().subrange(0, lines.deep_view().len() as int)
            =~= lines.deep_view());
        if query@.len() == 0 {
            assert forall|k: int| 0 <= k < lines.deep_view().len() implies keeps_line_folded(
                query@,
            )(#[trigger] lines.deep_view()[k]) by {
                lemma_empty_needle_contained(lower_of(lines.deep_view()[k]), folded_query@);
            }
            lemma_filter_keeps_all(lines.deep_view(), keeps_line_folded(query@));
        }
    }
    r
}

/// The search a configuration asks for: case-insensitive when its
/// `ignore_case` flag is set, case-sensitive otherwise.
pub fn run_search<'a>(config: &Config, contents: &'a str) -> (r: Vec<&'a str>)
    ensures
        r.deep_view() == (if config.ignore_case {
            search_case_insensitive_spec(config.query@, contents@)
        } else {
            search_spec(config.query@, contents@)
        }),
{
    if config.ignore_case {
        search_case_insensitive(config.query.as_str(), contents)
    } else {
        search(config.query.as_str(), contents)
    }
}

/// Re-running a case-sensitive search with identical inputs yields an
/// identical result sequence: the outcome is a function of the query and
/// the text alone.
pub proof fn lemma_search_repeatable(
    query: Seq<char>,
    contents: Seq<char>,
    first: Seq<Seq<char>>,
    second: Seq<Seq<char>>,
)
    requires
        first == search_spec(query, contents),
        second == search_spec(query, contents),
    ensures
        first == second,
{
}

/// Re-running a case-insensitive search with identical inputs yields an
/// identical result sequence: the outcome is a function of the query and
/// the text alone.
pub proof fn lemma_search_case_insensitive_repeatable(
    query: Seq<char>,
    contents: Seq<char>,
    first: Seq<Seq<char>>,
    second: Seq<Seq<char>>,
)
    requires
        first == search_case_insensitive_spec(query, contents),
        second == search_case_insensitive_spec(query, contents),
    ensures
        first == second,
{
}

/// An empty query keeps every line: a case-sensitive search for the empty
/// query returns all the lines of the text, unchanged.
pub proof fn lemma_empty_query_keeps_all(query: Seq<char>, contents: Seq<char>)
    requires
        query.len() == 0,
    ensures
        search_spec(query, contents) == lines_of(contents),
{
    let lines = lines_of(contents);
    assert forall|k: int| 0 <= k < lines.len() implies keeps_line(query)(
        #[trigger] lines[k],
    ) by {
        lemma_empty_needle_contained(lines[k], query);
    }
    lemma_filter_keeps_all(lines, keeps_line(query));
}

} // verus!
