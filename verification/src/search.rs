//! The two line matchers, with the laws that hold of their results.

use crate::config::Config;
use crate::fold::{lowercase_of, to_lowercase};
use crate::text::{
    chars_of, line_holds, lines, lines_of, occurs_at, occurs_in, texts, trim, trimmed,
};
use vstd::prelude::*;

verus! {

/// The test that exact search puts to a line: `query` is a contiguous part
/// of it.
pub open spec fn holds_query(query: Seq<char>) -> spec_fn(Seq<char>) -> bool {
    |line: Seq<char>| occurs_in(query, line)
}

/// The test that case-insensitive search puts to a line: the lowercase form
/// of `query` is a contiguous part of the lowercase form of the line.
pub open spec fn holds_query_folded(query: Seq<char>) -> spec_fn(Seq<char>) -> bool {
    |line: Seq<char>| occurs_in(lowercase_of(query), lowercase_of(line))
}

/// What exact search returns: the lines of `content` that hold `query`, as
/// they stand, in order.
pub open spec fn exact_matches(query: Seq<char>, content: Seq<char>) -> Seq<Seq<char>> {
    lines_of(content).filter(holds_query(query))
}

/// The lines of `content` that case-insensitive search picks, before they
/// are trimmed.
pub open spec fn folded_picks(query: Seq<char>, content: Seq<char>) -> Seq<Seq<char>> {
    lines_of(content).filter(holds_query_folded(query))
}

/// What case-insensitive search returns: each picked line without its
/// leading and trailing whitespace, in its own case, in order.
pub open spec fn folded_matches(query: Seq<char>, content: Seq<char>) -> Seq<Seq<char>> {
    folded_picks(query, content).map_values(|line: Seq<char>| trimmed(line))
}

/// The lines of `contents` in which `query` occurs character for character,
/// untrimmed and in their order. Each is a slice of `contents`.
pub fn search<'a>(query: &str, contents: &'a str) -> (found: Vec<&'a str>)
    ensures
        texts(found@) == exact_matches(query@, contents@),
        query@.len() == 0 ==> texts(found@) == lines_of(contents@),
{
    let q = chars_of(query);
    let all = lines(contents);
    let mut found: Vec<&'a str> = Vec::new();
    let ghost keep = holds_query(query@);
    proof {
        reveal(Seq::filter);
        assert(texts(found@) =~= texts(all@).take(0).filter(keep));
    }
    for i in 0..all.len()
        invariant
            q@ == query@,
            keep == holds_query(query@),
            texts(found@) == texts(all@).take(i as int).filter(keep),
    {
        let line: &'a str = all[i];
        let hit = line_holds(line, q.as_slice());
        let ghost before = texts(found@);
        if hit {
            found.push(line);
        }
        proof {
            let seen = texts(all@).take(i as int);
            assert(texts(all@).take(i + 1) =~= seen.push(line@));
            seen.lemma_filter_push(line@, keep);
            if hit {
                assert(texts(found@) =~= before.push(line@));
            }
        }
    }
    proof {
        assert(texts(all@).take(all@.len() as int) =~= texts(all@));
        if query@.len() == 0 {
            law_empty_query_keeps_every_line(query@, contents@);
        }
    }
    found
}

/// The lines of `contents` whose lowercase form holds the lowercase form of
/// `query`, in their order; each is returned in its own case, without its
/// leading and trailing whitespace, as a slice of `contents`.
pub fn search_case_insensitive<'a>(query: &str, contents: &'a str) -> (found: Vec<&'a str>)
    ensures
        texts(found@) == folded_matches(query@, contents@),
        query@.len() == 0 ==> texts(found@) == lines_of(contents@).map_values(
            |line: Seq<char>| trimmed(line),
        ),
{
    let folded_query = to_lowercase(query);
    let q = chars_of(folded_query.as_str());
    let all = lines(contents);
    let mut found: Vec<&'a str> = Vec::new();
    let ghost keep = holds_query_folded(query@);
    let ghost strip = |line: Seq<char>| trimmed(line);
    proof {
        reveal(Seq::filter);
        assert(texts(found@) =~= texts(all@).take(0).filter(keep).map_values(strip));
    }
    for i in 0..all.len()
        invariant
            q@ == lowercase_of(query@),
            keep == holds_query_folded(query@),
            strip == |line: Seq<char>| trimmed(line),
            texts(found@) == texts(all@).take(i as int).filter(keep).map_values(strip),
    {
        let line: &'a str = all[i];
        let folded_line = to_lowercase(line);
        let hit = line_holds(folded_line.as_str(), q.as_slice());
        let ghost before = texts(found@);
        if hit {
            found.push(trim(line));
        }
        proof {
            let seen = texts(all@).take(i as int);
            assert(texts(all@).take(i + 1) =~= seen.push(line@));
            seen.lemma_filter_push(line@, keep);
            if hit {
                assert(texts(found@) =~= before.push(trimmed(line@)));
                assert(seen.filter(keep).push(line@).map_values(strip) =~= before.push(
                    trimmed(line@),
                ));
            }
        }
    }
    proof {
        assert(texts(all@).take(all@.len() as int) =~= texts(all@));
        if query@.len() == 0 {
            law_empty_folded_query_keeps_every_line(query@, contents@);
        }
    }
    found
}

/// Runs the search that `config` asks for on `contents`, the text of its
/// file: exact where it is case sensitive, case-insensitive where not.
pub fn run<'a>(config: &Config, contents: &'a str) -> (found: Vec<&'a str>)
    ensures
        texts(found@) == matches_of(config@.case_sensitive, config@.query, contents@),
{
    if config.case_sensitive {
        search(config.query.as_str(), contents)
    } else {
        search_case_insensitive(config.query.as_str(), contents)
    }
}

/// The empty query occurs in every line: exact search for it returns all the
/// lines of the content, unchanged and in order.
pub proof fn law_empty_query_keeps_every_line(query: Seq<char>, content: Seq<char>)
    requires
        query.len() == 0,
    ensures
        exact_matches(query, content) == lines_of(content),
{
    let keep = holds_query(query);
    assert forall|line: Seq<char>| #[trigger] keep(line) by {
        lemma_empty_occurs(query, line);
    }
    lemma_keep_all(lines_of(content), keep);
}

/// A query whose lowercase form is empty occurs in the lowercase form of
/// every line: case-insensitive search for it returns all the lines of the
/// content, each trimmed, in order.
pub proof fn law_empty_folded_query_keeps_every_line(query: Seq<char>, content: Seq<char>)
    requires
        lowercase_of(query).len() == 0,
    ensures
        folded_picks(query, content) == lines_of(content),
        folded_matches(query, content) == lines_of(content).map_values(
            |line: Seq<char>| trimmed(line),
        ),
{
    let keep = holds_query_folded(query);
    assert forall|line: Seq<char>| #[trigger] keep(line) by {
        lemma_empty_occurs(lowercase_of(query), lowercase_of(line));
    }
    lemma_keep_all(lines_of(content), keep);
}

/// The empty text occurs in every text.
proof fn lemma_empty_occurs(needle: Seq<char>, hay: Seq<char>)
    requires
        needle.len() == 0,
    ensures
        occurs_in(needle, hay),
{
    assert(hay.subrange(0, 0) =~= needle);
    assert(occurs_at(needle, hay, 0));
}

/// A filter that every member passes drops nothing.
proof fn lemma_keep_all(all: Seq<Seq<char>>, keep: spec_fn(Seq<char>) -> bool)
    requires
        forall|line: Seq<char>| #[trigger] keep(line),
    ensures
        all.filter(keep) == all,
    decreases all.len(),
{
    reveal(Seq::filter);
    if all.len() > 0 {
        lemma_keep_all(all.drop_last(), keep);
        assert(all.drop_last().push(all.last()) =~= all);
    }
}

/// `at` names, for each member of `sub`, a position in `full` that holds it,
/// and the positions rise strictly: `sub` is what is left of `full` when the
/// members at the other positions are struck out.
pub open spec fn picks(sub: Seq<Seq<char>>, full: Seq<Seq<char>>, at: Seq<int>) -> bool {
    &&& at.len() == sub.len()
    &&& forall|i: int| 0 <= i < at.len() ==> 0 <= #[trigger] at[i] < full.len()
    &&& forall|i: int| 0 <= i < at.len() ==> #[trigger] sub[i] == full[at[i]]
    &&& forall|i: int, j: int| 0 <= i < j < at.len() ==> #[trigger] at[i] < #[trigger] at[j]
}

/// `sub` is a subsequence of `full`: some of its members, not necessarily
/// adjacent ones, in the order in which they stand in `full`.
pub open spec fn is_subsequence(sub: Seq<Seq<char>>, full: Seq<Seq<char>>) -> bool {
    exists|at: Seq<int>| picks(sub, full, at)
}

/// What a filter keeps is a subsequence of what it was given.
proof fn lemma_filter_picks(full: Seq<Seq<char>>, keep: spec_fn(Seq<char>) -> bool) -> (at: Seq<
    int,
>)
    ensures
        picks(full.filter(keep), full, at),
    decreases full.len(),
{
    reveal(Seq::filter);
    if full.len() == 0 {
        Seq::empty()
    } else {
        let head = full.drop_last();
        let at = lemma_filter_picks(head, keep);
        if keep(full.last()) {
            let more = at.push(full.len() - 1);
            assert(picks(full.filter(keep), full, more));
            more
        } else {
            assert(picks(full.filter(keep), full, at));
            at
        }
    }
}

/// Exact search returns a subsequence of the content's lines, in their
/// order, and the query occurs verbatim in each line returned.
pub proof fn law_exact_matches_are_lines_holding_query(query: Seq<char>, content: Seq<char>)
    ensures
        is_subsequence(exact_matches(query, content), lines_of(content)),
        forall|i: int|
            0 <= i < exact_matches(query, content).len() ==> occurs_in(
                query,
                #[trigger] exact_matches(query, content)[i],
            ),
{
    let all = lines_of(content);
    let keep = holds_query(query);
    let at = lemma_filter_picks(all, keep);
    assert forall|i: int| 0 <= i < all.filter(keep).len() implies occurs_in(
        query,
        #[trigger] all.filter(keep)[i],
    ) by {
        all.lemma_filter_pred(keep, i);
    }
}

/// Case-insensitive search picks a subsequence of the content's lines, in
/// their order; each line returned is the trimmed form of the line picked
/// at its place, and the lowercase form of that line holds the lowercase
/// form of the query.
pub proof fn law_folded_matches_are_trimmed_lines(query: Seq<char>, content: Seq<char>)
    ensures
        is_subsequence(folded_picks(query, content), lines_of(content)),
        folded_matches(query, content).len() == folded_picks(query, content).len(),
        forall|i: int|
            #![trigger folded_matches(query, content)[i]]
            0 <= i < folded_matches(query, content).len() ==> {
                &&& folded_matches(query, content)[i] == trimmed(folded_picks(query, content)[i])
                &&& occurs_in(lowercase_of(query), lowercase_of(folded_picks(query, content)[i]))
            },
{
    let all = lines_of(content);
    let keep = holds_query_folded(query);
    let at = lemma_filter_picks(all, keep);
    assert forall|i: int| 0 <= i < all.filter(keep).len() implies occurs_in(
        lowercase_of(query),
        lowercase_of(#[trigger] all.filter(keep)[i]),
    ) by {
        all.lemma_filter_pred(keep, i);
    }
}

/// Searching again gives the same: two runs of a matcher on texts that read
/// the same return the same lines in the same order, wherever the texts are
/// stored.
pub proof fn law_same_inputs_same_matches(
    query: &str,
    contents: &str,
    query_again: &str,
    contents_again: &str,
    found: Seq<&str>,
    found_again: Seq<&str>,
    case_sensitive: bool,
)
    requires
        query@ == query_again@,
        contents@ == contents_again@,
        texts(found) == matches_of(case_sensitive, query@, contents@),
        texts(found_again) == matches_of(case_sensitive, query_again@, contents_again@),
    ensures
        texts(found) == texts(found_again),
{
}

/// What a search returns, by the kind of search.
pub open spec fn matches_of(case_sensitive: bool, query: Seq<char>, content: Seq<char>) -> Seq<
    Seq<char>,
> {
    if case_sensitive {
        exact_matches(query, content)
    } else {
        folded_matches(query, content)
    }
}

} // verus!
