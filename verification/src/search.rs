//! The fuzzy search over the tracked files: every file is scored against the
//! query without regard to case, and the best matches are handed out, best
//! first and no more than a fixed number.

use fuzzy_matcher::skim::SkimMatcherV2;
use fuzzy_matcher::FuzzyMatcher;
use vstd::prelude::*;
use vstd::string::StrSliceExecFns;
use crate::text::texts;

verus! {

/// The most matches that a search hands out.
pub const RESULT_CAP: usize = 50;

/// The longest text, in characters, that is scored. The scorer adds up a
/// score of 32 bits, which stays far from its limits on texts of this
/// length; a longer file name or query matches nothing.
pub const SCORED_LENGTH: usize = 65536;

/// `s` in lower case, as `str::to_lowercase` of the standard library gives it.
pub uninterp spec fn lowercase_of(s: Seq<char>) -> Seq<char>;

/// `str::to_lowercase` of the standard library: the result depends on the
/// text alone, and `lowercase_of` is the name for it.
pub assume_specification[ str::to_lowercase ](s: &str) -> (out: String)
    ensures
        out@ == lowercase_of(s@),
;

/// The code point of `c`, with the capital letters A to Z taken as their
/// small letters.
pub open spec fn ascii_folded(c: char) -> u32 {
    let n = c as u32;
    if 0x41 <= n <= 0x5A {
        (n + 0x20) as u32
    } else {
        n
    }
}

/// Whether `at` gives, for each character of `pattern`, a position of
/// `choice` that holds the same character but for the case of the letters A
/// to Z, each position after the one before.
pub open spec fn is_placing(pattern: Seq<char>, choice: Seq<char>, at: Seq<int>) -> bool {
    &&& at.len() == pattern.len()
    &&& forall|i: int|
        0 <= i < at.len() ==> 0 <= #[trigger] at[i] < choice.len() && ascii_folded(choice[at[i]])
            == ascii_folded(pattern[i])
    &&& forall|i: int, j: int| 0 <= i < j < at.len() ==> at[i] < at[j]
}

/// Whether the characters of `pattern` occur in `choice` in their order,
/// not necessarily side by side, and without regard to the case of the
/// letters A to Z.
pub open spec fn is_scattered_in(pattern: Seq<char>, choice: Seq<char>) -> bool {
    exists|at: Seq<int>| is_placing(pattern, choice, at)
}

/// The score that the skim matcher (version 2, as `Default` configures it)
/// gives to `choice` against `pattern`, or nothing where `pattern` does not
/// match.
pub uninterp spec fn skim_score(choice: Seq<char>, pattern: Seq<char>) -> Option<i64>;

/// `fuzzy_match` of `fuzzy_matcher::skim::SkimMatcherV2`, on a matcher made by
/// `SkimMatcherV2::default()`: the result depends on the two texts alone, and
/// `skim_score` is the name for it. The matcher gives a score only where it
/// finds the characters of the pattern in the choice, in their order, equal
/// at least up to the case of ASCII letters. Texts longer than
/// `SCORED_LENGTH` are kept from the matcher.
#[verifier::external_body]
fn skim_match(choice: &str, pattern: &str) -> (out: Option<i64>)
    requires
        choice@.len() <= SCORED_LENGTH,
        pattern@.len() <= SCORED_LENGTH,
    ensures
        out == skim_score(choice@, pattern@),
        out is Some ==> is_scattered_in(pattern@, choice@),
{
    SkimMatcherV2::default().fuzzy_match(choice, pattern)
}

/// The score of `candidate` against `query`: both in lower case, scored by
/// the skim matcher. The empty query matches nothing, and neither does a text
/// that is longer than `SCORED_LENGTH` in lower case.
pub open spec fn score_of(candidate: Seq<char>, query: Seq<char>) -> Option<i64> {
    if query.len() == 0 || lowercase_of(query).len() > SCORED_LENGTH || lowercase_of(
        candidate,
    ).len() > SCORED_LENGTH {
        None
    } else {
        skim_score(lowercase_of(candidate), lowercase_of(query))
    }
}

/// Whether `candidate` holds the characters of `query` in their order: both
/// in lower case, and not necessarily side by side.
pub open spec fn holds_query(candidate: Seq<char>, query: Seq<char>) -> bool {
    is_scattered_in(lowercase_of(query), lowercase_of(candidate))
}

/// Scores `candidate` against `query`, as `score_of` says. Only a
/// candidate that holds the query has a score.
pub fn match_score(candidate: &str, query: &str) -> (out: Option<i64>)
    ensures
        out == score_of(candidate@, query@),
        out is Some ==> holds_query(candidate@, query@),
{
    if query.is_empty() {
        return None;
    }
    let pattern = query.to_lowercase();
    if pattern.as_str().unicode_len() > SCORED_LENGTH {
        return None;
    }
    let choice = candidate.to_lowercase();
    if choice.as_str().unicode_len() > SCORED_LENGTH {
        return None;
    }
    skim_match(choice.as_str(), pattern.as_str())
}

/// Whether candidate `i` comes before candidate `j` in a ranking: it has the
/// higher score, or the same score and the earlier place in the list. Both
/// are candidates with a score.
pub open spec fn outranks(scores: Seq<Option<i64>>, i: int, j: int) -> bool {
    scores[i]->0 > scores[j]->0 || (scores[i]->0 == scores[j]->0 && i < j)
}

/// Whether `picks` is the ranking of the first `upto` candidates, cut off
/// after `cap` places: it holds positions of candidates with a score, each
/// before the next in rank, and a scored candidate is left out only where all
/// `cap` places are taken by candidates that come before it.
pub open spec fn is_ranking_upto(
    scores: Seq<Option<i64>>,
    upto: int,
    picks: Seq<usize>,
    cap: nat,
) -> bool {
    &&& picks.len() <= cap
    &&& forall|k: int|
        0 <= k < picks.len() ==> (#[trigger] picks[k]) < upto && scores[picks[k] as int] is Some
    &&& forall|k: int, l: int|
        0 <= k < l < picks.len() ==> outranks(
            scores,
            #[trigger] picks[k] as int,
            #[trigger] picks[l] as int,
        )
    &&& forall|j: int|
        0 <= j < upto && (#[trigger] scores[j]) is Some && !picks.contains(j as usize) ==> {
            &&& picks.len() == cap
            &&& forall|k: int|
                0 <= k < picks.len() ==> outranks(scores, #[trigger] picks[k] as int, j)
        }
}

/// Whether `picks` is the ranking of all candidates, cut off after `cap`
/// places.
pub open spec fn is_ranking(scores: Seq<Option<i64>>, picks: Seq<usize>, cap: nat) -> bool {
    is_ranking_upto(scores, scores.len() as int, picks, cap)
}

/// The positions of the `cap` best candidates with a score, best first:
/// by falling score, and among equal scores in the order of the list.
pub fn top_matches(scores: &Vec<Option<i64>>, cap: usize) -> (out: Vec<usize>)
    ensures
        is_ranking(scores@, out@, cap as nat),
{
    let n = scores.len();
    let mut picks: Vec<usize> = Vec::new();
    let mut i: usize = 0;
    while i < n
        invariant
            n == scores@.len(),
            i <= n,
            is_ranking_upto(scores@, i as int, picks@, cap as nat),
        decreases n - i,
    {
        match scores[i] {
            None => {
                assert(is_ranking_upto(scores@, i + 1, picks@, cap as nat));
            },
            Some(score) => {
                let mut pos: usize = 0;
                while pos < picks.len() && scores[picks[pos]].unwrap() >= score
                    invariant
                        n == scores@.len(),
                        i < n,
                        scores@[i as int] == Some(score),
                        pos <= picks@.len(),
                        is_ranking_upto(scores@, i as int, picks@, cap as nat),
                        forall|k: int|
                            0 <= k < pos ==> outranks(scores@, #[trigger] picks@[k] as int, i as int),
                    decreases picks@.len() - pos,
                {
                    pos += 1;
                }
                let ghost before = picks@;
                proof {
                    assert(!before.contains(i)) by {
                        if before.contains(i) {
                            let k = choose|k: int| 0 <= k < before.len() && before[k] == i;
                            assert(before[k] < i);
                        }
                    }
                    assert forall|k: int| pos <= k < before.len() implies outranks(
                        scores@,
                        i as int,
                        #[trigger] before[k] as int,
                    ) by {
                        if k > pos {
                            assert(outranks(scores@, before[pos as int] as int, before[k] as int));
                        }
                    }
                }
                if pos < picks.len() {
                    picks.insert(pos, i);
                    let ghost grown = picks@;
                    proof {
                        assert forall|k: int| 0 <= k < grown.len() implies #[trigger] grown[k] == (
                        if k < pos {
                            before[k]
                        } else if k == pos {
                            i
                        } else {
                            before[k - 1]
                        }) by {}
                        assert forall|j: usize| before.contains(j) implies grown.contains(j) by {
                            let k = choose|k: int| 0 <= k < before.len() && before[k] == j;
                            if k < pos {
                                assert(grown[k] == j);
                            } else {
                                assert(grown[k + 1] == j);
                            }
                        }
                        assert(grown[pos as int] == i);
                        assert(is_ranking_upto(scores@, i + 1, grown, (cap + 1) as nat)) by {
                            assert forall|j: int|
                                0 <= j < i + 1 && (#[trigger] scores@[j]) is Some
                                    && !grown.contains(j as usize) implies {
                                &&& grown.len() == cap + 1
                                &&& forall|k: int|
                                    0 <= k < grown.len() ==> outranks(
                                        scores@,
                                        #[trigger] grown[k] as int,
                                        j,
                                    )
                            } by {
                                assert(j < i);
                                assert(!before.contains(j as usize));
                                assert(outranks(scores@, before[pos as int] as int, j));
                                assert forall|k: int| 0 <= k < grown.len() implies outranks(
                                    scores@,
                                    #[trigger] grown[k] as int,
                                    j,
                                ) by {
                                    if k < pos {
                                        assert(outranks(scores@, before[k] as int, j));
                                    } else if k > pos {
                                        assert(outranks(scores@, before[k - 1] as int, j));
                                    }
                                }
                            }
                        }
                    }
                    if picks.len() > cap {
                        let dropped = picks.pop();
                        proof {
                            let cut = picks@;
                            assert(cut =~= grown.drop_last());
                            assert(grown.len() == cap + 1);
                            let last = grown[grown.len() - 1];
                            assert forall|j: int|
                                0 <= j < i + 1 && (#[trigger] scores@[j]) is Some && !cut.contains(
                                    j as usize,
                                ) implies {
                                &&& cut.len() == cap
                                &&& forall|k: int|
                                    0 <= k < cut.len() ==> outranks(
                                        scores@,
                                        #[trigger] cut[k] as int,
                                        j,
                                    )
                            } by {
                                if grown.contains(j as usize) {
                                    let m = choose|m: int|
                                        0 <= m < grown.len() && grown[m] == j as usize;
                                    if m < cut.len() {
                                        assert(cut[m] == j as usize);
                                    }
                                    assert(m == grown.len() - 1);
                                    assert forall|k: int| 0 <= k < cut.len() implies outranks(
                                        scores@,
                                        #[trigger] cut[k] as int,
                                        j,
                                    ) by {
                                        assert(outranks(
                                            scores@,
                                            grown[k] as int,
                                            grown[m] as int,
                                        ));
                                    }
                                } else {
                                    assert forall|k: int| 0 <= k < cut.len() implies outranks(
                                        scores@,
                                        #[trigger] cut[k] as int,
                                        j,
                                    ) by {
                                        assert(outranks(scores@, grown[k] as int, j));
                                    }
                                }
                            }
                            assert(is_ranking_upto(scores@, i + 1, cut, cap as nat));
                        }
                    } else {
                        proof {
                            assert forall|j: int|
                                0 <= j < i + 1 && (#[trigger] scores@[j]) is Some
                                    && !grown.contains(j as usize) implies false by {}
                            assert(is_ranking_upto(scores@, i + 1, grown, cap as nat));
                        }
                    }
                } else if picks.len() < cap {
                    picks.push(i);
                    proof {
                        let grown = picks@;
                        assert(grown =~= before.push(i));
                        assert(grown[before.len() as int] == i);
                        assert forall|j: usize| before.contains(j) implies grown.contains(j) by {
                            let k = choose|k: int| 0 <= k < before.len() && before[k] == j;
                            assert(grown[k] == j);
                        }
                        assert(is_ranking_upto(scores@, i + 1, grown, cap as nat));
                    }
                } else {
                    proof {
                        assert(is_ranking_upto(scores@, i + 1, picks@, cap as nat));
                    }
                }
            },
        }
        i += 1;
    }
    picks
}

/// The scores of `files` against `query`, file by file.
pub open spec fn scores_of(files: Seq<Seq<char>>, query: Seq<char>) -> Seq<Option<i64>> {
    Seq::new(files.len(), |i: int| score_of(files[i], query))
}

/// The files at the positions `picks`, in that order.
pub open spec fn picked(files: Seq<Seq<char>>, picks: Seq<usize>) -> Seq<Seq<char>> {
    Seq::new(picks.len(), |k: int| files[picks[k] as int])
}

/// Whether `found` is what a search for `query` among `files` gives: the
/// files at the places of the ranking of their scores, cut off after
/// `RESULT_CAP`.
pub open spec fn is_search_result(
    files: Seq<Seq<char>>,
    query: Seq<char>,
    found: Seq<Seq<char>>,
) -> bool {
    exists|picks: Seq<usize>| #[trigger]
        is_ranking(scores_of(files, query), picks, RESULT_CAP as nat) && found == picked(
            files,
            picks,
        )
}

/// The scores of `files` against `query`. Only a file that holds the query
/// has a score.
pub fn score_files(files: &Vec<String>, query: &str) -> (out: Vec<Option<i64>>)
    ensures
        out@ == scores_of(texts(files@), query@),
        forall|i: int|
            0 <= i < out@.len() && (#[trigger] out@[i]) is Some ==> holds_query(
                texts(files@)[i],
                query@,
            ),
{
    let mut scores: Vec<Option<i64>> = Vec::new();
    let mut i: usize = 0;
    while i < files.len()
        invariant
            i <= files@.len(),
            scores@.len() == i,
            forall|k: int|
                0 <= k < i ==> #[trigger] scores@[k] == score_of(texts(files@)[k], query@),
            forall|k: int|
                0 <= k < i && (#[trigger] scores@[k]) is Some ==> holds_query(
                    texts(files@)[k],
                    query@,
                ),
        decreases files@.len() - i,
    {
        assert(texts(files@)[i as int] == files@[i as int]@);
        scores.push(match_score(files[i].as_str(), query));
        i += 1;
    }
    assert(scores@ =~= scores_of(texts(files@), query@));
    scores
}

/// Searches `files` for `query`: the files that match, best first, and no
/// more than `RESULT_CAP` of them. Every file found holds the query. The
/// empty query finds nothing.
pub fn filter_files(files: &Vec<String>, query: &str) -> (out: Vec<String>)
    ensures
        is_search_result(texts(files@), query@, texts(out@)),
        out@.len() <= RESULT_CAP,
        forall|k: int| 0 <= k < out@.len() ==> holds_query(#[trigger] texts(out@)[k], query@),
        query@.len() == 0 ==> out@.len() == 0,
{
    let scores = score_files(files, query);
    let picks = top_matches(&scores, RESULT_CAP);
    let mut out: Vec<String> = Vec::new();
    let mut k: usize = 0;
    while k < picks.len()
        invariant
            k <= picks@.len(),
            scores@.len() == files@.len(),
            is_ranking(scores@, picks@, RESULT_CAP as nat),
            out@.len() == k,
            forall|m: int| 0 <= m < k ==> (#[trigger] out@[m])@ == files@[picks@[m] as int]@,
            forall|i: int|
                0 <= i < scores@.len() && (#[trigger] scores@[i]) is Some ==> holds_query(
                    texts(files@)[i],
                    query@,
                ),
        decreases picks@.len() - k,
    {
        out.push(files[picks[k]].clone());
        k += 1;
    }
    proof {
        assert(texts(out@) =~= picked(texts(files@), picks@));
        assert forall|k: int| 0 <= k < out@.len() implies holds_query(
            #[trigger] texts(out@)[k],
            query@,
        ) by {
            assert(scores@[picks@[k] as int] is Some);
            assert(texts(out@)[k] == texts(files@)[picks@[k] as int]);
        }
        if query@.len() == 0 {
            lemma_no_query_no_match(texts(files@), query@, picks@);
        }
    }
    out
}

/// The empty query finds nothing: its ranking has no place.
pub proof fn lemma_no_query_no_match(files: Seq<Seq<char>>, query: Seq<char>, picks: Seq<usize>)
    requires
        is_ranking(scores_of(files, query), picks, RESULT_CAP as nat),
        query.len() == 0,
    ensures
        picks.len() == 0,
{
    if picks.len() > 0 {
        assert(scores_of(files, query)[picks[0] as int] is Some);
    }
}

/// A ranking is determined by the scores and the cap: two rankings of the
/// same scores with the same cap are equal.
pub proof fn lemma_ranking_unique(
    scores: Seq<Option<i64>>,
    first: Seq<usize>,
    second: Seq<usize>,
    cap: nat,
)
    requires
        is_ranking(scores, first, cap),
        is_ranking(scores, second, cap),
    ensures
        first == second,
{
    lemma_ranking_prefix(scores, first, second, cap);
    lemma_ranking_prefix(scores, second, first, cap);
    lemma_ranking_longer(scores, first, second, cap);
    lemma_ranking_longer(scores, second, first, cap);
    assert(first =~= second);
}

/// Two rankings of the same scores agree at every place that both have.
proof fn lemma_ranking_prefix(
    scores: Seq<Option<i64>>,
    first: Seq<usize>,
    second: Seq<usize>,
    cap: nat,
)
    requires
        is_ranking(scores, first, cap),
        is_ranking(scores, second, cap),
    ensures
        forall|k: int| 0 <= k < first.len() && k < second.len() ==> first[k] == second[k],
{
    assert forall|k: int| 0 <= k < first.len() && k < second.len() implies first[k]
        == second[k] by {
        lemma_ranking_place(scores, first, second, cap, k);
    }
}

/// Two rankings of the same scores agree at place `k`.
proof fn lemma_ranking_place(
    scores: Seq<Option<i64>>,
    first: Seq<usize>,
    second: Seq<usize>,
    cap: nat,
    k: int,
)
    requires
        is_ranking(scores, first, cap),
        is_ranking(scores, second, cap),
        0 <= k < first.len(),
        k < second.len(),
    ensures
        first[k] == second[k],
    decreases k,
{
    assert forall|m: int| 0 <= m < k implies first[m] == second[m] by {
        lemma_ranking_place(scores, first, second, cap, m);
    }
    let a = first[k];
    let b = second[k];
    if a != b {
        lemma_ranking_gap(scores, first, second, cap, k);
        lemma_ranking_gap(scores, second, first, cap, k);
        assert(scores[a as int] is Some && scores[b as int] is Some);
    }
}

/// Where two rankings agree before place `k` and differ at `k`, the first
/// one does not hold the better candidate there.
proof fn lemma_ranking_gap(
    scores: Seq<Option<i64>>,
    first: Seq<usize>,
    second: Seq<usize>,
    cap: nat,
    k: int,
)
    requires
        is_ranking(scores, first, cap),
        is_ranking(scores, second, cap),
        0 <= k < first.len(),
        k < second.len(),
        forall|m: int| 0 <= m < k ==> first[m] == second[m],
        first[k] != second[k],
    ensures
        !outranks(scores, first[k] as int, second[k] as int),
{
    let a = first[k];
    if !outranks(scores, a as int, second[k] as int) {
    } else if second.contains(a) {
        let m = choose|m: int| 0 <= m < second.len() && second[m] == a;
        if m < k {
            assert(first[m] == second[m]);
            assert(outranks(scores, first[m] as int, first[k] as int));
        } else {
            assert(m > k);
            assert(outranks(scores, second[k] as int, second[m] as int));
        }
    } else {
        assert(scores[a as int] is Some);
        assert(outranks(scores, second[k] as int, a as int));
    }
}

/// Of two rankings of the same scores that agree where both have a place,
/// the second is not the longer one.
proof fn lemma_ranking_longer(
    scores: Seq<Option<i64>>,
    first: Seq<usize>,
    second: Seq<usize>,
    cap: nat,
)
    requires
        is_ranking(scores, first, cap),
        is_ranking(scores, second, cap),
        forall|k: int| 0 <= k < first.len() && k < second.len() ==> first[k] == second[k],
    ensures
        second.len() <= first.len(),
{
    if first.len() >= second.len() {
        return ;
    }
    let extra = second[first.len() as int];
    if first.contains(extra) {
        let m = choose|m: int| 0 <= m < first.len() && first[m] == extra;
        assert(second[m] == first[m]);
        assert(outranks(scores, second[m] as int, second[first.len() as int] as int));
    } else {
        assert(scores[extra as int] is Some);
        assert(first.len() == cap);
    }
}

/// What a search result is like: it has no more than `RESULT_CAP` files,
/// every one of them has a score against the query, and no file has a
/// higher score than the one before it.
pub proof fn lemma_search_result_ordered(
    files: Seq<Seq<char>>,
    query: Seq<char>,
    found: Seq<Seq<char>>,
)
    requires
        is_search_result(files, query, found),
    ensures
        found.len() <= RESULT_CAP,
        forall|k: int| 0 <= k < found.len() ==> score_of(#[trigger] found[k], query) is Some,
        forall|k: int, l: int|
            0 <= k < l < found.len() ==> score_of(found[k], query)->0 >= score_of(
                found[l],
                query,
            )->0,
        query.len() == 0 ==> found.len() == 0,
{
    let scores = scores_of(files, query);
    let picks = choose|picks: Seq<usize>| #[trigger]
        is_ranking(scores, picks, RESULT_CAP as nat) && found == picked(files, picks);
    assert forall|k: int| 0 <= k < found.len() implies score_of(#[trigger] found[k], query)
        == scores[picks[k] as int] && scores[picks[k] as int] is Some by {
        assert(picks[k] < scores.len());
    }
    assert forall|k: int, l: int| 0 <= k < l < found.len() implies score_of(found[k], query)->0
        >= score_of(found[l], query)->0 by {
        assert(outranks(scores, picks[k] as int, picks[l] as int));
        assert(score_of(found[k], query) == scores[picks[k] as int]);
        assert(score_of(found[l], query) == scores[picks[l] as int]);
    }
    if query.len() == 0 {
        lemma_no_query_no_match(files, query, picks);
    }
}

/// A search has one result: two results for the same files and query are
/// equal.
pub proof fn lemma_search_result_unique(
    files: Seq<Seq<char>>,
    query: Seq<char>,
    first: Seq<Seq<char>>,
    second: Seq<Seq<char>>,
)
    requires
        is_search_result(files, query, first),
        is_search_result(files, query, second),
    ensures
        first == second,
{
    let scores = scores_of(files, query);
    let p = choose|picks: Seq<usize>| #[trigger]
        is_ranking(scores, picks, RESULT_CAP as nat) && first == picked(files, picks);
    let q = choose|picks: Seq<usize>| #[trigger]
        is_ranking(scores, picks, RESULT_CAP as nat) && second == picked(files, picks);
    lemma_ranking_unique(scores, p, q, RESULT_CAP as nat);
}

} // verus!
