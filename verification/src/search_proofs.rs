//! What holds of every search: proofs about the outcome that `search` returns.

use crate::bookmarks::BookmarkView;
use crate::config::{result_limit, ConfigView};
use crate::models::{ApplicationView, ResultView};
use crate::search_core::{
    app_candidates, best_field_score, bind_all, bookmark_candidates, candidate_results,
    eligible_candidates, fields_score, fuzzy_matches, looks_like_url, ranked, result_scores,
    search_outcome, skim_score, token_field_score, tokens_score, url_result, web_search_result,
    web_search_url, Candidate, FieldView, QueryMode, SearchOutcome,
};
use crate::stable_order::{by_score_desc, is_stable_order, lemma_score_order, stable_order};
use crate::state::ActionView;
use crate::text::{lemma_trim_has_word, split_words, trim};
use vstd::prelude::*;

verus! {

/// A search is a function of the query, the mode, the two indexes and the
/// configuration: two outcomes for the same inputs hold the same results in
/// the same order and the same actions.
pub proof fn theorem_search_is_deterministic(
    query: Seq<char>,
    mode: QueryMode,
    apps: Seq<ApplicationView>,
    bookmarks: Seq<BookmarkView>,
    config: ConfigView,
    first: SearchOutcome,
    second: SearchOutcome,
)
    requires
        first == search_outcome(query, mode, apps, bookmarks, config),
        second == search_outcome(query, mode, apps, bookmarks, config),
    ensures
        first.results == second.results,
        first.actions == second.actions,
{
}

/// Ranking rearranges the results and loses none: the ranked results are as
/// many, each of them is one of the given results and each given result is
/// among them; no result stands before one of a higher score.
pub proof fn theorem_ranked_is_sorted(results: Seq<ResultView>)
    ensures
        ranked(results).len() == results.len(),
        forall|a: int, b: int|
            0 <= a < b < results.len() ==> (#[trigger] ranked(results)[a]).score >= (
            #[trigger] ranked(results)[b]).score,
        forall|k: int| 0 <= k < results.len() ==> results.contains(#[trigger] ranked(results)[k]),
        forall|i: int| 0 <= i < results.len() ==> ranked(results).contains(#[trigger] results[i]),
{
    let scores = result_scores(results);
    let lt = by_score_desc(scores);
    let p = stable_order(results.len(), lt);
    lemma_score_order(scores);
    assert(is_stable_order(results.len(), lt, p));
    assert forall|a: int, b: int| 0 <= a < b < results.len() implies (#[trigger] ranked(
        results,
    )[a]).score >= (#[trigger] ranked(results)[b]).score by {
        assert(scores[p[a]] > scores[p[b]] || (scores[p[a]] == scores[p[b]] && p[a] < p[b]));
    }
    assert forall|k: int| 0 <= k < results.len() implies results.contains(
        #[trigger] ranked(results)[k],
    ) by {
        assert(results[p[k]] == ranked(results)[k]);
    }
    assert forall|i: int| 0 <= i < results.len() implies ranked(results).contains(
        #[trigger] results[i],
    ) by {
        assert(p.contains(i));
        let k = choose|k: int| 0 <= k < p.len() && p[k] == i;
        assert(ranked(results)[k] == results[i]);
    }
}

/// Whether the token matches at least one of the fields.
pub open spec fn matches_some_field(fields: Seq<FieldView>, token: Seq<char>) -> bool {
    exists|i: int| 0 <= i < fields.len() && skim_score(#[trigger] fields[i].text, token) is Some
}

/// A token has a best field score exactly where it matches some field.
pub proof fn lemma_best_field_score(fields: Seq<FieldView>, token: Seq<char>)
    ensures
        best_field_score(fields, token) is Some <==> matches_some_field(fields, token),
    decreases fields.len(),
{
    if fields.len() > 0 {
        let before = fields.drop_last();
        lemma_best_field_score(before, token);
        if matches_some_field(before, token) {
            let i = choose|i: int|
                0 <= i < before.len() && skim_score(#[trigger] before[i].text, token) is Some;
            assert(fields[i] == before[i]);
        }
        if token_field_score(fields.last(), token) is Some {
            assert(skim_score(fields[fields.len() - 1].text, token) is Some);
        }
        if matches_some_field(fields, token) {
            let i = choose|i: int|
                0 <= i < fields.len() && skim_score(#[trigger] fields[i].text, token) is Some;
            if i < before.len() {
                assert(before[i] == fields[i]);
            }
        }
    }
}

/// The tokens have a score exactly where each of them matches some field.
pub proof fn lemma_tokens_score(fields: Seq<FieldView>, tokens: Seq<Seq<char>>)
    ensures
        tokens_score(fields, tokens) is Some <==> forall|t: int|
            0 <= t < tokens.len() ==> matches_some_field(fields, #[trigger] tokens[t]),
    decreases tokens.len(),
{
    if tokens.len() > 0 {
        let before = tokens.drop_last();
        lemma_tokens_score(fields, before);
        lemma_best_field_score(fields, tokens.last());
        if tokens_score(fields, tokens) is Some {
            assert forall|t: int| 0 <= t < tokens.len() implies matches_some_field(
                fields,
                #[trigger] tokens[t],
            ) by {
                if t < before.len() {
                    assert(before[t] == tokens[t]);
                }
            }
        }
        if forall|t: int| 0 <= t < tokens.len() ==> matches_some_field(fields, #[trigger] tokens[t]) {
            assert forall|t: int| 0 <= t < before.len() implies matches_some_field(
                fields,
                #[trigger] before[t],
            ) by {
                assert(before[t] == tokens[t]);
            }
            assert(matches_some_field(fields, tokens[tokens.len() - 1]));
        }
    }
}

/// An entry matches a query of several tokens only where every token matches
/// at least one of its fields, and then it does.
pub proof fn theorem_every_token_must_match(
    fields: Seq<FieldView>,
    query: Seq<char>,
    tokens: Seq<Seq<char>>,
)
    ensures
        fields_score(fields, query, tokens) is Some <==> forall|t: int|
            0 <= t < tokens.len() ==> matches_some_field(fields, #[trigger] tokens[t]),
{
    lemma_tokens_score(fields, tokens);
}

/// Every matching application has an identity that begins with `a`.
proof fn lemma_app_candidate_ids(
    apps: Seq<ApplicationView>,
    query: Seq<char>,
    tokens: Seq<Seq<char>>,
)
    ensures
        forall|i: int|
            0 <= i < app_candidates(apps, query, tokens).len() ==> (#[trigger] app_candidates(
                apps,
                query,
                tokens,
            )[i]).result.id.first() == 'a',
    decreases apps.len(),
{
    reveal_strlit("app-");
    if apps.len() > 0 {
        lemma_app_candidate_ids(apps.drop_last(), query, tokens);
    }
}

/// Every matching bookmark has an identity that begins with `b`.
proof fn lemma_bookmark_candidate_ids(
    bookmarks: Seq<BookmarkView>,
    query: Seq<char>,
    tokens: Seq<Seq<char>>,
)
    ensures
        forall|i: int|
            0 <= i < bookmark_candidates(bookmarks, query, tokens).len() ==> (
            #[trigger] bookmark_candidates(bookmarks, query, tokens)[i]).result.id.first() == 'b',
    decreases bookmarks.len(),
{
    reveal_strlit("bookmark-");
    if bookmarks.len() > 0 {
        lemma_bookmark_candidate_ids(bookmarks.drop_last(), query, tokens);
    }
}

/// Binding candidates leaves alone every identity that none of them has.
proof fn lemma_bind_all_keeps(
    actions: Map<Seq<char>, ActionView>,
    candidates: Seq<Candidate>,
    key: Seq<char>,
)
    requires
        forall|i: int| 0 <= i < candidates.len() ==> (#[trigger] candidates[i]).result.id != key,
    ensures
        bind_all(actions, candidates).contains_key(key) == actions.contains_key(key),
        actions.contains_key(key) ==> bind_all(actions, candidates)[key] == actions[key],
    decreases candidates.len(),
{
    if candidates.len() > 0 {
        let before = candidates.drop_last();
        assert forall|i: int| 0 <= i < before.len() implies (#[trigger] before[i]).result.id
            != key by {
            assert(before[i] == candidates[i]);
        }
        lemma_bind_all_keeps(actions, before, key);
        assert(candidates[candidates.len() - 1].result.id != key);
    }
}

/// A query that reads as an address always has the address result first, with
/// score 200 and the action that opens the trimmed query, whatever the
/// indexes hold.
pub proof fn theorem_address_result_comes_first(
    query: Seq<char>,
    mode: QueryMode,
    apps: Seq<ApplicationView>,
    bookmarks: Seq<BookmarkView>,
    config: ConfigView,
)
    requires
        looks_like_url(trim(query)),
    ensures
        ({
            let outcome = search_outcome(query, mode, apps, bookmarks, config);
            &&& outcome.results.len() > 0
            &&& outcome.results[0] == url_result(trim(query))
            &&& outcome.results[0].score == 200
            &&& outcome.actions.contains_key(outcome.results[0].id)
            &&& outcome.actions[outcome.results[0].id] == ActionView::Url(trim(query))
        }),
{
    let text = trim(query);
    let tokens = split_words(text);
    reveal_strlit("http://");
    reveal_strlit("https://");
    reveal_strlit("url-0");
    reveal_strlit("search-");
    if text.contains('.') {
        let i = choose|i: int| 0 <= i < text.len() && text[i] == '.';
    }
    assert(text.len() > 0);
    lemma_trim_has_word(query);
    let candidates = eligible_candidates(text, tokens, mode, apps, bookmarks, config);
    let key = url_result(text).id;
    let head_actions = Map::<Seq<char>, ActionView>::empty().insert(key, ActionView::Url(text));
    lemma_app_candidate_ids(apps, text, tokens);
    lemma_bookmark_candidate_ids(bookmarks, text, tokens);
    assert(key.first() == 'u');
    assert forall|i: int| 0 <= i < candidates.len() implies (#[trigger] candidates[i]).result.id
        != key by {
        let id = candidates[i].result.id;
        assert(id.first() == 'a' || id.first() == 'b');
    }
    lemma_bind_all_keeps(head_actions, candidates, key);
    let listed = seq![url_result(text)] + ranked(candidate_results(candidates));
    let fallback = web_search_result(text, listed.len());
    assert(fallback.id.first() == 's');
    assert(listed[0] == url_result(text));
}

/// A search never returns more results than the configuration allows. Where
/// the mode allows the web-search fallback and the query is not empty, the
/// fallback is the last result and has an action; and where at least as many
/// results were found as are allowed, exactly as many as are allowed are
/// returned. Where the mode allows no fallback, no place is kept free: the
/// results are as many as were found, up to the limit.
pub proof fn theorem_results_are_capped(
    query: Seq<char>,
    mode: QueryMode,
    apps: Seq<ApplicationView>,
    bookmarks: Seq<BookmarkView>,
    config: ConfigView,
)
    ensures
        ({
            let outcome = search_outcome(query, mode, apps, bookmarks, config);
            let text = trim(query);
            let found = (if looks_like_url(text) {
                1nat
            } else {
                0nat
            }) + eligible_candidates(text, split_words(text), mode, apps, bookmarks, config).len();
            let fallback = web_search_result(text, found);
            &&& outcome.results.len() <= result_limit(config.max_results)
            &&& text.len() > 0 && mode.web_search_allowed() ==> {
                &&& outcome.results.len() > 0
                &&& outcome.results.last() == fallback
                &&& outcome.actions.contains_key(fallback.id)
                &&& outcome.actions[fallback.id] == ActionView::Search(web_search_url(text))
                &&& found >= result_limit(config.max_results) ==> outcome.results.len()
                    == result_limit(config.max_results)
            }
            &&& text.len() > 0 && !mode.web_search_allowed() ==> outcome.results.len() == (
            if found >= result_limit(config.max_results) {
                result_limit(config.max_results)
            } else {
                found
            })
        }),
{
    let text = trim(query);
    if text.len() > 0 {
        lemma_trim_has_word(query);
    }
}

/// A pattern that is not empty is no subsequence of an empty text.
pub proof fn theorem_empty_field_matches_no_token(token: Seq<char>)
    requires
        token.len() > 0,
    ensures
        !fuzzy_matches(Seq::<char>::empty(), token),
{
}

} // verus!
