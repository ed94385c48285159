//! The ranking engine: scores every eligible entry of the index against a
//! query over several weighted text fields, and returns the ranked, capped
//! result list with the action bound to each result.

use crate::bookmarks::{bookmark_views, BookmarkEntry, BookmarkView};
use crate::config::{result_limit, AppConfig, ConfigView};
use crate::models::{
    app_views, result_views, AppType, ApplicationInfo, ApplicationView, ResultView, SearchResult,
};
use crate::stable_order::{by_score_desc, ints, order_by_score_desc, positions, stable_order};
use crate::state::{ActionMap, ActionView, PendingAction};
use crate::text::{
    ascii_lower, chars_eq, chars_of, concat_str, contains, decimal, decimal_chars, first_index_of,
    has_substring, index_of, lemma_first_index_of, lemma_trim_len, lemma_words_bounded, opt_view,
    slice_of, spells, split_words, starts_with, string_of, texts_in_bounds, to_ascii_lower, trim,
    trimmed, unicode_lower, views, within_text_limit, words_of, MAX_TEXT_CHARS,
};
use vstd::utf8::encode_utf8;
use fuzzy_matcher::skim::SkimMatcherV2;
use fuzzy_matcher::FuzzyMatcher;
use vstd::prelude::*;

verus! {

/// What `fuzzy_matcher`'s `SkimMatcherV2`, with its default settings, returns
/// from `fuzzy_match` for the text `choice` and the pattern `pattern`: the
/// alignment score of the best match of `pattern` as a subsequence of `choice`,
/// or nothing where there is no such match.
pub uninterp spec fn skim_score(choice: Seq<char>, pattern: Seq<char>) -> Option<i64>;

/// Whether the pattern holds an ASCII upper-case letter; such a pattern is
/// matched with regard to case.
pub open spec fn has_upper(pattern: Seq<char>) -> bool {
    exists|i: int| 0 <= i < pattern.len() && 'A' <= #[trigger] pattern[i] <= 'Z'
}

/// Whether a character of a text matches a character of a pattern: they are
/// equal, or, without regard to case, equal but for the case of ASCII letters.
pub open spec fn chars_match(c: char, p: char, case_sensitive: bool) -> bool {
    if case_sensitive {
        c == p
    } else {
        crate::text::lower_char(c) == crate::text::lower_char(p)
    }
}

/// Whether the characters of the pattern occur in the text, in order but not
/// necessarily side by side.
pub open spec fn is_subsequence(pattern: Seq<char>, choice: Seq<char>, case_sensitive: bool) -> bool
    decreases choice.len(),
{
    if pattern.len() == 0 {
        true
    } else if choice.len() == 0 {
        false
    } else if chars_match(choice[0], pattern[0], case_sensitive) {
        is_subsequence(pattern.drop_first(), choice.drop_first(), case_sensitive)
    } else {
        is_subsequence(pattern, choice.drop_first(), case_sensitive)
    }
}

/// Whether the matcher finds the pattern in the text at all.
pub open spec fn fuzzy_matches(choice: Seq<char>, pattern: Seq<char>) -> bool {
    is_subsequence(pattern, choice, has_upper(pattern))
}

/// Calls `SkimMatcherV2::default().fuzzy_match(choice, pattern)`. The matcher's
/// result depends on the two texts alone and is named `skim_score`. It gives a
/// score exactly where the pattern is a subsequence of the text, with regard to
/// case where the pattern holds an ASCII upper-case letter; and it computes
/// the score in 32 bits, so that is its range. The bound on the lengths keeps
/// the matcher's own 32-bit sums from overflowing.
#[verifier::external_body]
fn fuzzy_match(choice: &str, pattern: &str) -> (r: Option<i64>)
    requires
        choice@.len() <= MAX_TEXT_CHARS,
        pattern@.len() <= MAX_TEXT_CHARS,
    ensures
        r == skim_score(choice@, pattern@),
        r is Some <==> fuzzy_matches(choice@, pattern@),
        r matches Some(v) ==> i32::MIN <= v <= i32::MAX,
{
    SkimMatcherV2::default().fuzzy_match(choice, pattern)
}

/// Largest weight, in absolute value, that a field may carry.
pub const MAX_FIELD_WEIGHT: i64 = 0x7fff_ffff;

/// One weighted text of an entry that a query is matched against.
pub struct Field {
    pub text: String,
    pub weight: i64,
    pub full_query_boost: bool,
}

/// What a `Field` holds, as plain values.
pub struct FieldView {
    pub text: Seq<char>,
    pub weight: int,
    pub full_query_boost: bool,
}

impl View for Field {
    type V = FieldView;

    open spec fn view(&self) -> FieldView {
        FieldView {
            text: self.text@,
            weight: self.weight as int,
            full_query_boost: self.full_query_boost,
        }
    }
}

impl FieldView {
    /// Whether the field can be scored: its text and its weight are within bounds.
    pub open spec fn scorable(self) -> bool {
        &&& self.text.len() <= MAX_TEXT_CHARS
        &&& -MAX_FIELD_WEIGHT <= self.weight <= MAX_FIELD_WEIGHT
    }
}

/// The views of a sequence of fields.
pub open spec fn field_views(v: Seq<Field>) -> Seq<FieldView> {
    Seq::new(v.len(), |i: int| v[i]@)
}

impl Field {
    /// A field with the given text, weight and eligibility for the whole-query bonus.
    pub fn new(text: &str, weight: i64, full_query_boost: bool) -> (r: Self)
        ensures
            r@ == (FieldView { text: text@, weight: weight as int, full_query_boost }),
    {
        Field { text: text.to_owned(), weight, full_query_boost }
    }
}

/// The larger of two optional scores, an absent one counting as smaller than any.
pub open spec fn best_of(a: Option<int>, b: Option<int>) -> Option<int> {
    match (a, b) {
        (Some(x), Some(y)) => Some(if y > x { y } else { x }),
        (Some(x), None) => Some(x),
        (None, b) => b,
    }
}

/// An optional machine score as an optional integer.
pub open spec fn opt_int(o: Option<i64>) -> Option<int> {
    match o {
        Some(v) => Some(v as int),
        None => None,
    }
}

/// Bonus for how closely a lower-cased field agrees with a lower-cased token:
/// 30 where they are equal, 18 where the field begins with the token, 8 where
/// it contains the token, else nothing.
pub open spec fn closeness_bonus(field_lower: Seq<char>, token_lower: Seq<char>) -> int {
    if field_lower == token_lower {
        30
    } else if token_lower.is_prefix_of(field_lower) {
        18
    } else if has_substring(field_lower, token_lower) {
        8
    } else {
        0
    }
}

/// Penalty for a field longer than the token: a sixth of the excess, rounded down.
pub open spec fn length_penalty(field_len: nat, token_len: nat) -> int {
    if field_len > token_len {
        (field_len - token_len) / 6
    } else {
        0
    }
}

/// The score of one token against one field: the fuzzy score plus the field's
/// weight plus the closeness bonus, minus the length penalty; nothing where the
/// token does not match the field.
pub open spec fn token_field_score(field: FieldView, token: Seq<char>) -> Option<int> {
    match skim_score(field.text, token) {
        Some(fuzzy) => Some(
            fuzzy + field.weight + closeness_bonus(ascii_lower(field.text), ascii_lower(token))
                - length_penalty(field.text.len(), token.len()),
        ),
        None => None,
    }
}

/// The best score of one token over all fields; nothing where it matches none.
pub open spec fn best_field_score(fields: Seq<FieldView>, token: Seq<char>) -> Option<int>
    decreases fields.len(),
{
    if fields.len() == 0 {
        None
    } else {
        best_of(
            best_field_score(fields.drop_last(), token),
            token_field_score(fields.last(), token),
        )
    }
}

/// The sum of the tokens' best scores; nothing where some token matches no field.
pub open spec fn tokens_score(fields: Seq<FieldView>, tokens: Seq<Seq<char>>) -> Option<int>
    decreases tokens.len(),
{
    if tokens.len() == 0 {
        Some(0)
    } else {
        match (
            tokens_score(fields, tokens.drop_last()),
            best_field_score(fields, tokens.last()),
        ) {
            (Some(sum), Some(best)) => Some(sum + best),
            _ => None,
        }
    }
}

/// What one field adds for the whole query: for a field eligible for it, 140
/// where the lower-cased field equals the lower-cased query, 70 where it begins
/// with it, 30 where it contains it, each on top of the field's weight.
pub open spec fn field_query_bonus(field: FieldView, query_lower: Seq<char>) -> Option<int> {
    let field_lower = ascii_lower(field.text);
    if !field.full_query_boost {
        None
    } else if field_lower == query_lower {
        Some(140 + field.weight)
    } else if query_lower.is_prefix_of(field_lower) {
        Some(70 + field.weight)
    } else if has_substring(field_lower, query_lower) {
        Some(30 + field.weight)
    } else {
        None
    }
}

/// The best whole-query bonus over all fields.
pub open spec fn query_bonus(fields: Seq<FieldView>, query_lower: Seq<char>) -> Option<int>
    decreases fields.len(),
{
    if fields.len() == 0 {
        None
    } else {
        best_of(
            query_bonus(fields.drop_last(), query_lower),
            field_query_bonus(fields.last(), query_lower),
        )
    }
}

/// The score of an entry with the given fields: the sum of every token's best
/// field score plus the best whole-query bonus; nothing where some token
/// matches no field.
pub open spec fn fields_score(
    fields: Seq<FieldView>,
    query: Seq<char>,
    tokens: Seq<Seq<char>>,
) -> Option<int> {
    match tokens_score(fields, tokens) {
        Some(sum) => Some(
            sum + match query_bonus(fields, ascii_lower(query)) {
                Some(extra) => extra,
                None => 0,
            },
        ),
        None => None,
    }
}

/// Largest absolute value of the score of one token against one scorable field.
pub const TOKEN_SCORE_BOUND: i64 = 0x2_0000_0000;

/// Keeps the larger of `best` and `candidate` in `best`.
pub fn update_best(best: &mut Option<i64>, candidate: i64)
    ensures
        opt_int(*final(best)) == best_of(opt_int(*old(best)), Some(candidate as int)),
{
    match *best {
        Some(current) => {
            if candidate > current {
                *best = Some(candidate);
            }
        },
        None => {
            *best = Some(candidate);
        },
    }
}

/// Scores one token against one field.
pub fn score_token(field: &Field, token: &str) -> (r: Option<i64>)
    requires
        field@.scorable(),
        token@.len() <= MAX_TEXT_CHARS,
    ensures
        opt_int(r) == token_field_score(field@, token@),
        r is Some <==> fuzzy_matches(field@.text, token@),
        r matches Some(v) ==> -TOKEN_SCORE_BOUND <= v <= TOKEN_SCORE_BOUND,
{
    let fuzzy = match fuzzy_match(field.text.as_str(), token) {
        Some(v) => v,
        None => {
            return None;
        },
    };
    let token_chars = chars_of(token);
    let field_chars = chars_of(field.text.as_str());
    let token_lower = to_ascii_lower(&token_chars);
    let field_lower = to_ascii_lower(&field_chars);
    let mut score: i64 = fuzzy + field.weight;
    if chars_eq(&field_lower, &token_lower) {
        score += 30;
    } else if starts_with(&field_lower, &token_lower) {
        score += 18;
    } else if contains(&field_lower, &token_lower) {
        score += 8;
    }
    let field_len: usize = field_chars.len();
    let token_len: usize = token_chars.len();
    let excess: usize = if field_len > token_len {
        field_len - token_len
    } else {
        0
    };
    let length_penalty: i64 = (excess as i64) / 6;
    Some(score - length_penalty)
}

/// Scores an entry, given as its fields, against the query and its tokens.
pub fn score_fields(query: &str, tokens: &Vec<String>, fields: &Vec<Field>) -> (r: Option<i64>)
    requires
        query@.len() <= MAX_TEXT_CHARS,
        tokens.len() <= MAX_TEXT_CHARS,
        forall|i: int| 0 <= i < tokens.len() ==> (#[trigger] tokens@[i])@.len() <= MAX_TEXT_CHARS,
        forall|i: int| 0 <= i < fields.len() ==> (#[trigger] fields@[i])@.scorable(),
    ensures
        opt_int(r) == fields_score(field_views(fields@), query@, views(tokens@)),
{
    let ghost fv = field_views(fields@);
    let ghost tv = views(tokens@);
    let mut total: i64 = 0;
    let mut t: usize = 0;
    while t < tokens.len()
        invariant
            t <= tokens.len() <= MAX_TEXT_CHARS,
            fv == field_views(fields@),
            tv == views(tokens@),
            forall|i: int|
                0 <= i < tokens.len() ==> (#[trigger] tokens@[i])@.len() <= MAX_TEXT_CHARS,
            forall|i: int| 0 <= i < fields.len() ==> (#[trigger] fields@[i])@.scorable(),
            tokens_score(fv, tv.take(t as int)) == Some(total as int),
            -t * TOKEN_SCORE_BOUND <= total <= t * TOKEN_SCORE_BOUND,
        decreases tokens.len() - t,
    {
        let token = &tokens[t];
        let mut best: Option<i64> = None;
        let mut f: usize = 0;
        while f < fields.len()
            invariant
                f <= fields.len(),
                fv == field_views(fields@),
                token@.len() <= MAX_TEXT_CHARS,
                forall|i: int| 0 <= i < fields.len() ==> (#[trigger] fields@[i])@.scorable(),
                opt_int(best) == best_field_score(fv.take(f as int), token@),
                best matches Some(v) ==> -TOKEN_SCORE_BOUND <= v <= TOKEN_SCORE_BOUND,
            decreases fields.len() - f,
        {
            proof {
                assert(fv.take(f + 1).drop_last() =~= fv.take(f as int));
                assert(fv.take(f + 1).last() == fields@[f as int]@);
            }
            match score_token(&fields[f], token.as_str()) {
                Some(score) => {
                    update_best(&mut best, score);
                },
                None => {},
            }
            f += 1;
        }
        proof {
            assert(fv.take(fields.len() as int) =~= fv);
            assert(tv.take(t + 1).drop_last() =~= tv.take(t as int));
            assert(tv.take(t + 1).last() == token@);
        }
        let best_score = match best {
            Some(v) => v,
            None => {
                proof {
                    lemma_unmatched_token(fv, tv, t as int);
                }
                return None;
            },
        };
        proof {
            assert((t + 1) * TOKEN_SCORE_BOUND == t * TOKEN_SCORE_BOUND + TOKEN_SCORE_BOUND)
                by (nonlinear_arith);
            assert(t * TOKEN_SCORE_BOUND <= 0x100_0000 * TOKEN_SCORE_BOUND) by (nonlinear_arith)
                requires
                    t <= 0x100_0000,
            ;
        }
        total += best_score;
        t += 1;
    }
    proof {
        assert(tv.take(tokens.len() as int) =~= tv);
        assert(t * TOKEN_SCORE_BOUND <= 0x100_0000 * TOKEN_SCORE_BOUND) by (nonlinear_arith)
            requires
                t <= 0x100_0000,
        ;
    }
    let query_chars = chars_of(query);
    let query_lower = to_ascii_lower(&query_chars);
    let mut bonus: Option<i64> = None;
    let mut f: usize = 0;
    while f < fields.len()
        invariant
            f <= fields.len(),
            fv == field_views(fields@),
            query_lower@ == ascii_lower(query@),
            forall|i: int| 0 <= i < fields.len() ==> (#[trigger] fields@[i])@.scorable(),
            opt_int(bonus) == query_bonus(fv.take(f as int), query_lower@),
            bonus matches Some(v) ==> -MAX_FIELD_WEIGHT <= v <= 140 + MAX_FIELD_WEIGHT,
        decreases fields.len() - f,
    {
        proof {
            assert(fv.take(f + 1).drop_last() =~= fv.take(f as int));
            assert(fv.take(f + 1).last() == fields@[f as int]@);
        }
        let field = &fields[f];
        if field.full_query_boost {
            let field_chars = chars_of(field.text.as_str());
            let field_lower = to_ascii_lower(&field_chars);
            let score: i64 = if chars_eq(&field_lower, &query_lower) {
                140
            } else if starts_with(&field_lower, &query_lower) {
                70
            } else if contains(&field_lower, &query_lower) {
                30
            } else {
                0
            };
            if score > 0 {
                update_best(&mut bonus, score + field.weight);
            }
        }
        f += 1;
    }
    proof {
        assert(fv.take(fields.len() as int) =~= fv);
    }
    match bonus {
        Some(extra) => {
            total += extra;
        },
        None => {},
    }
    Some(total)
}

/// Once a token has matched no field, no longer list of tokens has a score.
proof fn lemma_unmatched_token(fields: Seq<FieldView>, tokens: Seq<Seq<char>>, t: int)
    requires
        0 <= t < tokens.len(),
        best_field_score(fields, tokens[t]) is None,
    ensures
        tokens_score(fields, tokens) is None,
    decreases tokens.len(),
{
    if t == tokens.len() - 1 {
    } else {
        lemma_unmatched_token(fields, tokens.drop_last(), t);
    }
}

/// The two parts of one packed phonetic entry, `syllables` or
/// `syllables|initials`: what stands before the first bar and what stands after
/// it, each only where it is not empty.
pub open spec fn entry_parts(entry: Seq<char>) -> (Option<Seq<char>>, Option<Seq<char>>) {
    let bar = first_index_of(entry, '|') as int;
    if bar < entry.len() {
        let full = entry.take(bar);
        let initials = entry.skip(bar + 1);
        (
            if full.len() == 0 {
                None
            } else {
                Some(full)
            },
            if initials.len() == 0 {
                None
            } else {
                Some(initials)
            },
        )
    } else if entry.len() == 0 {
        (None, None)
    } else {
        (Some(entry), None)
    }
}

/// Splits one packed phonetic entry into its syllables and its initials.
pub fn split_pinyin_entry(entry: &str) -> (r: (Option<String>, Option<String>))
    ensures
        (opt_view(r.0), opt_view(r.1)) == entry_parts(entry@),
{
    let chars = chars_of(entry);
    let bar = index_of(&chars, '|');
    if bar < chars.len() {
        let full = slice_of(&chars, 0, bar);
        let initials = slice_of(&chars, bar + 1, chars.len());
        proof {
            assert(chars@.subrange(0, bar as int) =~= entry@.take(bar as int));
            assert(chars@.subrange(bar + 1, chars.len() as int) =~= entry@.skip(bar + 1));
        }
        (
            if full.len() == 0 {
                None
            } else {
                Some(string_of(&full))
            },
            if initials.len() == 0 {
                None
            } else {
                Some(string_of(&initials))
            },
        )
    } else if chars.len() == 0 {
        (None, None)
    } else {
        (Some(string_of(&chars)), None)
    }
}

/// A field that is never eligible for the whole-query bonus.
pub open spec fn plain_field(text: Seq<char>, weight: int) -> FieldView {
    FieldView { text, weight, full_query_boost: false }
}

/// One field of the given weight for each keyword that is not empty.
pub open spec fn keyword_fields(keywords: Seq<Seq<char>>, weight: int) -> Seq<FieldView>
    decreases keywords.len(),
{
    if keywords.len() == 0 {
        Seq::empty()
    } else {
        let before = keyword_fields(keywords.drop_last(), weight);
        if keywords.last().len() == 0 {
            before
        } else {
            before.push(plain_field(keywords.last(), weight))
        }
    }
}

/// The fields of one packed phonetic entry: its syllables, then its initials.
pub open spec fn entry_fields(entry: Seq<char>, full_weight: int, initials_weight: int) -> Seq<
    FieldView,
> {
    let (full, initials) = entry_parts(entry);
    let first = match full {
        Some(text) => seq![plain_field(text, full_weight)],
        None => Seq::empty(),
    };
    match initials {
        Some(text) => first.push(plain_field(text, initials_weight)),
        None => first,
    }
}

/// The fields of a list of packed phonetic entries, in order.
pub open spec fn entries_fields(
    entries: Seq<Seq<char>>,
    full_weight: int,
    initials_weight: int,
) -> Seq<FieldView>
    decreases entries.len(),
{
    if entries.len() == 0 {
        Seq::empty()
    } else {
        entries_fields(entries.drop_last(), full_weight, initials_weight) + entry_fields(
            entries.last(),
            full_weight,
            initials_weight,
        )
    }
}

/// The fields that a phonetic index contributes: those of its
/// white-space-separated entries.
pub open spec fn phonetic_fields(
    index: Option<Seq<char>>,
    full_weight: int,
    initials_weight: int,
) -> Seq<FieldView> {
    match index {
        Some(packed) => entries_fields(split_words(packed), full_weight, initials_weight),
        None => Seq::empty(),
    }
}

/// The fields of an application: its name at weight 120, eligible for the
/// whole-query bonus; its keywords at 70; its phonetic syllables at 85 and
/// initials at 95.
pub open spec fn app_fields(app: ApplicationView) -> Seq<FieldView> {
    seq![FieldView { text: app.name, weight: 120, full_query_boost: true }] + keyword_fields(
        app.keywords,
        70,
    ) + phonetic_fields(app.pinyin_index, 85, 95)
}

/// The fields of a bookmark: its title at weight 110, eligible for the
/// whole-query bonus; its folder path at 65; its address at 45; its keywords
/// at 55; its phonetic syllables at 80 and initials at 90.
pub open spec fn bookmark_fields(bookmark: BookmarkView) -> Seq<FieldView> {
    seq![FieldView { text: bookmark.title, weight: 110, full_query_boost: true }] + (match bookmark.folder_path {
        Some(path) => seq![plain_field(path, 65)],
        None => Seq::empty(),
    }) + seq![plain_field(bookmark.url, 45)] + keyword_fields(bookmark.keywords, 55)
        + phonetic_fields(bookmark.pinyin_index, 80, 90)
}

/// Whether every field of `fields` can be scored.
pub open spec fn all_scorable(fields: Seq<Field>) -> bool {
    forall|i: int| 0 <= i < fields.len() ==> (#[trigger] fields[i])@.scorable()
}

/// Appends one field for each keyword that is not empty.
fn push_keyword_fields(fields: &mut Vec<Field>, keywords: &Vec<String>, weight: i64)
    requires
        all_scorable(old(fields)@),
        -MAX_FIELD_WEIGHT <= weight <= MAX_FIELD_WEIGHT,
        texts_in_bounds(views(keywords@)),
    ensures
        all_scorable(final(fields)@),
        field_views(final(fields)@) == field_views(old(fields)@) + keyword_fields(
            views(keywords@),
            weight as int,
        ),
{
    let ghost start = field_views(fields@);
    let ghost kv = views(keywords@);
    let mut i: usize = 0;
    assert(field_views(fields@) =~= start + keyword_fields(kv.take(0), weight as int));
    while i < keywords.len()
        invariant
            i <= keywords.len(),
            kv == views(keywords@),
            all_scorable(fields@),
            -MAX_FIELD_WEIGHT <= weight <= MAX_FIELD_WEIGHT,
            texts_in_bounds(kv),
            field_views(fields@) == start + keyword_fields(kv.take(i as int), weight as int),
        decreases keywords.len() - i,
    {
        proof {
            assert(kv.take(i + 1).drop_last() =~= kv.take(i as int));
            assert(kv.take(i + 1).last() == keywords@[i as int]@);
            assert(kv[i as int].len() <= MAX_TEXT_CHARS);
        }
        let keyword = &keywords[i];
        if !keyword.as_str().is_empty() {
            let ghost earlier = field_views(fields@);
            let field = Field::new(keyword.as_str(), weight, false);
            fields.push(field);
            assert(field_views(fields@) =~= earlier.push(field@));
            assert(field_views(fields@) =~= start + keyword_fields(
                kv.take(i + 1),
                weight as int,
            ));
        }
        i += 1;
    }
    assert(kv.take(keywords.len() as int) =~= kv);
}

/// Appends the fields of a phonetic index.
fn push_phonetic_fields(
    fields: &mut Vec<Field>,
    index: &Option<String>,
    full_weight: i64,
    initials_weight: i64,
)
    requires
        all_scorable(old(fields)@),
        -MAX_FIELD_WEIGHT <= full_weight <= MAX_FIELD_WEIGHT,
        -MAX_FIELD_WEIGHT <= initials_weight <= MAX_FIELD_WEIGHT,
        opt_view(*index) matches Some(p) ==> p.len() <= MAX_TEXT_CHARS,
    ensures
        all_scorable(final(fields)@),
        field_views(final(fields)@) == field_views(old(fields)@) + phonetic_fields(
            opt_view(*index),
            full_weight as int,
            initials_weight as int,
        ),
{
    let ghost start = field_views(fields@);
    let packed = match index {
        Some(packed) => packed,
        None => {
            assert(field_views(fields@) =~= start + Seq::<FieldView>::empty());
            return ;
        },
    };
    let entries = words_of(&chars_of(packed.as_str()));
    let ghost ev = views(entries@);
    proof {
        lemma_words_bounded(packed@);
    }
    let mut i: usize = 0;
    assert(field_views(fields@) =~= start + entries_fields(
        ev.take(0),
        full_weight as int,
        initials_weight as int,
    ));
    while i < entries.len()
        invariant
            i <= entries.len(),
            ev == views(entries@),
            all_scorable(fields@),
            -MAX_FIELD_WEIGHT <= full_weight <= MAX_FIELD_WEIGHT,
            -MAX_FIELD_WEIGHT <= initials_weight <= MAX_FIELD_WEIGHT,
            texts_in_bounds(ev),
            field_views(fields@) == start + entries_fields(
                ev.take(i as int),
                full_weight as int,
                initials_weight as int,
            ),
        decreases entries.len() - i,
    {
        proof {
            assert(ev.take(i + 1).drop_last() =~= ev.take(i as int));
            assert(ev.take(i + 1).last() == entries@[i as int]@);
            assert(ev[i as int].len() <= MAX_TEXT_CHARS);
        }
        let ghost earlier = field_views(fields@);
        let (full, initials) = split_pinyin_entry(entries[i].as_str());
        match full {
            Some(text) => {
                let ghost mid = field_views(fields@);
                let field = Field::new(text.as_str(), full_weight, false);
                fields.push(field);
                assert(field_views(fields@) =~= mid.push(field@));
            },
            None => {},
        }
        match initials {
            Some(text) => {
                let ghost mid = field_views(fields@);
                let field = Field::new(text.as_str(), initials_weight, false);
                fields.push(field);
                assert(field_views(fields@) =~= mid.push(field@));
            },
            None => {},
        }
        assert(field_views(fields@) =~= earlier + entry_fields(
            entries@[i as int]@,
            full_weight as int,
            initials_weight as int,
        ));
        assert(field_views(fields@) =~= start + entries_fields(
            ev.take(i + 1),
            full_weight as int,
            initials_weight as int,
        ));
        i += 1;
    }
    assert(ev.take(entries.len() as int) =~= ev);
}

/// The fields that an application is matched on.
pub fn application_fields(app: &ApplicationInfo) -> (fields: Vec<Field>)
    requires
        app@.searchable(),
    ensures
        field_views(fields@) == app_fields(app@),
        all_scorable(fields@),
{
    let mut fields: Vec<Field> = Vec::new();
    let name = Field::new(app.name.as_str(), 120, true);
    fields.push(name);
    assert(field_views(fields@) =~= seq![name@]);
    push_keyword_fields(&mut fields, &app.keywords, 70);
    push_phonetic_fields(&mut fields, &app.pinyin_index, 85, 95);
    fields
}

/// The fields that a bookmark is matched on.
pub fn bookmark_entry_fields(bookmark: &BookmarkEntry) -> (fields: Vec<Field>)
    requires
        bookmark@.searchable(),
    ensures
        field_views(fields@) == bookmark_fields(bookmark@),
        all_scorable(fields@),
{
    let mut fields: Vec<Field> = Vec::new();
    let title = Field::new(bookmark.title.as_str(), 110, true);
    fields.push(title);
    assert(field_views(fields@) =~= seq![title@]);
    match &bookmark.folder_path {
        Some(path) => {
            let ghost earlier = field_views(fields@);
            let field = Field::new(path.as_str(), 65, false);
            fields.push(field);
            assert(field_views(fields@) =~= earlier.push(field@));
        },
        None => {},
    }
    let ghost earlier = field_views(fields@);
    let address = Field::new(bookmark.url.as_str(), 45, false);
    fields.push(address);
    assert(field_views(fields@) =~= earlier.push(address@));
    assert(field_views(fields@) =~= seq![title@] + (match bookmark@.folder_path {
        Some(path) => seq![plain_field(path, 65)],
        None => Seq::empty(),
    }) + seq![plain_field(bookmark@.url, 45)]);
    push_keyword_fields(&mut fields, &bookmark.keywords, 55);
    push_phonetic_fields(&mut fields, &bookmark.pinyin_index, 80, 90);
    fields
}

/// The score of an application against a query and its tokens; nothing where
/// some token matches none of its fields.
pub open spec fn application_score(
    app: ApplicationView,
    query: Seq<char>,
    tokens: Seq<Seq<char>>,
) -> Option<int> {
    fields_score(app_fields(app), query, tokens)
}

/// The score of a bookmark against a query and its tokens; nothing where some
/// token matches none of its fields.
pub open spec fn bookmark_score(
    bookmark: BookmarkView,
    query: Seq<char>,
    tokens: Seq<Seq<char>>,
) -> Option<int> {
    fields_score(bookmark_fields(bookmark), query, tokens)
}

/// Whether a query and its tokens are short and few enough to score.
pub open spec fn query_in_bounds(query: Seq<char>, tokens: Seq<Seq<char>>) -> bool {
    &&& query.len() <= MAX_TEXT_CHARS
    &&& tokens.len() <= MAX_TEXT_CHARS
    &&& texts_in_bounds(tokens)
}

/// Scores an application against the query.
pub fn match_application(app: &ApplicationInfo, query: &str, tokens: &Vec<String>) -> (r: Option<
    i64,
>)
    requires
        app@.searchable(),
        query_in_bounds(query@, views(tokens@)),
    ensures
        opt_int(r) == application_score(app@, query@, views(tokens@)),
{
    let fields = application_fields(app);
    assert forall|i: int| 0 <= i < tokens.len() implies (#[trigger] tokens@[i])@.len()
        <= MAX_TEXT_CHARS by {
        assert(views(tokens@)[i] == tokens@[i]@);
    }
    score_fields(query, tokens, &fields)
}

/// Scores a bookmark against the query.
pub fn match_bookmark(bookmark: &BookmarkEntry, query: &str, tokens: &Vec<String>) -> (r: Option<
    i64,
>)
    requires
        bookmark@.searchable(),
        query_in_bounds(query@, views(tokens@)),
    ensures
        opt_int(r) == bookmark_score(bookmark@, query@, views(tokens@)),
{
    let fields = bookmark_entry_fields(bookmark);
    assert forall|i: int| 0 <= i < tokens.len() implies (#[trigger] tokens@[i])@.len()
        <= MAX_TEXT_CHARS by {
        assert(views(tokens@)[i] == tokens@[i]@);
    }
    score_fields(query, tokens, &fields)
}

/// Which kinds of results a query asks for.
#[derive(Clone, Copy, Debug, PartialEq, Eq, Structural)]
pub enum QueryMode {
    /// Applications, bookmarks and the web-search fallback.
    All,
    /// Bookmarks only.
    Bookmark,
    /// Applications only.
    Application,
    /// The web-search fallback only.
    Search,
}

/// The mode that a trimmed, lower-cased mode name stands for; a name that is
/// not recognised stands for `All`.
pub open spec fn mode_named(name: Seq<char>) -> QueryMode {
    if name == "bookmark"@ || name == "bookmarks"@ || name == "b"@ {
        QueryMode::Bookmark
    } else if name == "app"@ || name == "apps"@ || name == "application"@ || name == "r"@ {
        QueryMode::Application
    } else if name == "search"@ || name == "s"@ {
        QueryMode::Search
    } else {
        QueryMode::All
    }
}

/// The mode that an optional mode name stands for: the name is trimmed and
/// lower-cased first, and no name stands for `All`.
pub open spec fn mode_of(mode: Option<Seq<char>>) -> QueryMode {
    match mode {
        Some(name) => mode_named(unicode_lower(trim(name))),
        None => QueryMode::All,
    }
}

impl QueryMode {
    /// Whether bookmarks take part in this mode.
    pub open spec fn bookmarks_allowed(self) -> bool {
        self == QueryMode::All || self == QueryMode::Bookmark
    }

    /// Whether applications take part in this mode.
    pub open spec fn applications_allowed(self) -> bool {
        self == QueryMode::All || self == QueryMode::Application
    }

    /// Whether this mode ends the results with the web-search fallback.
    pub open spec fn web_search_allowed(self) -> bool {
        self == QueryMode::All || self == QueryMode::Search
    }

    /// The mode named by `name`, which is already trimmed and lower-cased.
    pub fn from_name(name: &str) -> (r: Self)
        ensures
            r == mode_named(name@),
    {
        let chars = chars_of(name);
        if spells(&chars, "bookmark") || spells(&chars, "bookmarks") || spells(&chars, "b") {
            QueryMode::Bookmark
        } else if spells(&chars, "app") || spells(&chars, "apps") || spells(&chars, "application")
            || spells(&chars, "r") {
            QueryMode::Application
        } else if spells(&chars, "search") || spells(&chars, "s") {
            QueryMode::Search
        } else {
            QueryMode::All
        }
    }

    /// The mode that an optional mode name, in any case and with white space
    /// around it, stands for.
    pub fn from_option(mode: Option<String>) -> (r: Self)
        ensures
            r == mode_of(opt_view(mode)),
    {
        match mode {
            Some(name) => {
                let stripped = string_of(&trimmed(&chars_of(name.as_str())));
                let lowered = stripped.as_str().to_lowercase();
                QueryMode::from_name(lowered.as_str())
            },
            None => QueryMode::All,
        }
    }

    /// Whether bookmarks take part in this mode.
    pub fn allows_bookmarks(&self) -> (r: bool)
        ensures
            r == self.bookmarks_allowed(),
    {
        match self {
            QueryMode::All | QueryMode::Bookmark => true,
            _ => false,
        }
    }

    /// Whether applications take part in this mode.
    pub fn allows_applications(&self) -> (r: bool)
        ensures
            r == self.applications_allowed(),
    {
        match self {
            QueryMode::All | QueryMode::Application => true,
            _ => false,
        }
    }

    /// Whether this mode ends the results with the web-search fallback.
    pub fn allows_web_search(&self) -> (r: bool)
        ensures
            r == self.web_search_allowed(),
    {
        match self {
            QueryMode::All | QueryMode::Search => true,
            _ => false,
        }
    }
}

/// Whether a trimmed query reads as an address: it begins with `http://` or
/// `https://`, or it holds a dot and is a single word.
pub open spec fn looks_like_url(input: Seq<char>) -> bool {
    ||| "http://"@.is_prefix_of(input)
    ||| "https://"@.is_prefix_of(input)
    ||| (input.contains('.') && split_words(input).len() == 1)
}

/// Whether the input reads as an address.
pub fn is_url_like(input: &str) -> (r: bool)
    ensures
        r == looks_like_url(input@),
{
    let chars = chars_of(input);
    if starts_with(&chars, &chars_of("http://")) || starts_with(&chars, &chars_of("https://")) {
        return true;
    }
    proof {
        lemma_first_index_of(input@, '.');
    }
    index_of(&chars, '.') < chars.len() && words_of(&chars).len() == 1
}

/// The white-space-separated terms of a query.
pub fn tokenize_query(query: &str) -> (tokens: Vec<String>)
    ensures
        views(tokens@) == split_words(query@),
{
    words_of(&chars_of(query))
}

/// Whether `b` is passed through unchanged by percent-encoding: an ASCII
/// letter or digit, or one of `-`, `.`, `_`, `~`.
pub open spec fn is_unreserved(b: u8) -> bool {
    ||| (0x30 <= b && b <= 0x39)
    ||| (0x41 <= b && b <= 0x5a)
    ||| (0x61 <= b && b <= 0x7a)
    ||| b == 0x2d
    ||| b == 0x2e
    ||| b == 0x5f
    ||| b == 0x7e
}

/// The upper-case hexadecimal digit for `d`, which is below sixteen.
pub open spec fn hex_upper(d: u8) -> char {
    if d < 10 {
        ((0x30 + d) as u8) as char
    } else {
        ((0x41 + d - 10) as u8) as char
    }
}

/// The percent-encoding of one byte: the byte itself where it is unreserved,
/// else `%` and its two upper-case hexadecimal digits.
pub open spec fn percent_encoded_byte(b: u8) -> Seq<char> {
    if is_unreserved(b) {
        seq![b as char]
    } else {
        seq!['%', hex_upper(b / 16), hex_upper(b % 16)]
    }
}

/// The percent-encoding of a byte string.
pub open spec fn percent_encoded(bytes: Seq<u8>) -> Seq<char>
    decreases bytes.len(),
{
    if bytes.len() == 0 {
        Seq::empty()
    } else {
        percent_encoded(bytes.drop_last()) + percent_encoded_byte(bytes.last())
    }
}

/// One upper-case hexadecimal digit.
fn hex_upper_digit(d: u8) -> (r: char)
    requires
        d < 16,
    ensures
        r == hex_upper(d),
{
    if d < 10 {
        (0x30u8 + d) as char
    } else {
        (0x41u8 + (d - 10)) as char
    }
}

/// Percent-encodes the text's UTF-8 form: every byte but ASCII letters and
/// digits and `-`, `.`, `_`, `~` is written as `%` and two upper-case
/// hexadecimal digits.
pub fn url_encode(text: &str) -> (r: String)
    ensures
        r@ == percent_encoded(encode_utf8(text@)),
{
    let bytes = text.as_bytes();
    let mut r = String::new();
    let mut i: usize = 0;
    while i < bytes.len()
        invariant
            i <= bytes.len(),
            bytes@ == encode_utf8(text@),
            r@ == percent_encoded(bytes@.take(i as int)),
        decreases bytes.len() - i,
    {
        let b = bytes[i];
        let ghost before = r@;
        proof {
            assert(bytes@.take(i + 1).drop_last() =~= bytes@.take(i as int));
            assert(bytes@.take(i + 1).last() == b);
        }
        if (b >= 0x30 && b <= 0x39) || (b >= 0x41 && b <= 0x5a) || (b >= 0x61 && b <= 0x7a) || b
            == 0x2d || b == 0x2e || b == 0x5f || b == 0x7e {
            r.push(b as char);
            assert(r@ =~= before + seq![b as char]);
        } else {
            r.push('%');
            r.push(hex_upper_digit(b / 16));
            r.push(hex_upper_digit(b % 16));
            assert(r@ =~= before + seq!['%', hex_upper(b / 16), hex_upper(b % 16)]);
        }
        i += 1;
    }
    proof {
        assert(bytes@.take(bytes.len() as int) =~= bytes@);
    }
    r
}

/// The result for an application that matched with the given score.
pub open spec fn app_result(app: ApplicationView, score: int) -> ResultView {
    ResultView {
        id: "app-"@ + app.id,
        title: app.name,
        subtitle: app.path,
        score,
        action_id: match app.app_type {
            AppType::Win32 => "app"@,
            AppType::Uwp => "uwp"@,
        },
    }
}

/// The result for a bookmark that matched with the given score.
pub open spec fn bookmark_result(bookmark: BookmarkView, score: int) -> ResultView {
    ResultView {
        id: "bookmark-"@ + bookmark.id,
        title: bookmark.title,
        subtitle: match bookmark.folder_path {
            Some(path) => "收藏夹 · "@ + path + " · "@ + bookmark.url,
            None => "收藏夹 · "@ + bookmark.url,
        },
        score,
        action_id: "bookmark"@,
    }
}

/// The leading result that opens the query itself as an address.
pub open spec fn url_result(query: Seq<char>) -> ResultView {
    ResultView {
        id: "url-0"@,
        title: "打开网址: "@ + query,
        subtitle: query,
        score: 200,
        action_id: "url"@,
    }
}

/// The trailing result that searches the web for the query; `counter` is the
/// number of results found before it was made.
pub open spec fn web_search_result(query: Seq<char>, counter: nat) -> ResultView {
    ResultView {
        id: "search-"@ + decimal(counter),
        title: "在 Google 上搜索: "@ + query,
        subtitle: "Google 搜索"@,
        score: i64::MIN as int,
        action_id: "search"@,
    }
}

/// The address of the web search for the query.
pub open spec fn web_search_url(query: Seq<char>) -> Seq<char> {
    "https://google.com/search?q="@ + percent_encoded(encode_utf8(query))
}

/// A matched entry: its result and the action bound to it.
pub struct Candidate {
    pub result: ResultView,
    pub action: ActionView,
}

/// The applications that match, in index order.
pub open spec fn app_candidates(
    apps: Seq<ApplicationView>,
    query: Seq<char>,
    tokens: Seq<Seq<char>>,
) -> Seq<Candidate>
    decreases apps.len(),
{
    if apps.len() == 0 {
        Seq::empty()
    } else {
        let before = app_candidates(apps.drop_last(), query, tokens);
        match application_score(apps.last(), query, tokens) {
            Some(score) => before.push(
                Candidate {
                    result: app_result(apps.last(), score),
                    action: ActionView::Application(apps.last()),
                },
            ),
            None => before,
        }
    }
}

/// The bookmarks that match, in index order.
pub open spec fn bookmark_candidates(
    bookmarks: Seq<BookmarkView>,
    query: Seq<char>,
    tokens: Seq<Seq<char>>,
) -> Seq<Candidate>
    decreases bookmarks.len(),
{
    if bookmarks.len() == 0 {
        Seq::empty()
    } else {
        let before = bookmark_candidates(bookmarks.drop_last(), query, tokens);
        match bookmark_score(bookmarks.last(), query, tokens) {
            Some(score) => before.push(
                Candidate {
                    result: bookmark_result(bookmarks.last(), score),
                    action: ActionView::Bookmark(bookmarks.last()),
                },
            ),
            None => before,
        }
    }
}

/// The matching entries that the mode and the configuration admit:
/// applications first, then bookmarks.
pub open spec fn eligible_candidates(
    query: Seq<char>,
    tokens: Seq<Seq<char>>,
    mode: QueryMode,
    apps: Seq<ApplicationView>,
    bookmarks: Seq<BookmarkView>,
    config: ConfigView,
) -> Seq<Candidate> {
    (if mode.applications_allowed() && config.enable_app_results {
        app_candidates(apps, query, tokens)
    } else {
        Seq::empty()
    }) + (if mode.bookmarks_allowed() && config.enable_bookmark_results {
        bookmark_candidates(bookmarks, query, tokens)
    } else {
        Seq::empty()
    })
}

/// The results of a sequence of candidates.
pub open spec fn candidate_results(candidates: Seq<Candidate>) -> Seq<ResultView> {
    Seq::new(candidates.len(), |i: int| candidates[i].result)
}

/// The scores of a sequence of results.
pub open spec fn result_scores(results: Seq<ResultView>) -> Seq<int> {
    Seq::new(results.len(), |i: int| results[i].score)
}

/// The results from the highest score to the lowest, results of equal score
/// in the order in which they came.
pub open spec fn ranked(results: Seq<ResultView>) -> Seq<ResultView> {
    let order = stable_order(results.len(), by_score_desc(result_scores(results)));
    Seq::new(results.len(), |k: int| results[order[k]])
}

/// The map `actions` after each candidate's action was bound to its result's
/// identity, in order: a later candidate replaces an earlier one of the same identity.
pub open spec fn bind_all(actions: Map<Seq<char>, ActionView>, candidates: Seq<Candidate>) -> Map<
    Seq<char>,
    ActionView,
>
    decreases candidates.len(),
{
    if candidates.len() == 0 {
        actions
    } else {
        bind_all(actions, candidates.drop_last()).insert(
            candidates.last().result.id,
            candidates.last().action,
        )
    }
}

/// What a search returns: the ordered results and the action of each identity.
pub struct SearchOutcome {
    pub results: Seq<ResultView>,
    pub actions: Map<Seq<char>, ActionView>,
}

/// The outcome without results.
pub open spec fn no_outcome() -> SearchOutcome {
    SearchOutcome { results: Seq::empty(), actions: Map::empty() }
}

/// The number of listed results that are kept when `limit` results are
/// allowed: no more than the limit; and where the mode ends the results with
/// the web-search fallback and the listed results would fill every place, one
/// fewer, which leaves the last place to the fallback.
pub open spec fn kept_count(listed: nat, limit: nat, mode: QueryMode) -> nat {
    if mode.web_search_allowed() && listed >= limit {
        (limit - 1) as nat
    } else if listed > limit {
        limit
    } else {
        listed
    }
}

/// The outcome of a search for `query` in `mode` over the two indexes.
///
/// A query that is empty once trimmed has no results. Otherwise the results
/// are: the address result, where the trimmed query reads as an address; then
/// the matching eligible entries, ranked; the whole cut to `kept_count`; then
/// the web-search fallback, where the mode allows it. The actions are those of
/// the address result, of every matching eligible entry, kept or not, and of
/// the fallback.
pub open spec fn search_outcome(
    query: Seq<char>,
    mode: QueryMode,
    apps: Seq<ApplicationView>,
    bookmarks: Seq<BookmarkView>,
    config: ConfigView,
) -> SearchOutcome {
    let text = trim(query);
    let tokens = split_words(text);
    if text.len() == 0 || tokens.len() == 0 {
        no_outcome()
    } else {
        let candidates = eligible_candidates(text, tokens, mode, apps, bookmarks, config);
        let listed = head_results(text) + ranked(candidate_results(candidates));
        let kept = listed.take(
            kept_count(listed.len(), result_limit(config.max_results), mode) as int,
        );
        let found = bind_all(head_actions(text), candidates);
        let fallback = web_search_result(text, listed.len());
        if mode.web_search_allowed() {
            SearchOutcome {
                results: kept.push(fallback),
                actions: found.insert(fallback.id, ActionView::Search(web_search_url(text))),
            }
        } else {
            SearchOutcome { results: kept, actions: found }
        }
    }
}

/// Binding the candidates of `first` and then those of `second` is binding
/// those of the two joined.
pub proof fn lemma_bind_all_concat(
    actions: Map<Seq<char>, ActionView>,
    first: Seq<Candidate>,
    second: Seq<Candidate>,
)
    ensures
        bind_all(actions, first + second) == bind_all(bind_all(actions, first), second),
    decreases second.len(),
{
    if second.len() == 0 {
        assert(first + second =~= first);
    } else {
        lemma_bind_all_concat(actions, first, second.drop_last());
        assert((first + second).drop_last() =~= first + second.drop_last());
        assert((first + second).last() == second.last());
    }
}

/// No more candidates than entries.
pub proof fn lemma_app_candidates_len(
    apps: Seq<ApplicationView>,
    query: Seq<char>,
    tokens: Seq<Seq<char>>,
)
    ensures
        app_candidates(apps, query, tokens).len() <= apps.len(),
    decreases apps.len(),
{
    if apps.len() > 0 {
        lemma_app_candidates_len(apps.drop_last(), query, tokens);
    }
}

/// No more candidates than entries.
pub proof fn lemma_bookmark_candidates_len(
    bookmarks: Seq<BookmarkView>,
    query: Seq<char>,
    tokens: Seq<Seq<char>>,
)
    ensures
        bookmark_candidates(bookmarks, query, tokens).len() <= bookmarks.len(),
    decreases bookmarks.len(),
{
    if bookmarks.len() > 0 {
        lemma_bookmark_candidates_len(bookmarks.drop_last(), query, tokens);
    }
}

/// Whether every application of the index can be scored.
pub open spec fn apps_searchable(apps: Seq<ApplicationView>) -> bool {
    forall|i: int| 0 <= i < apps.len() ==> (#[trigger] apps[i]).searchable()
}

/// Whether every bookmark of the index can be scored.
pub open spec fn bookmarks_searchable(bookmarks: Seq<BookmarkView>) -> bool {
    forall|i: int| 0 <= i < bookmarks.len() ==> (#[trigger] bookmarks[i]).searchable()
}

/// Appends the matching applications to `found` and binds their actions.
fn collect_applications(
    apps: &[ApplicationInfo],
    query: &str,
    tokens: &Vec<String>,
    found: &mut Vec<SearchResult>,
    actions: &mut ActionMap,
)
    requires
        apps_searchable(app_views(apps@)),
        query_in_bounds(query@, views(tokens@)),
    ensures
        result_views(final(found)@) == result_views(old(found)@) + candidate_results(
            app_candidates(app_views(apps@), query@, views(tokens@)),
        ),
        final(actions)@ == bind_all(
            old(actions)@,
            app_candidates(app_views(apps@), query@, views(tokens@)),
        ),
{
    let ghost av = app_views(apps@);
    let ghost tv = views(tokens@);
    let ghost start = result_views(found@);
    let mut i: usize = 0;
    assert(result_views(found@) =~= start + candidate_results(
        app_candidates(av.take(0), query@, tv),
    ));
    while i < apps.len()
        invariant
            i <= apps.len(),
            av == app_views(apps@),
            tv == views(tokens@),
            apps_searchable(av),
            query_in_bounds(query@, tv),
            result_views(found@) == start + candidate_results(
                app_candidates(av.take(i as int), query@, tv),
            ),
            actions@ == bind_all(old(actions)@, app_candidates(av.take(i as int), query@, tv)),
        decreases apps.len() - i,
    {
        let app = &apps[i];
        proof {
            assert(av.take(i + 1).drop_last() =~= av.take(i as int));
            assert(av.take(i + 1).last() == app@);
            assert(av[i as int].searchable());
        }
        match match_application(app, query, tokens) {
            Some(score) => {
                let ghost earlier = result_views(found@);
                proof {
                    let before = app_candidates(av.take(i as int), query@, tv);
                    let candidate = Candidate {
                        result: app_result(app@, score as int),
                        action: ActionView::Application(app@),
                    };
                    assert(app_candidates(av.take(i + 1), query@, tv) == before.push(candidate));
                    assert(before.push(candidate).drop_last() =~= before);
                }
                let id = concat_str("app-", app.id.as_str());
                actions.insert(id.clone(), PendingAction::Application(app.clone()));
                let result = SearchResult {
                    id,
                    title: app.name.clone(),
                    subtitle: app.path.clone(),
                    score,
                    action_id: match app.app_type {
                        AppType::Win32 => "app".to_owned(),
                        AppType::Uwp => "uwp".to_owned(),
                    },
                };
                assert(result@ == app_result(app@, score as int));
                found.push(result);
                assert(result_views(found@) =~= earlier.push(result@));
                assert(result_views(found@) =~= start + candidate_results(
                    app_candidates(av.take(i + 1), query@, tv),
                ));
            },
            None => {},
        }
        i += 1;
    }
    assert(av.take(apps.len() as int) =~= av);
}

/// Appends the matching bookmarks to `found` and binds their actions.
fn collect_bookmarks(
    bookmarks: &[BookmarkEntry],
    query: &str,
    tokens: &Vec<String>,
    found: &mut Vec<SearchResult>,
    actions: &mut ActionMap,
)
    requires
        bookmarks_searchable(bookmark_views(bookmarks@)),
        query_in_bounds(query@, views(tokens@)),
    ensures
        result_views(final(found)@) == result_views(old(found)@) + candidate_results(
            bookmark_candidates(bookmark_views(bookmarks@), query@, views(tokens@)),
        ),
        final(actions)@ == bind_all(
            old(actions)@,
            bookmark_candidates(bookmark_views(bookmarks@), query@, views(tokens@)),
        ),
{
    let ghost bv = bookmark_views(bookmarks@);
    let ghost tv = views(tokens@);
    let ghost start = result_views(found@);
    let mut i: usize = 0;
    assert(result_views(found@) =~= start + candidate_results(
        bookmark_candidates(bv.take(0), query@, tv),
    ));
    while i < bookmarks.len()
        invariant
            i <= bookmarks.len(),
            bv == bookmark_views(bookmarks@),
            tv == views(tokens@),
            bookmarks_searchable(bv),
            query_in_bounds(query@, tv),
            result_views(found@) == start + candidate_results(
                bookmark_candidates(bv.take(i as int), query@, tv),
            ),
            actions@ == bind_all(
                old(actions)@,
                bookmark_candidates(bv.take(i as int), query@, tv),
            ),
        decreases bookmarks.len() - i,
    {
        let bookmark = &bookmarks[i];
        proof {
            assert(bv.take(i + 1).drop_last() =~= bv.take(i as int));
            assert(bv.take(i + 1).last() == bookmark@);
            assert(bv[i as int].searchable());
        }
        match match_bookmark(bookmark, query, tokens) {
            Some(score) => {
                let ghost earlier = result_views(found@);
                proof {
                    let before = bookmark_candidates(bv.take(i as int), query@, tv);
                    let candidate = Candidate {
                        result: bookmark_result(bookmark@, score as int),
                        action: ActionView::Bookmark(bookmark@),
                    };
                    assert(bookmark_candidates(bv.take(i + 1), query@, tv) == before.push(
                        candidate,
                    ));
                    assert(before.push(candidate).drop_last() =~= before);
                }
                let subtitle = match &bookmark.folder_path {
                    Some(path) => {
                        let with_path = concat_str("收藏夹 · ", path.as_str());
                        let with_dot = concat_str(with_path.as_str(), " · ");
                        concat_str(with_dot.as_str(), bookmark.url.as_str())
                    },
                    None => concat_str("收藏夹 · ", bookmark.url.as_str()),
                };
                let id = concat_str("bookmark-", bookmark.id.as_str());
                actions.insert(id.clone(), PendingAction::Bookmark(bookmark.clone()));
                let result = SearchResult {
                    id,
                    title: bookmark.title.clone(),
                    subtitle,
                    score,
                    action_id: "bookmark".to_owned(),
                };
                assert(result@ == bookmark_result(bookmark@, score as int));
                found.push(result);
                assert(result_views(found@) =~= earlier.push(result@));
                assert(result_views(found@) =~= start + candidate_results(
                    bookmark_candidates(bv.take(i + 1), query@, tv),
                ));
            },
            None => {},
        }
        i += 1;
    }
    assert(bv.take(bookmarks.len() as int) =~= bv);
}

/// The first `keep` of the results once ranked.
pub fn ranked_prefix(found: &Vec<SearchResult>, keep: usize) -> (top: Vec<SearchResult>)
    requires
        keep <= found.len(),
    ensures
        result_views(top@) == ranked(result_views(found@)).take(keep as int),
{
    let ghost fv = result_views(found@);
    let mut scores: Vec<i64> = Vec::new();
    let mut i: usize = 0;
    while i < found.len()
        invariant
            i <= found.len(),
            scores.len() == i,
            forall|j: int| 0 <= j < i ==> (#[trigger] scores@[j]) == found@[j].score,
        decreases found.len() - i,
    {
        scores.push(found[i].score);
        i += 1;
    }
    assert(ints(scores@) =~= result_scores(fv));
    let order = order_by_score_desc(&scores);
    let ghost spec_order = stable_order(fv.len(), by_score_desc(result_scores(fv)));
    assert(positions(order@) == spec_order);
    let mut top: Vec<SearchResult> = Vec::new();
    let mut k: usize = 0;
    while k < keep
        invariant
            k <= keep <= found.len(),
            order.len() == found.len(),
            fv == result_views(found@),
            positions(order@) == spec_order,
            spec_order == stable_order(fv.len(), by_score_desc(result_scores(fv))),
            forall|i: int| 0 <= i < order.len() ==> (#[trigger] order@[i]) < found.len(),
            top.len() == k,
            forall|j: int| 0 <= j < k ==> (#[trigger] top@[j])@ == fv[spec_order[j]],
        decreases keep - k,
    {
        assert(positions(order@)[k as int] == order@[k as int]);
        top.push(found[order[k]].clone());
        k += 1;
    }
    assert(result_views(top@) =~= ranked(fv).take(keep as int));
    top
}

/// Whether a query and two indexes can be searched: no text that ranking reads
/// is longer than `MAX_TEXT_CHARS`, and the entries can be counted.
pub open spec fn searchable_inputs(
    query: Seq<char>,
    apps: Seq<ApplicationView>,
    bookmarks: Seq<BookmarkView>,
) -> bool {
    &&& query.len() <= MAX_TEXT_CHARS
    &&& apps_searchable(apps)
    &&& bookmarks_searchable(bookmarks)
    &&& apps.len() + bookmarks.len() < usize::MAX
}

/// Whether the query and the two indexes can be searched.
pub fn can_search(query: &str, app_index: &[ApplicationInfo], bookmark_index: &[BookmarkEntry]) -> (r:
    bool)
    ensures
        r == searchable_inputs(query@, app_views(app_index@), bookmark_views(bookmark_index@)),
{
    if !within_text_limit(query) {
        return false;
    }
    if app_index.len() >= usize::MAX - bookmark_index.len() {
        return false;
    }
    let ghost av = app_views(app_index@);
    let mut i: usize = 0;
    while i < app_index.len()
        invariant
            i <= app_index.len(),
            av == app_views(app_index@),
            forall|j: int| 0 <= j < i ==> (#[trigger] av[j]).searchable(),
        decreases app_index.len() - i,
    {
        if !app_index[i].is_searchable() {
            assert(!av[i as int].searchable());
            return false;
        }
        assert(av[i as int] == app_index@[i as int]@);
        i += 1;
    }
    let ghost bv = bookmark_views(bookmark_index@);
    let mut k: usize = 0;
    while k < bookmark_index.len()
        invariant
            k <= bookmark_index.len(),
            bv == bookmark_views(bookmark_index@),
            forall|j: int| 0 <= j < k ==> (#[trigger] bv[j]).searchable(),
        decreases bookmark_index.len() - k,
    {
        if !bookmark_index[k].is_searchable() {
            assert(!bv[k as int].searchable());
            return false;
        }
        assert(bv[k as int] == bookmark_index@[k as int]@);
        k += 1;
    }
    true
}

/// The address result of a trimmed query that reads as an address, at the
/// head of the results, with its action.
pub open spec fn head_results(text: Seq<char>) -> Seq<ResultView> {
    if looks_like_url(text) {
        seq![url_result(text)]
    } else {
        Seq::empty()
    }
}

/// The action of the address result, where there is one.
pub open spec fn head_actions(text: Seq<char>) -> Map<Seq<char>, ActionView> {
    if looks_like_url(text) {
        Map::<Seq<char>, ActionView>::empty().insert(url_result(text).id, ActionView::Url(text))
    } else {
        Map::<Seq<char>, ActionView>::empty()
    }
}

/// The address result of the query, if it reads as an address.
fn address_results(text: &String) -> (r: (Vec<SearchResult>, ActionMap))
    ensures
        result_views(r.0@) == head_results(text@),
        r.1@ == head_actions(text@),
        r.0.len() <= 1,
{
    let mut results: Vec<SearchResult> = Vec::new();
    let mut actions = ActionMap::new();
    if is_url_like(text.as_str()) {
        let id = "url-0".to_owned();
        actions.insert(id.clone(), PendingAction::Url(text.clone()));
        let result = SearchResult {
            id,
            title: concat_str("打开网址: ", text.as_str()),
            subtitle: text.clone(),
            score: 200,
            action_id: "url".to_owned(),
        };
        assert(result@ == url_result(text@));
        results.push(result);
        assert(result_views(results@) =~= seq![url_result(text@)]);
    } else {
        assert(result_views(results@) =~= Seq::<ResultView>::empty());
    }
    (results, actions)
}

/// The matching entries that the mode and the configuration admit, with their
/// actions bound in `actions`.
fn gather_candidates(
    text: &String,
    tokens: &Vec<String>,
    mode: QueryMode,
    app_index: &[ApplicationInfo],
    bookmark_index: &[BookmarkEntry],
    config: &AppConfig,
    actions: &mut ActionMap,
) -> (found: Vec<SearchResult>)
    requires
        apps_searchable(app_views(app_index@)),
        bookmarks_searchable(bookmark_views(bookmark_index@)),
        query_in_bounds(text@, views(tokens@)),
    ensures
        result_views(found@) == candidate_results(
            eligible_candidates(
                text@,
                views(tokens@),
                mode,
                app_views(app_index@),
                bookmark_views(bookmark_index@),
                config@,
            ),
        ),
        final(actions)@ == bind_all(
            old(actions)@,
            eligible_candidates(
                text@,
                views(tokens@),
                mode,
                app_views(app_index@),
                bookmark_views(bookmark_index@),
                config@,
            ),
        ),
        found.len() <= app_index.len() + bookmark_index.len(),
{
    let ghost av = app_views(app_index@);
    let ghost bv = bookmark_views(bookmark_index@);
    let ghost tv = views(tokens@);
    let ghost start = actions@;
    let ghost candidates = eligible_candidates(text@, tv, mode, av, bv, config@);
    let ghost app_part = if mode.applications_allowed() && config.enable_app_results {
        app_candidates(av, text@, tv)
    } else {
        Seq::empty()
    };
    let ghost bookmark_part = if mode.bookmarks_allowed() && config.enable_bookmark_results {
        bookmark_candidates(bv, text@, tv)
    } else {
        Seq::empty()
    };
    let mut found: Vec<SearchResult> = Vec::new();
    assert(result_views(found@) =~= Seq::<ResultView>::empty());
    if mode.allows_applications() && config.enable_app_results {
        collect_applications(app_index, text.as_str(), tokens, &mut found, actions);
    }
    assert(result_views(found@) =~= candidate_results(app_part));
    assert(actions@ == bind_all(start, app_part));
    if mode.allows_bookmarks() && config.enable_bookmark_results {
        collect_bookmarks(bookmark_index, text.as_str(), tokens, &mut found, actions);
    }
    proof {
        lemma_bind_all_concat(start, app_part, bookmark_part);
        lemma_app_candidates_len(av, text@, tv);
        lemma_bookmark_candidates_len(bv, text@, tv);
        assert(candidates == app_part + bookmark_part);
        assert(candidate_results(candidates) =~= candidate_results(app_part) + candidate_results(
            bookmark_part,
        ));
        assert(result_views(found@).len() == found@.len());
    }
    found
}

/// Appends the web-search fallback for the query and binds its action.
fn push_web_search(
    text: &String,
    counter: usize,
    results: &mut Vec<SearchResult>,
    actions: &mut ActionMap,
)
    ensures
        result_views(final(results)@) == result_views(old(results)@).push(
            web_search_result(text@, counter as nat),
        ),
        final(actions)@ == old(actions)@.insert(
            web_search_result(text@, counter as nat).id,
            ActionView::Search(web_search_url(text@)),
        ),
{
    let ghost kept = result_views(results@);
    let id = concat_str("search-", string_of(&decimal_chars(counter)).as_str());
    let address = concat_str("https://google.com/search?q=", url_encode(text.as_str()).as_str());
    actions.insert(id.clone(), PendingAction::Search(address));
    let result = SearchResult {
        id,
        title: concat_str("在 Google 上搜索: ", text.as_str()),
        subtitle: "Google 搜索".to_owned(),
        score: i64::MIN,
        action_id: "search".to_owned(),
    };
    assert(result@ == web_search_result(text@, counter as nat));
    results.push(result);
    assert(result_views(results@) =~= kept.push(result@));
}

/// Searches the two indexes for `query` in the given mode.
pub fn search_in_mode(
    query: &str,
    mode: QueryMode,
    app_index: &[ApplicationInfo],
    bookmark_index: &[BookmarkEntry],
    config: &AppConfig,
) -> (r: (Vec<SearchResult>, ActionMap))
    requires
        searchable_inputs(query@, app_views(app_index@), bookmark_views(bookmark_index@)),
    ensures
        result_views(r.0@) == search_outcome(
            query@,
            mode,
            app_views(app_index@),
            bookmark_views(bookmark_index@),
            config@,
        ).results,
        r.1@ == search_outcome(
            query@,
            mode,
            app_views(app_index@),
            bookmark_views(bookmark_index@),
            config@,
        ).actions,
{
    let text_chars = trimmed(&chars_of(query));
    if text_chars.len() == 0 {
        let results: Vec<SearchResult> = Vec::new();
        assert(result_views(results@) =~= Seq::<ResultView>::empty());
        return (results, ActionMap::new());
    }
    let tokens = words_of(&text_chars);
    if tokens.len() == 0 {
        let results: Vec<SearchResult> = Vec::new();
        assert(result_views(results@) =~= Seq::<ResultView>::empty());
        return (results, ActionMap::new());
    }
    let text = string_of(&text_chars);
    proof {
        lemma_trim_len(query@);
        lemma_words_bounded(text@);
    }
    let limit = config.effective_limit();
    let (mut results, mut actions) = address_results(&text);
    let ghost head = result_views(results@);
    let found = gather_candidates(
        &text,
        &tokens,
        mode,
        app_index,
        bookmark_index,
        config,
        &mut actions,
    );
    let ghost ranked_found = ranked(result_views(found@));
    let listed_len: usize = results.len() + found.len();
    let keep: usize = if mode.allows_web_search() && listed_len >= limit {
        limit - 1
    } else if listed_len > limit {
        limit
    } else {
        listed_len
    };
    let mut top = ranked_prefix(&found, keep - results.len());
    let ghost top_views = result_views(top@);
    results.append(&mut top);
    proof {
        assert(ranked_found.len() == found@.len());
        assert(result_views(results@) =~= head + top_views);
        assert(head + top_views =~= (head + ranked_found).take(keep as int));
    }
    if mode.allows_web_search() {
        push_web_search(&text, listed_len, &mut results, &mut actions);
    }
    (results, actions)
}

/// Searches the two indexes for `query`; `mode` names the kinds of results
/// that are wanted.
pub fn search(
    query: String,
    mode: Option<String>,
    app_index: &[ApplicationInfo],
    bookmark_index: &[BookmarkEntry],
    config: &AppConfig,
) -> (r: (Vec<SearchResult>, ActionMap))
    requires
        searchable_inputs(query@, app_views(app_index@), bookmark_views(bookmark_index@)),
    ensures
        result_views(r.0@) == search_outcome(
            query@,
            mode_of(opt_view(mode)),
            app_views(app_index@),
            bookmark_views(bookmark_index@),
            config@,
        ).results,
        r.1@ == search_outcome(
            query@,
            mode_of(opt_view(mode)),
            app_views(app_index@),
            bookmark_views(bookmark_index@),
            config@,
        ).actions,
{
    let query_mode = QueryMode::from_option(mode);
    search_in_mode(query.as_str(), query_mode, app_index, bookmark_index, config)
}

} // verus!
