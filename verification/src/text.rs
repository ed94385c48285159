//! Character-level text primitives shared by the index builder and the ranking engine.
//!
//! Every specification here speaks of a text as its sequence of Unicode scalar
//! values (`Seq<char>`), which is also the view of `str` and `String`.

use vstd::prelude::*;
use vstd::string::StringExecFns;

verus! {

/// Longest text, in characters, that the engine accepts in an entry field or a query.
/// Scores are sums of 32-bit alignment scores and length penalties; below this
/// bound none of those sums can leave the 64-bit range.
pub const MAX_TEXT_CHARS: usize = 0x100_0000;

/// Whether `c` has the Unicode `White_Space` property.
pub open spec fn is_space(c: char) -> bool {
    ||| ('\u{9}' <= c && c <= '\u{d}')
    ||| c == ' '
    ||| c == '\u{85}'
    ||| c == '\u{a0}'
    ||| c == '\u{1680}'
    ||| ('\u{2000}' <= c && c <= '\u{200a}')
    ||| c == '\u{2028}'
    ||| c == '\u{2029}'
    ||| c == '\u{202f}'
    ||| c == '\u{205f}'
    ||| c == '\u{3000}'
}

/// `c` with an ASCII upper-case letter replaced by its lower-case form.
pub open spec fn lower_char(c: char) -> char {
    if 'A' <= c && c <= 'Z' {
        ((c as u8) + 32) as char
    } else {
        c
    }
}

/// `s` with every ASCII upper-case letter replaced by its lower-case form.
pub open spec fn ascii_lower(s: Seq<char>) -> Seq<char> {
    Seq::new(s.len(), |i: int| lower_char(s[i]))
}

/// Whether `needle` occurs in `hay` as a contiguous run of characters.
pub open spec fn has_substring(hay: Seq<char>, needle: Seq<char>) -> bool {
    exists|i: int| occurs_at(hay, needle, i)
}

/// Whether `needle` occurs in `hay` starting at position `i`.
pub open spec fn occurs_at(hay: Seq<char>, needle: Seq<char>, i: int) -> bool {
    0 <= i && i + needle.len() <= hay.len() && hay.subrange(i, i + needle.len()) == needle
}

/// Number of leading white-space characters of `s`.
pub open spec fn leading_spaces(s: Seq<char>) -> nat
    decreases s.len(),
{
    if s.len() > 0 && is_space(s[0]) {
        1 + leading_spaces(s.drop_first())
    } else {
        0
    }
}

/// Number of trailing white-space characters of `s`.
pub open spec fn trailing_spaces(s: Seq<char>) -> nat
    decreases s.len(),
{
    if s.len() > 0 && is_space(s.last()) {
        1 + trailing_spaces(s.drop_last())
    } else {
        0
    }
}

/// `s` without its leading and trailing white space.
pub open spec fn trim(s: Seq<char>) -> Seq<char> {
    let rest = s.skip(leading_spaces(s) as int);
    rest.take(rest.len() - trailing_spaces(rest))
}

/// The maximal runs of non-white-space characters of `s`, in order: a character
/// that is not white space extends the last word if it follows another such
/// character, and starts a new word otherwise.
pub open spec fn split_words(s: Seq<char>) -> Seq<Seq<char>>
    decreases s.len(),
{
    if s.len() == 0 {
        Seq::empty()
    } else {
        let before = split_words(s.drop_last());
        if is_space(s.last()) {
            before
        } else if ends_in_word(s.drop_last()) && before.len() > 0 {
            before.drop_last().push(before.last().push(s.last()))
        } else {
            before.push(seq![s.last()])
        }
    }
}

/// Whether `s` ends with a character that is not white space.
pub open spec fn ends_in_word(s: Seq<char>) -> bool {
    s.len() > 0 && !is_space(s.last())
}

/// Position of the first occurrence of `c` in `s`, or the length of `s` if there is none.
pub open spec fn first_index_of(s: Seq<char>, c: char) -> nat
    decreases s.len(),
{
    if s.len() > 0 && s[0] != c {
        1 + first_index_of(s.drop_first(), c)
    } else {
        0
    }
}

/// The decimal digit for `d`, which is below ten.
pub open spec fn digit_char(d: nat) -> char {
    ((48 + d) as u8) as char
}

/// The decimal numeral of `n`, without leading zeros.
pub open spec fn decimal(n: nat) -> Seq<char>
    decreases n,
{
    if n < 10 {
        seq![digit_char(n)]
    } else {
        decimal(n / 10).push(digit_char(n % 10))
    }
}

/// Whether `a` comes strictly before `b` when texts are compared character by
/// character by code point, a proper prefix coming before its extensions.
pub open spec fn lex_lt(a: Seq<char>, b: Seq<char>) -> bool
    decreases a.len(),
{
    if b.len() == 0 {
        false
    } else if a.len() == 0 {
        true
    } else if a[0] != b[0] {
        a[0] < b[0]
    } else {
        lex_lt(a.drop_first(), b.drop_first())
    }
}

/// The character sequences of a sequence of strings.
pub open spec fn views(v: Seq<String>) -> Seq<Seq<char>> {
    Seq::new(v.len(), |i: int| v[i]@)
}

/// Whether none of the texts is longer than `MAX_TEXT_CHARS`.
pub open spec fn texts_in_bounds(texts: Seq<Seq<char>>) -> bool {
    forall|i: int| 0 <= i < texts.len() ==> (#[trigger] texts[i]).len() <= MAX_TEXT_CHARS
}

/// The character sequence of an optional string.
pub open spec fn opt_view(o: Option<String>) -> Option<Seq<char>> {
    match o {
        Some(s) => Some(s@),
        None => None,
    }
}

/// What std's `str::to_lowercase` returns for the text `s`: its lower-case form
/// under the Unicode case mappings.
pub uninterp spec fn unicode_lower(s: Seq<char>) -> Seq<char>;

/// std's `str::to_lowercase` is a function of the text alone; its result is
/// named `unicode_lower` and nothing more is claimed of it.
pub assume_specification[ str::to_lowercase ](s: &str) -> (r: String)
    ensures
        r@ == unicode_lower(s@),
;

/// A text has no more words than characters, and none of its words is longer
/// than the text.
pub proof fn lemma_words_bounded(s: Seq<char>)
    ensures
        split_words(s).len() <= s.len(),
        forall|i: int| 0 <= i < split_words(s).len() ==> (#[trigger] split_words(s)[i]).len() <= s.len(),
        ends_in_word(s) ==> split_words(s).len() > 0,
    decreases s.len(),
{
    if s.len() > 0 {
        lemma_words_bounded(s.drop_last());
        let before = split_words(s.drop_last());
        assert forall|i: int| 0 <= i < split_words(s).len() implies (#[trigger] split_words(
            s,
        )[i]).len() <= s.len() by {
            if i < before.len() - 1 {
                assert(split_words(s)[i] == before[i]);
            } else if i == before.len() - 1 {
                assert(before[i].len() <= s.len() - 1);
            }
        }
    }
}

/// Appending one character to a `String` (std's `String::push`) extends its
/// character sequence by exactly that character.
pub assume_specification[ String::push ](s: &mut String, ch: char)
    ensures
        final(s)@ == old(s)@.push(ch),
;

/// The characters of `s`, in order.
pub fn chars_of(s: &str) -> (v: Vec<char>)
    ensures
        v@ == s@,
{
    let mut v: Vec<char> = Vec::new();
    for c in it: s.chars()
        invariant
            it.seq() == s@,
            v@ == s@.take(it.index() as int),
    {
        v.push(c);
    }
    v
}

/// The string spelled by `v`.
pub fn string_of(v: &Vec<char>) -> (s: String)
    ensures
        s@ == v@,
{
    let mut s = String::new();
    let mut i: usize = 0;
    while i < v.len()
        invariant
            i <= v.len(),
            s@ == v@.take(i as int),
        decreases v.len() - i,
    {
        s.push(v[i]);
        i += 1;
    }
    s
}

/// The two texts joined.
pub fn concat_str(a: &str, b: &str) -> (r: String)
    ensures
        r@ == a@ + b@,
{
    let mut r = a.to_owned();
    r.append(b);
    r
}

/// Whether the text spelled by `chars` is `literal`.
pub fn spells(chars: &Vec<char>, literal: &str) -> (r: bool)
    ensures
        r == (chars@ == literal@),
{
    let other = chars_of(literal);
    chars_eq(chars, &other)
}

/// Where `c` first occurs in `s`, if it does.
pub proof fn lemma_first_index_of(s: Seq<char>, c: char)
    ensures
        first_index_of(s, c) <= s.len(),
        first_index_of(s, c) < s.len() ==> s[first_index_of(s, c) as int] == c,
        forall|j: int| 0 <= j < first_index_of(s, c) ==> s[j] != c,
        first_index_of(s, c) < s.len() <==> s.contains(c),
    decreases s.len(),
{
    if s.len() > 0 && s[0] != c {
        let rest = s.drop_first();
        lemma_first_index_of(rest, c);
        assert forall|j: int| 0 <= j < first_index_of(s, c) implies s[j] != c by {
            if j > 0 {
                assert(s[j] == rest[j - 1]);
            }
        }
        if first_index_of(rest, c) < rest.len() {
            assert(s[first_index_of(s, c) as int] == rest[first_index_of(rest, c) as int]);
        }
        if s.contains(c) {
            let i = choose|i: int| 0 <= i < s.len() && s[i] == c;
            assert(rest[i - 1] == c);
        }
    } else if s.len() > 0 {
        assert(s[0] == c);
    }
}

/// Trimming never lengthens a text.
pub proof fn lemma_trim_len(s: Seq<char>)
    ensures
        trim(s).len() <= s.len(),
{
    lemma_leading_spaces(s);
    lemma_trailing_spaces(s.skip(leading_spaces(s) as int));
}

/// A text has no more leading white space than characters.
pub proof fn lemma_leading_spaces(s: Seq<char>)
    ensures
        leading_spaces(s) <= s.len(),
    decreases s.len(),
{
    if s.len() > 0 && is_space(s[0]) {
        lemma_leading_spaces(s.drop_first());
    }
}

/// A text has no more trailing white space than characters.
pub proof fn lemma_trailing_spaces(s: Seq<char>)
    ensures
        trailing_spaces(s) <= s.len(),
    decreases s.len(),
{
    if s.len() > 0 && is_space(s.last()) {
        lemma_trailing_spaces(s.drop_last());
    }
}

/// A trimmed text that is not empty ends in a character that is not white
/// space, and so has at least one word.
pub proof fn lemma_trim_has_word(s: Seq<char>)
    requires
        trim(s).len() > 0,
    ensures
        ends_in_word(trim(s)),
        split_words(trim(s)).len() > 0,
{
    let rest = s.skip(leading_spaces(s) as int);
    lemma_before_trailing_spaces(rest);
    lemma_words_bounded(trim(s));
}

/// The character before the trailing white space of a text, if there is one,
/// is not white space.
pub proof fn lemma_before_trailing_spaces(s: Seq<char>)
    ensures
        trailing_spaces(s) <= s.len(),
        trailing_spaces(s) < s.len() ==> !is_space(s[s.len() - trailing_spaces(s) - 1]),
    decreases s.len(),
{
    if s.len() > 0 && is_space(s.last()) {
        lemma_before_trailing_spaces(s.drop_last());
    }
}

/// No two texts come before each other.
pub proof fn lemma_lex_asymmetric(a: Seq<char>, b: Seq<char>)
    ensures
        !(lex_lt(a, b) && lex_lt(b, a)),
    decreases a.len(),
{
    if a.len() > 0 && b.len() > 0 && a[0] == b[0] {
        lemma_lex_asymmetric(a.drop_first(), b.drop_first());
    }
}

/// A text that comes before `a` also comes before every text that does not
/// come before `a`.
pub proof fn lemma_lex_carries_over(x: Seq<char>, a: Seq<char>, b: Seq<char>)
    requires
        lex_lt(x, a),
        !lex_lt(b, a),
    ensures
        lex_lt(x, b),
    decreases x.len(),
{
    if x.len() > 0 && a.len() > 0 && b.len() > 0 && x[0] == a[0] && a[0] == b[0] {
        lemma_lex_carries_over(x.drop_first(), a.drop_first(), b.drop_first());
    }
}

/// The texts written one after the other with `separator` between each two.
pub open spec fn joined_with(parts: Seq<Seq<char>>, separator: Seq<char>) -> Seq<char>
    decreases parts.len(),
{
    if parts.len() == 0 {
        Seq::empty()
    } else if parts.len() == 1 {
        parts[0]
    } else {
        joined_with(parts.drop_last(), separator) + separator + parts.last()
    }
}

/// The pieces of `s` between the occurrences of `c`; a text without `c` is one piece.
pub open spec fn split_on(s: Seq<char>, c: char) -> Seq<Seq<char>>
    decreases s.len(),
{
    if s.len() == 0 {
        seq![Seq::empty()]
    } else {
        let before = split_on(s.drop_last(), c);
        if s.last() == c {
            before.push(Seq::empty())
        } else if before.len() > 0 {
            before.drop_last().push(before.last().push(s.last()))
        } else {
            seq![seq![s.last()]]
        }
    }
}

/// A sorted list of distinct texts with `x` put in its place, unless it is there already.
pub open spec fn insert_text(sorted: Seq<Seq<char>>, x: Seq<char>) -> Seq<Seq<char>>
    decreases sorted.len(),
{
    if sorted.len() == 0 {
        seq![x]
    } else if lex_lt(sorted.last(), x) {
        sorted.push(x)
    } else if sorted.last() == x {
        sorted
    } else {
        insert_text(sorted.drop_last(), x).push(sorted.last())
    }
}

/// The texts, each once, in code-point order.
pub open spec fn sorted_texts(texts: Seq<Seq<char>>) -> Seq<Seq<char>>
    decreases texts.len(),
{
    if texts.len() == 0 {
        Seq::empty()
    } else {
        insert_text(sorted_texts(texts.drop_last()), texts.last())
    }
}

/// The texts that are not blank, in order.
pub open spec fn without_blank(texts: Seq<Seq<char>>) -> Seq<Seq<char>>
    decreases texts.len(),
{
    if texts.len() == 0 {
        Seq::empty()
    } else if trim(texts.last()).len() == 0 {
        without_blank(texts.drop_last())
    } else {
        without_blank(texts.drop_last()).push(texts.last())
    }
}

/// Number of leading characters of `s` that are quotation marks, single or double.
pub open spec fn leading_quotes(s: Seq<char>) -> nat
    decreases s.len(),
{
    if s.len() > 0 && is_quote(s[0]) {
        1 + leading_quotes(s.drop_first())
    } else {
        0
    }
}

/// Number of trailing characters of `s` that are quotation marks, single or double.
pub open spec fn trailing_quotes(s: Seq<char>) -> nat
    decreases s.len(),
{
    if s.len() > 0 && is_quote(s.last()) {
        1 + trailing_quotes(s.drop_last())
    } else {
        0
    }
}

/// Whether `c` is a single or a double quotation mark.
pub open spec fn is_quote(c: char) -> bool {
    c == '\'' || c == '"'
}

/// `s` without the quotation marks at its two ends.
pub open spec fn unquoted(s: Seq<char>) -> Seq<char> {
    let rest = s.skip(leading_quotes(s) as int);
    rest.take(rest.len() - trailing_quotes(rest))
}

/// Whether `a` and `b` are equal once their ASCII letters are lower-cased.
pub open spec fn same_ignoring_case(a: Seq<char>, b: Seq<char>) -> bool {
    ascii_lower(a) == ascii_lower(b)
}

/// Tests the Unicode `White_Space` property.
pub fn is_whitespace_char(c: char) -> (r: bool)
    ensures
        r == is_space(c),
{
    (c >= '\u{9}' && c <= '\u{d}') || c == ' ' || c == '\u{85}' || c == '\u{a0}' || c == '\u{1680}'
        || (c >= '\u{2000}' && c <= '\u{200a}') || c == '\u{2028}' || c == '\u{2029}' || c
        == '\u{202f}' || c == '\u{205f}' || c == '\u{3000}'
}

/// Lower-cases one ASCII letter and leaves every other character as it is.
pub fn to_lower_char(c: char) -> (r: char)
    ensures
        r == lower_char(c),
{
    if c >= 'A' && c <= 'Z' {
        ((c as u8) + 32) as char
    } else {
        c
    }
}

/// Lower-cases the ASCII letters of `v`.
pub fn to_ascii_lower(v: &Vec<char>) -> (r: Vec<char>)
    ensures
        r@ == ascii_lower(v@),
{
    let mut r: Vec<char> = Vec::new();
    let mut i: usize = 0;
    while i < v.len()
        invariant
            i <= v.len(),
            r@ == ascii_lower(v@).take(i as int),
        decreases v.len() - i,
    {
        r.push(to_lower_char(v[i]));
        i += 1;
    }
    r
}

/// Whether two texts hold the same characters.
pub fn chars_eq(a: &Vec<char>, b: &Vec<char>) -> (r: bool)
    ensures
        r == (a@ == b@),
{
    if a.len() != b.len() {
        return false;
    }
    let mut i: usize = 0;
    while i < a.len()
        invariant
            i <= a.len(),
            a.len() == b.len(),
            a@.take(i as int) == b@.take(i as int),
        decreases a.len() - i,
    {
        if a[i] != b[i] {
            return false;
        }
        proof {
            assert(a@.take(i + 1) =~= a@.take(i as int).push(a@[i as int]));
            assert(b@.take(i + 1) =~= b@.take(i as int).push(b@[i as int]));
        }
        i += 1;
    }
    proof {
        assert(a@.take(a.len() as int) =~= a@);
        assert(b@.take(b.len() as int) =~= b@);
    }
    true
}

/// Whether `needle` occurs in `hay` at position `at`.
pub fn matches_at(hay: &Vec<char>, needle: &Vec<char>, at: usize) -> (r: bool)
    ensures
        r == occurs_at(hay@, needle@, at as int),
{
    if needle.len() > hay.len() || at > hay.len() - needle.len() {
        return false;
    }
    let mut i: usize = 0;
    while i < needle.len()
        invariant
            i <= needle.len(),
            at + needle.len() <= hay.len(),
            hay@.subrange(at as int, at + i) == needle@.take(i as int),
        decreases needle.len() - i,
    {
        if hay[at + i] != needle[i] {
            proof {
                let w = hay@.subrange(at as int, at + needle.len());
                assert(w[i as int] != needle@[i as int]);
            }
            return false;
        }
        proof {
            assert(hay@.subrange(at as int, at + i + 1) =~= hay@.subrange(at as int, at + i).push(
                hay@[at + i],
            ));
            assert(needle@.take(i + 1) =~= needle@.take(i as int).push(needle@[i as int]));
        }
        i += 1;
    }
    proof {
        assert(needle@.take(needle.len() as int) =~= needle@);
    }
    true
}

/// Whether `s` begins with `prefix`.
pub fn starts_with(s: &Vec<char>, prefix: &Vec<char>) -> (r: bool)
    ensures
        r == prefix@.is_prefix_of(s@),
{
    let r = matches_at(s, prefix, 0);
    proof {
        if prefix@.len() <= s@.len() {
            assert(s@.subrange(0, 0 + prefix@.len() as int) =~= s@.subrange(
                0,
                prefix@.len() as int,
            ));
        }
    }
    r
}

/// Whether `needle` occurs somewhere in `hay`.
pub fn contains(hay: &Vec<char>, needle: &Vec<char>) -> (r: bool)
    ensures
        r == has_substring(hay@, needle@),
{
    if needle.len() > hay.len() {
        return false;
    }
    let last: usize = hay.len() - needle.len();
    let mut i: usize = 0;
    while i < last
        invariant
            i <= last,
            last == hay.len() - needle.len(),
            needle.len() <= hay.len(),
            forall|j: int| 0 <= j < i ==> !occurs_at(hay@, needle@, j),
        decreases last - i,
    {
        if matches_at(hay, needle, i) {
            return true;
        }
        i += 1;
    }
    matches_at(hay, needle, last)
}

/// The text without its leading and trailing white space.
pub fn trimmed(v: &Vec<char>) -> (r: Vec<char>)
    ensures
        r@ == trim(v@),
{
    let mut start: usize = 0;
    assert(v@.skip(0) =~= v@);
    while start < v.len() && is_whitespace_char(v[start])
        invariant
            start <= v.len(),
            leading_spaces(v@) == start + leading_spaces(v@.skip(start as int)),
        decreases v.len() - start,
    {
        proof {
            assert(v@.skip(start as int).drop_first() =~= v@.skip(start + 1));
        }
        start += 1;
    }
    let ghost rest = v@.skip(start as int);
    let mut end: usize = v.len();
    assert(rest.take(v.len() - start) =~= rest);
    while end > start && is_whitespace_char(v[end - 1])
        invariant
            start <= end <= v.len(),
            rest == v@.skip(start as int),
            trailing_spaces(rest) == (v.len() - end) + trailing_spaces(rest.take(end - start)),
        decreases end,
    {
        proof {
            assert(rest.take(end - start).drop_last() =~= rest.take(end - start - 1));
        }
        end -= 1;
    }
    proof {
        assert(rest.take(v.len() - start) =~= rest);
    }
    let mut r: Vec<char> = Vec::new();
    let mut i: usize = start;
    while i < end
        invariant
            start <= i <= end <= v.len(),
            r@ == v@.subrange(start as int, i as int),
        decreases end - i,
    {
        r.push(v[i]);
        proof {
            assert(v@.subrange(start as int, i + 1) =~= v@.subrange(start as int, i as int).push(
                v@[i as int],
            ));
        }
        i += 1;
    }
    proof {
        assert(v@.subrange(start as int, end as int) =~= trim(v@));
    }
    r
}

/// The white-space-separated words of the text.
pub fn words_of(v: &Vec<char>) -> (words: Vec<String>)
    ensures
        views(words@) == split_words(v@),
{
    let mut words: Vec<String> = Vec::new();
    let mut cur: Vec<char> = Vec::new();
    let mut i: usize = 0;
    while i < v.len()
        invariant
            i <= v.len(),
            cur@.len() > 0 <==> ends_in_word(v@.take(i as int)),
            split_words(v@.take(i as int)) == if cur@.len() > 0 {
                views(words@).push(cur@)
            } else {
                views(words@)
            },
        decreases v.len() - i,
    {
        let c = v[i];
        let ghost before = split_words(v@.take(i as int));
        proof {
            assert(v@.take(i + 1).drop_last() =~= v@.take(i as int));
            assert(v@.take(i + 1).last() == c);
        }
        if is_whitespace_char(c) {
            assert(split_words(v@.take(i + 1)) == before);
            if cur.len() > 0 {
                let ghost earlier = views(words@);
                let word = string_of(&cur);
                words.push(word);
                cur = Vec::new();
                assert(views(words@) =~= earlier.push(word@));
            }
        } else {
            proof {
                if cur@.len() > 0 {
                    assert(before.drop_last() =~= views(words@));
                    assert(before.last() == cur@);
                    assert(split_words(v@.take(i + 1)) == views(words@).push(cur@.push(c)));
                } else {
                    assert(split_words(v@.take(i + 1)) == views(words@).push(seq![c]));
                    assert(cur@.push(c) =~= seq![c]);
                }
            }
            cur.push(c);
        }
        i += 1;
    }
    proof {
        assert(v@.take(v.len() as int) =~= v@);
    }
    if cur.len() > 0 {
        let ghost before = views(words@);
        let word = string_of(&cur);
        words.push(word);
        assert(views(words@) =~= before.push(word@));
    }
    words
}

/// Position of the first `c` in the text, or its length if `c` does not occur.
pub fn index_of(v: &Vec<char>, c: char) -> (r: usize)
    ensures
        r == first_index_of(v@, c),
        r <= v.len(),
{
    let mut i: usize = 0;
    assert(v@.skip(0) =~= v@);
    while i < v.len() && v[i] != c
        invariant
            i <= v.len(),
            first_index_of(v@, c) == i + first_index_of(v@.skip(i as int), c),
        decreases v.len() - i,
    {
        proof {
            assert(v@.skip(i as int).drop_first() =~= v@.skip(i + 1));
        }
        i += 1;
    }
    i
}

/// The characters of the text from position `from` up to, not including, `to`.
pub fn slice_of(v: &Vec<char>, from: usize, to: usize) -> (r: Vec<char>)
    requires
        from <= to <= v.len(),
    ensures
        r@ == v@.subrange(from as int, to as int),
{
    let mut r: Vec<char> = Vec::new();
    let mut i: usize = from;
    while i < to
        invariant
            from <= i <= to <= v.len(),
            r@ == v@.subrange(from as int, i as int),
        decreases to - i,
    {
        r.push(v[i]);
        proof {
            assert(v@.subrange(from as int, i + 1) =~= v@.subrange(from as int, i as int).push(
                v@[i as int],
            ));
        }
        i += 1;
    }
    r
}

/// The decimal numeral of `n`.
pub fn decimal_of(n: u64) -> (r: Vec<char>)
    ensures
        r@ == decimal(n as nat),
    decreases n,
{
    if n < 10 {
        let mut r: Vec<char> = Vec::new();
        r.push((48u8 + (n as u8)) as char);
        assert(r@ =~= seq![digit_char(n as nat)]);
        r
    } else {
        let mut r = decimal_of(n / 10);
        r.push((48u8 + ((n % 10) as u8)) as char);
        r
    }
}

/// The decimal numeral of `n`.
pub fn decimal_chars(n: usize) -> (r: Vec<char>)
    ensures
        r@ == decimal(n as nat),
{
    decimal_of(n as u64)
}

/// Whether every character of `s` is an ASCII digit.
pub open spec fn all_digits(s: Seq<char>) -> bool {
    forall|i: int| 0 <= i < s.len() ==> '0' <= #[trigger] s[i] <= '9'
}

/// The number that a sequence of ASCII digits writes in decimal.
pub open spec fn digits_value(s: Seq<char>) -> nat
    decreases s.len(),
{
    if s.len() == 0 {
        0
    } else {
        digits_value(s.drop_last()) * 10 + ((s.last() as u8) - 48) as nat
    }
}

/// The number that the text writes, as far as it fits in 32 bits: the text is
/// one or more ASCII digits, with or without a plus sign before them.
pub open spec fn parsed_u32(s: Seq<char>) -> Option<u32> {
    let digits = if s.len() > 0 && s[0] == '+' {
        s.skip(1)
    } else {
        s
    };
    if digits.len() > 0 && all_digits(digits) && digits_value(digits) <= u32::MAX {
        Some(digits_value(digits) as u32)
    } else {
        None
    }
}

/// A longer numeral does not write a smaller number.
pub proof fn lemma_digits_value_grows(s: Seq<char>, k: int)
    requires
        0 <= k <= s.len(),
        all_digits(s),
    ensures
        digits_value(s.take(k)) <= digits_value(s),
    decreases s.len() - k,
{
    if k < s.len() {
        lemma_digits_value_grows(s, k + 1);
        assert(s.take(k + 1).drop_last() =~= s.take(k));
        assert('0' <= s.take(k + 1).last() <= '9');
    } else {
        assert(s.take(k) =~= s);
    }
}

/// Reads an unsigned number of at most 32 bits.
pub fn parse_u32(text: &str) -> (r: Option<u32>)
    ensures
        r == parsed_u32(text@),
{
    let chars = chars_of(text);
    let start: usize = if chars.len() > 0 && chars[0] == '+' {
        1
    } else {
        0
    };
    if start >= chars.len() {
        return None;
    }
    let ghost digits = chars@.skip(start as int);
    proof {
        assert(chars@.skip(0) =~= chars@);
        assert(digits == if text@.len() > 0 && text@[0] == '+' {
            text@.skip(1)
        } else {
            text@
        });
    }
    let mut value: u64 = 0;
    let mut i: usize = start;
    assert(digits.take(0) =~= Seq::<char>::empty());
    while i < chars.len()
        invariant
            start <= i <= chars.len(),
            digits == chars@.skip(start as int),
            digits == if text@.len() > 0 && text@[0] == '+' {
                text@.skip(1)
            } else {
                text@
            },
            all_digits(digits.take(i - start)),
            value == digits_value(digits.take(i - start)),
            value <= u32::MAX,
        decreases chars.len() - i,
    {
        let c = chars[i];
        proof {
            assert(digits[i - start] == c);
            assert(digits.take(i - start + 1).drop_last() =~= digits.take(i - start));
            assert(digits.take(i - start + 1).last() == c);
        }
        if !(c >= '0' && c <= '9') {
            proof {
                assert(!('0' <= digits[i - start] <= '9'));
                assert(!all_digits(digits));
                assert(parsed_u32(text@) is None);
            }
            return None;
        }
        let next: u64 = value * 10 + (((c as u8) - 48) as u64);
        assert(next == digits_value(digits.take(i - start + 1)));
        proof {
            assert forall|j: int| 0 <= j < i - start + 1 implies '0' <= #[trigger] digits.take(
                i - start + 1,
            )[j] <= '9' by {
                if j < i - start {
                    assert(digits.take(i - start)[j] == digits.take(i - start + 1)[j]);
                }
            }
        }
        if next > 0xffff_ffff {
            proof {
                if all_digits(digits) {
                    lemma_digits_value_grows(digits, i - start + 1);
                }
                assert(parsed_u32(text@) is None);
            }
            return None;
        }
        value = next;
        i += 1;
    }
    proof {
        assert(digits.take(chars.len() - start) =~= digits);
    }
    Some(value as u32)
}

/// Whether `a` sorts strictly before `b` by code point.
pub fn lex_less(a: &Vec<char>, b: &Vec<char>) -> (r: bool)
    ensures
        r == lex_lt(a@, b@),
{
    let mut i: usize = 0;
    assert(a@.skip(0) =~= a@ && b@.skip(0) =~= b@);
    while i < a.len() && i < b.len()
        invariant
            i <= a.len(),
            i <= b.len(),
            lex_lt(a@, b@) == lex_lt(a@.skip(i as int), b@.skip(i as int)),
        decreases a.len() - i,
    {
        proof {
            assert(a@.skip(i as int).drop_first() =~= a@.skip(i + 1));
            assert(b@.skip(i as int).drop_first() =~= b@.skip(i + 1));
        }
        if a[i] != b[i] {
            return a[i] < b[i];
        }
        i += 1;
    }
    i < b.len()
}

/// Whether the text is no longer than `MAX_TEXT_CHARS`.
pub fn within_text_limit(text: &str) -> (r: bool)
    ensures
        r == (text@.len() <= MAX_TEXT_CHARS),
{
    chars_of(text).len() <= MAX_TEXT_CHARS
}

/// Whether none of the texts is longer than `MAX_TEXT_CHARS`.
pub fn all_within_text_limit(texts: &Vec<String>) -> (r: bool)
    ensures
        r == texts_in_bounds(views(texts@)),
{
    let mut i: usize = 0;
    while i < texts.len()
        invariant
            i <= texts.len(),
            forall|j: int| 0 <= j < i ==> (#[trigger] views(texts@)[j]).len() <= MAX_TEXT_CHARS,
        decreases texts.len() - i,
    {
        if !within_text_limit(texts[i].as_str()) {
            assert(views(texts@)[i as int].len() > MAX_TEXT_CHARS);
            return false;
        }
        assert(views(texts@)[i as int] == texts@[i as int]@);
        i += 1;
    }
    true
}

/// Whether an optional text is absent or no longer than `MAX_TEXT_CHARS`.
pub fn optional_within_text_limit(text: &Option<String>) -> (r: bool)
    ensures
        r == (opt_view(*text) matches Some(t) ==> t.len() <= MAX_TEXT_CHARS),
{
    match text {
        Some(t) => within_text_limit(t.as_str()),
        None => true,
    }
}

/// Whether the text is empty or all white space.
pub fn is_blank(text: &str) -> (r: bool)
    ensures
        r == (trim(text@).len() == 0),
{
    trimmed(&chars_of(text)).len() == 0
}

/// The text without its leading and trailing white space.
pub fn trim_str(text: &str) -> (r: String)
    ensures
        r@ == trim(text@),
{
    string_of(&trimmed(&chars_of(text)))
}

/// The text with its ASCII letters in lower case.
pub fn lower_str(text: &str) -> (r: String)
    ensures
        r@ == ascii_lower(text@),
{
    string_of(&to_ascii_lower(&chars_of(text)))
}

/// Whether the two texts hold the same characters.
pub fn str_eq(a: &str, b: &str) -> (r: bool)
    ensures
        r == (a@ == b@),
{
    chars_eq(&chars_of(a), &chars_of(b))
}

/// Whether `text` begins with `prefix`.
pub fn str_starts_with(text: &str, prefix: &str) -> (r: bool)
    ensures
        r == prefix@.is_prefix_of(text@),
{
    starts_with(&chars_of(text), &chars_of(prefix))
}

/// Whether `needle` occurs in `text`.
pub fn str_contains(text: &str, needle: &str) -> (r: bool)
    ensures
        r == has_substring(text@, needle@),
{
    contains(&chars_of(text), &chars_of(needle))
}

/// The texts joined with `separator` between each two.
pub fn join_strings(parts: &Vec<String>, separator: &str) -> (r: String)
    ensures
        r@ == joined_with(views(parts@), separator@),
{
    let ghost pv = views(parts@);
    let mut r = String::new();
    let mut i: usize = 0;
    while i < parts.len()
        invariant
            i <= parts.len(),
            pv == views(parts@),
            r@ == joined_with(pv.take(i as int), separator@),
        decreases parts.len() - i,
    {
        proof {
            assert(pv.take(i + 1).drop_last() =~= pv.take(i as int));
            assert(pv.take(i + 1).last() == parts@[i as int]@);
            if i == 1 {
                assert(pv.take(1)[0] == pv.take(2)[0]);
            }
        }
        if i > 0 {
            r.append(separator);
        }
        r.append(parts[i].as_str());
        proof {
            if i == 0 {
                assert(r@ =~= parts@[0]@);
                assert(pv.take(1)[0] == parts@[0]@);
            }
        }
        i += 1;
    }
    proof {
        assert(pv.take(parts.len() as int) =~= pv);
    }
    r
}

/// The pieces of the text between the occurrences of `c`.
pub fn split_chars(v: &Vec<char>, c: char) -> (pieces: Vec<String>)
    ensures
        views(pieces@) == split_on(v@, c),
{
    let mut pieces: Vec<String> = Vec::new();
    let mut cur: Vec<char> = Vec::new();
    let mut i: usize = 0;
    assert(views(pieces@).push(cur@) =~= split_on(v@.take(0), c));
    while i < v.len()
        invariant
            i <= v.len(),
            split_on(v@.take(i as int), c) == views(pieces@).push(cur@),
        decreases v.len() - i,
    {
        let ghost before = split_on(v@.take(i as int), c);
        proof {
            assert(v@.take(i + 1).drop_last() =~= v@.take(i as int));
            assert(v@.take(i + 1).last() == v@[i as int]);
            assert(before.drop_last() =~= views(pieces@));
            assert(before.last() == cur@);
        }
        if v[i] == c {
            let ghost earlier = views(pieces@);
            let piece = string_of(&cur);
            pieces.push(piece);
            cur = Vec::new();
            assert(views(pieces@) =~= earlier.push(piece@));
            assert(cur@ =~= Seq::<char>::empty());
        } else {
            cur.push(v[i]);
        }
        i += 1;
    }
    proof {
        assert(v@.take(v.len() as int) =~= v@);
    }
    let ghost earlier = views(pieces@);
    let piece = string_of(&cur);
    pieces.push(piece);
    assert(views(pieces@) =~= earlier.push(piece@));
    pieces
}

/// Puts `x` in its place in a sorted list of distinct texts, unless it is there already.
pub fn insert_sorted(sorted: &mut Vec<String>, x: String)
    ensures
        views(final(sorted)@) == insert_text(views(old(sorted)@), x@),
{
    let ghost sv = views(sorted@);
    let key = chars_of(x.as_str());
    let mut pos: usize = sorted.len();
    assert(sv.take(sv.len() as int) =~= sv);
    assert(insert_text(sv.take(pos as int), x@) + sv.skip(pos as int) =~= insert_text(sv, x@));
    while pos > 0
        invariant
            pos <= sorted.len(),
            sv == views(sorted@),
            sorted@ == old(sorted)@,
            key@ == x@,
            insert_text(sv, x@) == insert_text(sv.take(pos as int), x@) + sv.skip(pos as int),
        decreases pos,
    {
        let other = chars_of(sorted[pos - 1].as_str());
        proof {
            assert(sv.take(pos as int).last() == other@);
            assert(sv.take(pos as int).drop_last() =~= sv.take(pos - 1));
        }
        if lex_less(&other, &key) {
            let ghost earlier = sv.take(pos as int);
            sorted.insert(pos, x);
            assert(views(sorted@) =~= earlier.push(key@) + sv.skip(pos as int));
            return ;
        }
        if chars_eq(&other, &key) {
            assert(sv.take(pos as int) + sv.skip(pos as int) =~= sv);
            return ;
        }
        proof {
            assert(insert_text(sv.take(pos - 1), x@).push(other@) + sv.skip(pos as int)
                =~= insert_text(sv.take(pos - 1), x@) + sv.skip(pos - 1));
        }
        pos -= 1;
    }
    sorted.insert(0, x);
    assert(views(sorted@) =~= seq![key@] + sv.skip(0));
}

/// The texts, each once, in code-point order.
pub fn sorted_strings(texts: Vec<String>) -> (r: Vec<String>)
    ensures
        views(r@) == sorted_texts(views(texts@)),
{
    let ghost tv = views(texts@);
    let mut r: Vec<String> = Vec::new();
    let mut i: usize = 0;
    assert(views(r@) =~= sorted_texts(tv.take(0)));
    while i < texts.len()
        invariant
            i <= texts.len(),
            tv == views(texts@),
            views(r@) == sorted_texts(tv.take(i as int)),
        decreases texts.len() - i,
    {
        proof {
            assert(tv.take(i + 1).drop_last() =~= tv.take(i as int));
            assert(tv.take(i + 1).last() == texts@[i as int]@);
        }
        insert_sorted(&mut r, texts[i].clone());
        i += 1;
    }
    proof {
        assert(tv.take(texts.len() as int) =~= tv);
    }
    r
}

/// The texts that are not blank, in order.
pub fn retain_non_blank(texts: Vec<String>) -> (r: Vec<String>)
    ensures
        views(r@) == without_blank(views(texts@)),
{
    let ghost tv = views(texts@);
    let mut r: Vec<String> = Vec::new();
    let mut i: usize = 0;
    assert(views(r@) =~= without_blank(tv.take(0)));
    while i < texts.len()
        invariant
            i <= texts.len(),
            tv == views(texts@),
            views(r@) == without_blank(tv.take(i as int)),
        decreases texts.len() - i,
    {
        proof {
            assert(tv.take(i + 1).drop_last() =~= tv.take(i as int));
            assert(tv.take(i + 1).last() == texts@[i as int]@);
        }
        if !is_blank(texts[i].as_str()) {
            let ghost earlier = views(r@);
            r.push(texts[i].clone());
            assert(views(r@) =~= earlier.push(texts@[i as int]@));
        }
        i += 1;
    }
    proof {
        assert(tv.take(texts.len() as int) =~= tv);
    }
    r
}

/// The text without the quotation marks, single or double, at its two ends.
pub fn strip_quotes(v: &Vec<char>) -> (r: Vec<char>)
    ensures
        r@ == unquoted(v@),
{
    let mut start: usize = 0;
    assert(v@.skip(0) =~= v@);
    while start < v.len() && (v[start] == '\'' || v[start] == '"')
        invariant
            start <= v.len(),
            leading_quotes(v@) == start + leading_quotes(v@.skip(start as int)),
        decreases v.len() - start,
    {
        proof {
            assert(v@.skip(start as int).drop_first() =~= v@.skip(start + 1));
        }
        start += 1;
    }
    let ghost rest = v@.skip(start as int);
    let mut end: usize = v.len();
    assert(rest.take(v.len() - start) =~= rest);
    while end > start && (v[end - 1] == '\'' || v[end - 1] == '"')
        invariant
            start <= end <= v.len(),
            rest == v@.skip(start as int),
            trailing_quotes(rest) == (v.len() - end) + trailing_quotes(rest.take(end - start)),
        decreases end,
    {
        proof {
            assert(rest.take(end - start).drop_last() =~= rest.take(end - start - 1));
        }
        end -= 1;
    }
    let r = slice_of(v, start, end);
    proof {
        assert(v@.subrange(start as int, end as int) =~= unquoted(v@));
    }
    r
}

/// Whether the two texts are equal once their ASCII letters are lower-cased.
pub fn eq_ignore_ascii_case(a: &str, b: &str) -> (r: bool)
    ensures
        r == same_ignoring_case(a@, b@),
{
    chars_eq(&to_ascii_lower(&chars_of(a)), &to_ascii_lower(&chars_of(b)))
}

} // verus!
