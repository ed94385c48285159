//! The phonetic normaliser: makes Chinese text searchable by the Latin
//! spelling of its syllables and by their initials.

use crate::text::{
    ascii_lower, chars_eq, chars_of, opt_view, string_of, to_ascii_lower, views,
};
use pinyin::ToPinyin;
use vstd::prelude::*;

verus! {

/// What the `pinyin` crate gives for the character `c`: the toneless spelling
/// (`Pinyin::plain`) of its reading, or nothing where `c` has no reading.
pub uninterp spec fn pinyin_plain(c: char) -> Option<Seq<char>>;

/// First code point for which the `pinyin` crate's table holds a reading.
pub const FIRST_PHONETIC_CODE: u32 = 0x3007;

/// Calls `char::to_pinyin` of the `pinyin` crate and takes the reading's
/// `plain` spelling. The result depends on the character alone and is named
/// `pinyin_plain`. The crate's table starts at U+3007: no character below it
/// has a reading.
#[verifier::external_body]
fn plain_reading(c: char) -> (r: Option<&'static str>)
    ensures
        match r {
            Some(plain) => pinyin_plain(c) == Some(plain@),
            None => pinyin_plain(c) is None,
        },
        (c as u32) < FIRST_PHONETIC_CODE ==> r is None,
{
    match c.to_pinyin() {
        Some(reading) => Some(reading.plain()),
        None => None,
    }
}

/// The syllable that `c` is searched by: its toneless reading in lower case,
/// where it has a reading that is not empty.
pub open spec fn syllable(c: char) -> Option<Seq<char>> {
    match pinyin_plain(c) {
        Some(plain) => if plain.len() > 0 {
            Some(ascii_lower(plain))
        } else {
            None
        },
        None => None,
    }
}

/// The syllables of the characters of `s` that have one, in order.
pub open spec fn syllables(s: Seq<char>) -> Seq<Seq<char>>
    decreases s.len(),
{
    if s.len() == 0 {
        Seq::empty()
    } else {
        match syllable(s.last()) {
            Some(reading) => syllables(s.drop_last()).push(reading),
            None => syllables(s.drop_last()),
        }
    }
}

/// The syllables written one after the other.
pub open spec fn joined(readings: Seq<Seq<char>>) -> Seq<char>
    decreases readings.len(),
{
    if readings.len() == 0 {
        Seq::empty()
    } else {
        joined(readings.drop_last()) + readings.last()
    }
}

/// The syllables with one space between each two.
pub open spec fn spaced(readings: Seq<Seq<char>>) -> Seq<char>
    decreases readings.len(),
{
    if readings.len() == 0 {
        Seq::empty()
    } else if readings.len() == 1 {
        readings[0]
    } else {
        spaced(readings.drop_last()) + seq![' '] + readings.last()
    }
}

/// The first letters of the syllables.
pub open spec fn initials(readings: Seq<Seq<char>>) -> Seq<char>
    decreases readings.len(),
{
    if readings.len() == 0 {
        Seq::empty()
    } else {
        initials(readings.drop_last()).push(readings.last().first())
    }
}

/// The packed phonetic entry of one text: nothing where no character has a
/// syllable; else the joined syllables, followed by a bar and the initials
/// where these differ from the joined syllables.
pub open spec fn single_index(source: Seq<char>) -> Option<Seq<char>> {
    let readings = syllables(source);
    if readings.len() == 0 {
        None
    } else if initials(readings) != joined(readings) {
        Some(joined(readings) + seq!['|'] + initials(readings))
    } else {
        Some(joined(readings))
    }
}

/// The packed phonetic index of several texts: the entries of those that have
/// one, in order, with one space between each two; nothing where none has.
pub open spec fn packed_index(texts: Seq<Seq<char>>) -> Option<Seq<char>>
    decreases texts.len(),
{
    if texts.len() == 0 {
        None
    } else {
        match (packed_index(texts.drop_last()), single_index(texts.last())) {
            (Some(before), Some(entry)) => Some(before + seq![' '] + entry),
            (Some(before), None) => Some(before),
            (None, entry) => entry,
        }
    }
}

/// The search variants that one keyword adds: nothing where it has no
/// syllable; else its joined syllables, its spaced syllables where there are
/// several, and its initials.
pub open spec fn keyword_variants(keyword: Seq<char>) -> Seq<Seq<char>> {
    let readings = syllables(keyword);
    if readings.len() == 0 {
        Seq::empty()
    } else if readings.len() > 1 {
        seq![joined(readings), spaced(readings), initials(readings)]
    } else {
        seq![joined(readings), initials(readings)]
    }
}

/// The variants of all the keywords, in order.
pub open spec fn all_variants(keywords: Seq<Seq<char>>) -> Seq<Seq<char>>
    decreases keywords.len(),
{
    if keywords.len() == 0 {
        Seq::empty()
    } else {
        all_variants(keywords.drop_last()) + keyword_variants(keywords.last())
    }
}

/// Whether no character of `s` lies in the range of the phonetic table.
pub open spec fn below_phonetic_range(s: Seq<char>) -> bool {
    forall|i: int| 0 <= i < s.len() ==> (#[trigger] s[i] as u32) < FIRST_PHONETIC_CODE
}

/// The joined syllables, the spaced syllables and the initials of a text,
/// with the number of its syllables.
struct Phonetics {
    joined: Vec<char>,
    spaced: Vec<char>,
    initials: Vec<char>,
    count: usize,
}

/// Reads the syllables of `source`.
fn phonetics_of(source: &str) -> (r: Phonetics)
    ensures
        r.count == syllables(source@).len(),
        r.joined@ == joined(syllables(source@)),
        r.spaced@ == spaced(syllables(source@)),
        r.initials@ == initials(syllables(source@)),
        r.count > 0 ==> r.joined@.len() > 0 && r.spaced@.len() > 0 && r.initials@.len() > 0,
        below_phonetic_range(source@) ==> r.count == 0,
{
    let chars = chars_of(source);
    let mut joined_text: Vec<char> = Vec::new();
    let mut spaced_text: Vec<char> = Vec::new();
    let mut initial_text: Vec<char> = Vec::new();
    let mut count: usize = 0;
    let mut i: usize = 0;
    while i < chars.len()
        invariant
            i <= chars.len(),
            chars@ == source@,
            count <= i,
            count == syllables(source@.take(i as int)).len(),
            joined_text@ == joined(syllables(source@.take(i as int))),
            spaced_text@ == spaced(syllables(source@.take(i as int))),
            initial_text@ == initials(syllables(source@.take(i as int))),
            count > 0 ==> joined_text@.len() > 0 && spaced_text@.len() > 0 && initial_text@.len()
                > 0,
            below_phonetic_range(source@) ==> count == 0,
        decreases chars.len() - i,
    {
        let c = chars[i];
        let ghost before = syllables(source@.take(i as int));
        proof {
            assert(source@.take(i + 1).drop_last() =~= source@.take(i as int));
            assert(source@.take(i + 1).last() == c);
        }
        match plain_reading(c) {
            Some(plain) => {
                let lower = to_ascii_lower(&chars_of(plain));
                if lower.len() > 0 {
                    proof {
                        assert(syllable(c) == Some(lower@));
                        assert(syllables(source@.take(i + 1)) == before.push(lower@));
                        assert(before.push(lower@).drop_last() =~= before);
                        if below_phonetic_range(source@) {
                            assert((source@[i as int] as u32) < FIRST_PHONETIC_CODE);
                        }
                    }
                    initial_text.push(lower[0]);
                    if count > 0 {
                        spaced_text.push(' ');
                    }
                    let mut k: usize = 0;
                    let ghost joined_before = joined_text@;
                    let ghost spaced_before = spaced_text@;
                    while k < lower.len()
                        invariant
                            k <= lower.len(),
                            joined_text@ == joined_before + lower@.take(k as int),
                            spaced_text@ == spaced_before + lower@.take(k as int),
                        decreases lower.len() - k,
                    {
                        joined_text.push(lower[k]);
                        spaced_text.push(lower[k]);
                        proof {
                            assert(lower@.take(k + 1) =~= lower@.take(k as int).push(lower@[k as int]));
                            assert(joined_text@ =~= joined_before + lower@.take(k + 1));
                            assert(spaced_text@ =~= spaced_before + lower@.take(k + 1));
                        }
                        k += 1;
                    }
                    proof {
                        assert(lower@.take(lower.len() as int) =~= lower@);
                        if count > 0 {
                            assert(spaced_before =~= spaced(before) + seq![' ']);
                            assert(before.push(lower@).len() > 1);
                        } else {
                            assert(spaced_before =~= Seq::<char>::empty());
                            assert(spaced_text@ =~= lower@);
                        }
                    }
                    count += 1;
                } else {
                    assert(syllable(c) is None);
                }
            },
            None => {},
        }
        i += 1;
    }
    proof {
        assert(source@.take(chars.len() as int) =~= source@);
    }
    Phonetics { joined: joined_text, spaced: spaced_text, initials: initial_text, count }
}

/// The packed phonetic entry of one text.
pub fn build_single_index(source: &str) -> (r: Option<String>)
    ensures
        opt_view(r) == single_index(source@),
        below_phonetic_range(source@) ==> r is None,
{
    let parts = phonetics_of(source);
    if parts.count == 0 {
        return None;
    }
    if !chars_eq(&parts.initials, &parts.joined) {
        let mut packed = parts.joined;
        packed.push('|');
        let mut tail = parts.initials;
        packed.append(&mut tail);
        Some(string_of(&packed))
    } else {
        Some(string_of(&parts.joined))
    }
}

/// The packed phonetic index of several texts.
pub fn build_pinyin_index(texts: &[&str]) -> (r: Option<String>)
    ensures
        opt_view(r) == packed_index(text_views(texts@)),
        (forall|i: int| 0 <= i < texts.len() ==> below_phonetic_range((#[trigger] texts@[i])@))
            ==> r is None,
{
    let ghost tv = text_views(texts@);
    let mut packed: Vec<char> = Vec::new();
    let mut any: bool = false;
    let mut i: usize = 0;
    while i < texts.len()
        invariant
            i <= texts.len(),
            tv == text_views(texts@),
            !any ==> packed@.len() == 0,
            packed_index(tv.take(i as int)) == if any {
                Some(packed@)
            } else {
                None
            },
            (forall|j: int| 0 <= j < texts.len() ==> below_phonetic_range((#[trigger] texts@[j])@))
                ==> !any,
        decreases texts.len() - i,
    {
        proof {
            assert(tv.take(i + 1).drop_last() =~= tv.take(i as int));
            assert(tv.take(i + 1).last() == texts@[i as int]@);
        }
        match build_single_index(texts[i]) {
            Some(entry) => {
                let ghost before = packed@;
                if any {
                    packed.push(' ');
                }
                let mut tail = chars_of(entry.as_str());
                packed.append(&mut tail);
                proof {
                    if any {
                        assert(packed@ =~= before + seq![' '] + entry@);
                    } else {
                        assert(packed_index(tv.take(i as int)) is None);
                        assert(packed@ =~= before + entry@);
                    }
                }
                any = true;
            },
            None => {},
        }
        i += 1;
    }
    proof {
        assert(tv.take(texts.len() as int) =~= tv);
    }
    if any {
        Some(string_of(&packed))
    } else {
        None
    }
}

/// The character sequences of a sequence of string slices.
pub open spec fn text_views(texts: Seq<&str>) -> Seq<Seq<char>> {
    Seq::new(texts.len(), |i: int| texts[i]@)
}

/// Appends the phonetic variants of one keyword to `target`.
pub fn extend_single_keyword(source: &str, target: &mut Vec<String>)
    ensures
        views(final(target)@) == views(old(target)@) + keyword_variants(source@),
{
    let ghost start = views(target@);
    let parts = phonetics_of(source);
    if parts.count == 0 {
        assert(views(target@) =~= start + keyword_variants(source@));
        return ;
    }
    target.push(string_of(&parts.joined));
    if parts.count > 1 {
        target.push(string_of(&parts.spaced));
    }
    target.push(string_of(&parts.initials));
    assert(views(target@) =~= start + keyword_variants(source@));
}

/// Extends the keywords with the phonetic variants of each of them, so that
/// they can be found by syllables and by initials.
pub fn extend_keywords_with_pinyin(keywords: &mut Vec<String>)
    ensures
        views(final(keywords)@) == views(old(keywords)@) + all_variants(views(old(keywords)@)),
{
    let ghost kv = views(keywords@);
    let mut additions: Vec<String> = Vec::new();
    let mut i: usize = 0;
    assert(views(additions@) =~= all_variants(kv.take(0)));
    while i < keywords.len()
        invariant
            i <= keywords.len(),
            kv == views(keywords@),
            keywords@ == old(keywords)@,
            views(additions@) == all_variants(kv.take(i as int)),
        decreases keywords.len() - i,
    {
        proof {
            assert(kv.take(i + 1).drop_last() =~= kv.take(i as int));
            assert(kv.take(i + 1).last() == keywords@[i as int]@);
        }
        extend_single_keyword(keywords[i].as_str(), &mut additions);
        i += 1;
    }
    proof {
        assert(kv.take(keywords.len() as int) =~= kv);
    }
    if additions.len() == 0 {
        assert(views(keywords@) =~= kv + all_variants(kv));
        return ;
    }
    let ghost added = views(additions@);
    keywords.append(&mut additions);
    assert(views(keywords@) =~= kv + added);
}

/// A text in which no character has a syllable has no phonetic entry.
pub proof fn theorem_no_syllables_no_index(source: Seq<char>)
    requires
        forall|i: int| 0 <= i < source.len() ==> syllable(#[trigger] source[i]) is None,
    ensures
        syllables(source).len() == 0,
        single_index(source) is None,
        keyword_variants(source).len() == 0,
    decreases source.len(),
{
    if source.len() > 0 {
        let before = source.drop_last();
        assert forall|i: int| 0 <= i < before.len() implies syllable(#[trigger] before[i]) is None by {
            assert(before[i] == source[i]);
        }
        theorem_no_syllables_no_index(before);
        assert(syllable(source[source.len() - 1]) is None);
    }
}

/// Texts of which none has a phonetic entry have no phonetic index.
pub proof fn theorem_no_entries_no_index(texts: Seq<Seq<char>>)
    requires
        forall|i: int| 0 <= i < texts.len() ==> single_index(#[trigger] texts[i]) is None,
    ensures
        packed_index(texts) is None,
    decreases texts.len(),
{
    if texts.len() > 0 {
        let before = texts.drop_last();
        assert forall|i: int| 0 <= i < before.len() implies single_index(#[trigger] before[i]) is None by {
            assert(before[i] == texts[i]);
        }
        theorem_no_entries_no_index(before);
        assert(single_index(texts[texts.len() - 1]) is None);
    }
}

} // verus!
