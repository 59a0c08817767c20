//! Normal form of free text: what is kept of a text, how it is cut into words,
//! and which words are handed on.
//!
//! The policy on punctuation is fixed here once.  Characters outside ASCII
//! are dropped.  The quote, the double quote, the dash, the asterisk and the
//! ampersand are dropped too, so that `don't` and `well-known` stay one word
//! each.  Every other ASCII punctuation character separates words: it is
//! replaced by a space.  Letters are lower-cased; digits and control
//! characters are kept as they are.

use vstd::prelude::*;
use vstd::utf8::is_ascii_chars;
use crate::feature_extraction::should_replace;

verus! {

/// An ASCII punctuation byte.
pub open spec fn is_punctuation(b: u8) -> bool {
    33 <= b <= 47 || 58 <= b <= 64 || 91 <= b <= 96 || 123 <= b <= 126
}

/// A byte that is removed from the text: `"`, `&`, `'`, `*` or `-`.
pub open spec fn is_dropped(b: u8) -> bool {
    b == 34 || b == 38 || b == 39 || b == 42 || b == 45
}

/// A byte that is replaced by a space: punctuation that is not dropped.
pub open spec fn is_replaced(b: u8) -> bool {
    is_punctuation(b) && !is_dropped(b)
}

/// A character that stays in the text, as itself or as its replacement.
pub open spec fn is_kept(c: char) -> bool {
    c <= '\u{7f}' && !is_dropped(c as u8)
}

/// What a kept character becomes: a space for a separator, the lower-case
/// letter for an upper-case one, itself otherwise.
pub open spec fn canonical(c: char) -> char {
    if is_replaced(c as u8) {
        ' '
    } else if 'A' <= c <= 'Z' {
        ((c as u8) + 32) as char
    } else {
        c
    }
}

/// [`is_kept`] as a predicate.
pub open spec fn kept() -> spec_fn(char) -> bool {
    |c: char| is_kept(c)
}

/// [`canonical`] as a function.
pub open spec fn to_canonical() -> spec_fn(char) -> char {
    |c: char| canonical(c)
}

/// The cleaned text: the kept characters in their order, each in canonical form.
pub open spec fn cleaned(text: Seq<char>) -> Seq<char> {
    text.filter(kept()).map_values(to_canonical())
}

/// A character that separates words: a space, a tab, a line feed, a vertical
/// tab, a form feed or a carriage return.
pub open spec fn is_blank(c: char) -> bool {
    c == ' ' || '\t' <= c <= '\r'
}

/// The length of the run of non-blank characters that `s` starts with.
pub open spec fn word_len(s: Seq<char>) -> nat
    decreases s.len(),
{
    if s.len() == 0 || is_blank(s[0]) {
        0
    } else {
        1 + word_len(s.drop_first())
    }
}

/// A run is no longer than the text, and not empty where the text starts
/// with a non-blank character.
pub proof fn lemma_word_len_bounds(s: Seq<char>)
    ensures
        word_len(s) <= s.len(),
        s.len() > 0 && !is_blank(s[0]) ==> word_len(s) >= 1,
    decreases s.len(),
{
    if s.len() > 0 && !is_blank(s[0]) {
        lemma_word_len_bounds(s.drop_first());
    }
}

/// The words of a text: its maximal runs of non-blank characters, in order.
pub open spec fn split_words(s: Seq<char>) -> Seq<Seq<char>>
    decreases s.len(),
    via split_words_decreases
{
    if s.len() == 0 {
        Seq::empty()
    } else if is_blank(s[0]) {
        split_words(s.drop_first())
    } else {
        seq![s.take(word_len(s) as int)] + split_words(s.skip(word_len(s) as int))
    }
}

#[via_fn]
proof fn split_words_decreases(s: Seq<char>) {
    lemma_word_len_bounds(s);
}

/// A word of more than two and fewer than ten characters.
pub open spec fn is_mid_length(w: Seq<char>) -> bool {
    2 < w.len() < 10
}

/// The word without its last character where that is an `s`.
pub open spec fn depluralized(w: Seq<char>) -> Seq<char> {
    if w.len() > 0 && w.last() == 's' {
        w.drop_last()
    } else {
        w
    }
}

/// A word of more than two characters.
pub open spec fn is_long_enough(w: Seq<char>) -> bool {
    w.len() > 2
}

/// [`is_mid_length`] as a predicate.
pub open spec fn mid_length() -> spec_fn(Seq<char>) -> bool {
    |w: Seq<char>| is_mid_length(w)
}

/// [`depluralized`] as a function.
pub open spec fn to_singular() -> spec_fn(Seq<char>) -> Seq<char> {
    |w: Seq<char>| depluralized(w)
}

/// [`is_long_enough`] as a predicate.
pub open spec fn long_enough() -> spec_fn(Seq<char>) -> bool {
    |w: Seq<char>| is_long_enough(w)
}

/// The words that are handed on: those of middle length, each without its
/// plural `s`, and of these the ones that are still long enough.
pub open spec fn select_words(words: Seq<Seq<char>>) -> Seq<Seq<char>> {
    words.filter(mid_length()).map_values(to_singular()).filter(long_enough())
}

/// The normalized words of a text: it is cleaned, cut into words, and the
/// words are selected.
pub open spec fn normalized_words(text: Seq<char>) -> Seq<Seq<char>> {
    select_words(split_words(cleaned(text)))
}

/// Two runs of the normalizer on one text give the same words.
pub proof fn lemma_same_text_same_words(
    text: Seq<char>,
    first: Seq<Seq<char>>,
    second: Seq<Seq<char>>,
)
    requires
        first == normalized_words(text),
        second == normalized_words(text),
    ensures
        first == second,
{
}

/// A cleaned text is clean: cleaning it again changes nothing.
pub proof fn lemma_cleaning_settles(text: Seq<char>)
    ensures
        cleaned(cleaned(text)) == cleaned(text),
{
    let kept_part = text.filter(kept());
    let clean = cleaned(text);
    assert forall|k: int| 0 <= k < clean.len() implies is_kept(#[trigger] clean[k]) && canonical(
        clean[k],
    ) == clean[k] by {
        text.lemma_filter_pred(kept(), k);
        lemma_canonical_settles(kept_part[k]);
    }
    lemma_filter_keeps_all(clean);
    assert(clean.filter(kept()).map_values(to_canonical()) =~= clean);
}

/// The canonical form of a kept character is kept, and is its own canonical form.
proof fn lemma_canonical_settles(c: char)
    requires
        is_kept(c),
    ensures
        is_kept(canonical(c)),
        canonical(canonical(c)) == canonical(c),
{
    let b = c as u8;
    if !is_replaced(b) && 'A' <= c <= 'Z' {
        assert(((b + 32) as char) as u8 == b + 32);
    }
}

/// Filtering a text of kept characters keeps all of it.
proof fn lemma_filter_keeps_all(text: Seq<char>)
    requires
        forall|k: int| 0 <= k < text.len() ==> is_kept(#[trigger] text[k]),
    ensures
        text.filter(kept()) == text,
    decreases text.len(),
{
    reveal_with_fuel(Seq::filter, 1);
    if text.len() > 0 {
        lemma_filter_keeps_all(text.drop_last());
        assert(text.drop_last().push(text.last()) =~= text);
    }
}

/// What one word contributes to the selection.
pub open spec fn selected(w: Seq<char>) -> Seq<Seq<char>> {
    if is_mid_length(w) && is_long_enough(depluralized(w)) {
        seq![depluralized(w)]
    } else {
        Seq::empty()
    }
}

/// The selection of a list is the selection of its first word followed by the
/// selection of the others.
pub proof fn lemma_select_first(w: Seq<char>, rest: Seq<Seq<char>>)
    ensures
        select_words(seq![w] + rest) == selected(w) + select_words(rest),
{
    let one = seq![w];
    Seq::filter_distributes_over_add(one, rest, mid_length());
    reveal_with_fuel(Seq::filter, 2);
    let a = one.filter(mid_length());
    let b = rest.filter(mid_length());
    assert(one.drop_last() =~= Seq::<Seq<char>>::empty());
    assert(a =~= if is_mid_length(w) {
        seq![w]
    } else {
        Seq::empty()
    });
    let am = a.map_values(to_singular());
    let bm = b.map_values(to_singular());
    assert((a + b).map_values(to_singular()) =~= am + bm);
    Seq::filter_distributes_over_add(am, bm, long_enough());
    if is_mid_length(w) {
        assert(am =~= seq![depluralized(w)]);
        assert(am.drop_last() =~= Seq::<Seq<char>>::empty());
        assert(am.filter(long_enough()) =~= selected(w));
    } else {
        assert(am =~= Seq::<Seq<char>>::empty());
        assert(am.filter(long_enough()) =~= selected(w));
    }
}

/// A text that starts with a blank has the words of the rest.
pub proof fn lemma_split_skips_blank(s: Seq<char>, i: int)
    requires
        0 <= i < s.len(),
        is_blank(s[i]),
    ensures
        split_words(s.skip(i)) == split_words(s.skip(i + 1)),
{
    assert(s.skip(i).drop_first() =~= s.skip(i + 1));
}

/// A run that starts at `i` and ends at `j` is the first word from `i` on,
/// and the words after it are those from `j` on.
pub proof fn lemma_split_takes_word(s: Seq<char>, i: int, j: int)
    requires
        0 <= i < j <= s.len(),
        !is_blank(s[i]),
        word_len(s.skip(i)) == j - i,
    ensures
        split_words(s.skip(i)) == seq![s.subrange(i, j)] + split_words(s.skip(j)),
{
    assert(s.skip(i).take(j - i) =~= s.subrange(i, j));
    assert(s.skip(i).skip(j - i) =~= s.skip(j));
}

/// A run goes on over a non-blank character.
pub proof fn lemma_word_len_step(s: Seq<char>, j: int)
    requires
        0 <= j < s.len(),
        !is_blank(s[j]),
    ensures
        word_len(s.skip(j)) == 1 + word_len(s.skip(j + 1)),
{
    assert(s.skip(j).drop_first() =~= s.skip(j + 1));
}

/// A run ends at the end of the text and before a blank.
pub proof fn lemma_word_len_end(s: Seq<char>, j: int)
    requires
        0 <= j <= s.len(),
        j < s.len() ==> is_blank(s[j]),
    ensures
        word_len(s.skip(j)) == 0,
{
}

/// Whether `b` is dropped from a text.
pub fn should_drop(b: u8) -> (drop: bool)
    ensures
        drop == is_dropped(b),
{
    b == 34 || b == 38 || b == 39 || b == 42 || b == 45
}

/// The cleaned form of `sentence`.
pub fn clean_text(sentence: &str) -> (clean: String)
    ensures
        clean@ == cleaned(sentence@),
        is_ascii_chars(clean@),
{
    let mut clean = String::new();
    for c in it: sentence.chars()
        invariant
            it.seq() == sentence@,
            clean@ == cleaned(sentence@.take(it.index())),
            is_ascii_chars(clean@),
    {
        proof {
            let k = it.index();
            let before = sentence@.take(k);
            assert(sentence@.take(k + 1) =~= before.push(c));
            before.lemma_filter_push(c, kept());
            if is_kept(c) {
                assert(before.filter(kept()).push(c).map_values(to_canonical())
                    =~= before.filter(kept()).map_values(to_canonical()).push(canonical(c)));
            }
        }
        if c <= '\x7f' {
            let b = c as u8;
            if !should_drop(b) {
                let shown = if should_replace(b) {
                    ' '
                } else if 65 <= b && b <= 90 {
                    (b + 32) as char
                } else {
                    c
                };
                clean.push(shown);
            }
        }
    }
    proof {
        assert(sentence@.take(sentence@.len() as int) =~= sentence@);
    }
    clean
}

} // verus!
