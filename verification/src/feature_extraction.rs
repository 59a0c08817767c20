//! The features of a batch of posts, one function per feature.

use vstd::prelude::*;
use vstd::utf8::is_ascii_chars;
use crate::strings::{
    borrow_all, char_count, lemma_chars_at_most_bytes, lemma_occurrences_bounded,
    lemma_occurrences_push, occurrences, str_views, string_views,
};
use crate::freqs::first_seen_places;
use crate::labels::first_seen;
use crate::patterns::{pattern_flags, CodePatterns};
use crate::tally::{listed, WordTally};
use crate::symbols::{
    as_counts, lemma_alphabet_distinct, lemma_symbol_total, symbol_alphabet, symbol_tally,
    symbols, total,
};
use crate::text::{
    clean_text, cleaned, depluralized, is_blank, is_replaced, lemma_select_first,
    lemma_split_skips_blank, lemma_split_takes_word, lemma_word_len_end, lemma_word_len_step,
    normalized_words, select_words, selected, split_words, word_len,
};

verus! {

/// The flag of a post's kind: 0 for a self post, 1 for a link post.
pub fn convert_is_self(b: bool) -> (flag: u64)
    ensures
        flag == if b {
            0u64
        } else {
            1u64
        },
{
    if b {
        0
    } else {
        1
    }
}

/// The popularity of each author of a batch: how often the author occurs in
/// the batch, for an author of the reference list, and 0 for any other.
pub open spec fn popularity(authors: Seq<Seq<char>>, reference: Seq<Seq<char>>) -> Seq<nat> {
    Seq::new(
        authors.len(),
        |i: int|
            if reference.contains(authors[i]) {
                occurrences(authors, authors[i])
            } else {
                0
            },
    )
}

/// The popularity of the author of each post.
///
/// `authors` holds the author of each post of the batch, `rust_authors` the
/// authors known to post in the target community.  A known author scores the
/// number of posts of the batch that are theirs; any other author scores 0.
pub fn convert_author_to_popularity(authors: &[&str], rust_authors: &[&str]) -> (scores: Vec<u64>)
    ensures
        as_counts(scores@) == popularity(str_views(authors@), str_views(rust_authors@)),
{
    let mut table = WordTally::zeroed(rust_authors);
    assert(authors@.len() == authors.len());
    table.count_all(authors);
    let scores = table.counts_of(authors);
    proof {
        let all = str_views(authors@);
        let reference = str_views(rust_authors@);
        assert forall|i: int| 0 <= i < all.len() implies as_counts(scores@)[i] == popularity(
            all,
            reference,
        )[i] by {
            assert(listed(reference).contains(all[i]) <==> reference.contains(all[i]));
            assert(table@.contains_key(all[i]) <==> table@.dom().contains(all[i]));
        }
        assert(as_counts(scores@) =~= popularity(all, reference));
    }
    scores
}

/// The counts of a vocabulary over a list of words: how often each
/// vocabulary word occurs in the list, in vocabulary order.
pub open spec fn word_counts(words: Seq<Seq<char>>, vocabulary: Seq<Seq<char>>) -> Seq<nat> {
    Seq::new(vocabulary.len(), |j: int| occurrences(words, vocabulary[j]))
}

/// The vocabulary counts of each text.
///
/// Row `i` has one count per word of `vocabulary`, in their order: how often
/// that word occurs among the normalized words of text `i`.  A word that does
/// not occur counts 0, so all rows are as long as the vocabulary.
pub fn interesting_word_freq(self_texts: &[&str], vocabulary: &[String]) -> (rows: Vec<Vec<u64>>)
    ensures
        rows@.len() == self_texts@.len(),
        forall|i: int|
            0 <= i < rows@.len() ==> as_counts(#[trigger] rows@[i]@) == word_counts(
                normalized_words(self_texts@[i]@),
                string_views(vocabulary@),
            ),
{
    let listing = borrow_all(vocabulary);
    let blank = WordTally::zeroed(listing.as_slice());
    let mut rows: Vec<Vec<u64>> = Vec::new();
    let mut i: usize = 0;
    while i < self_texts.len()
        invariant
            i <= self_texts@.len(),
            rows@.len() == i,
            str_views(listing@) == string_views(vocabulary@),
            blank@.dom() == listed(str_views(listing@)),
            forall|k: Seq<char>| #[trigger] blank@.contains_key(k) ==> blank@[k] == 0,
            forall|r: int|
                0 <= r < i ==> as_counts(#[trigger] rows@[r]@) == word_counts(
                    normalized_words(self_texts@[r]@),
                    string_views(vocabulary@),
                ),
        decreases self_texts@.len() - i,
    {
        let words = get_words(self_texts[i]);
        let word_refs = borrow_all(words.as_slice());
        let mut table = blank.duplicate();
        assert(word_refs@.len() == word_refs.len());
        table.count_all(word_refs.as_slice());
        let row = table.counts_of(listing.as_slice());
        proof {
            let columns = str_views(listing@);
            let found = normalized_words(self_texts@[i as int]@);
            assert(str_views(word_refs@) == found);
            assert forall|j: int| 0 <= j < columns.len() implies as_counts(row@)[j] == word_counts(
                found,
                columns,
            )[j] by {
                assert(columns.contains(columns[j]));
                assert(listed(columns).contains(columns[j]));
                assert(table@.dom().contains(columns[j]));
                assert(blank@.dom().contains(columns[j]));
            }
            assert(as_counts(row@) =~= word_counts(found, columns));
        }
        rows.push(row);
        i = i + 1;
    }
    rows
}

/// The code flags of each text.
///
/// Row `i` has one flag per pattern of `patterns`, in their order: 1 if the
/// pattern occurs somewhere in text `i`, 0 if not.
pub fn check_for_code(patterns: &CodePatterns, self_texts: &[&str]) -> (rows: Vec<Vec<u64>>)
    ensures
        rows@.len() == self_texts@.len(),
        forall|i: int|
            0 <= i < rows@.len() ==> (#[trigger] rows@[i])@ == pattern_flags(
                patterns.sources(),
                self_texts@[i]@,
            ),
{
    let mut rows: Vec<Vec<u64>> = Vec::new();
    let mut i: usize = 0;
    while i < self_texts.len()
        invariant
            i <= self_texts@.len(),
            rows@.len() == i,
            forall|k: int|
                0 <= k < i ==> (#[trigger] rows@[k])@ == pattern_flags(
                    patterns.sources(),
                    self_texts@[k]@,
                ),
        decreases self_texts@.len() - i,
    {
        rows.push(patterns.flags(self_texts[i]));
        i = i + 1;
    }
    rows
}

/// The word without its last character where that is an `s`.
pub fn depluralize(s: &str) -> (singular: &str)
    ensures
        singular@ == depluralized(s@),
{
    let n = s.unicode_len();
    if n > 0 && s.get_char(n - 1) == 's' {
        let cut = s.substring_char(0, n - 1);
        assert(s@.subrange(0, n - 1) =~= s@.drop_last());
        cut
    } else {
        s
    }
}

/// Whether `c` separates words and is therefore replaced by a space.
pub fn should_replace(c: u8) -> (replace: bool)
    ensures
        replace == is_replaced(c),
{
    match c {
        33 | 35..=37 | 40 | 41 | 43 | 44 | 46 | 47 => true,
        58..=64 => true,
        91..=96 => true,
        123..=126 => true,
        _ => false,
    }
}

/// The normalized words of `sentence`, in the order of the text and with
/// repetitions.
///
/// The same text always gives the same words: they are a function of its
/// characters.
pub fn get_words(sentence: &str) -> (words: Vec<String>)
    ensures
        string_views(words@) == normalized_words(sentence@),
{
    let clean = clean_text(sentence);
    let text = clean.as_str();
    let n = text.as_bytes().len();
    let ghost s = text@;
    let mut words: Vec<String> = Vec::new();
    let mut i: usize = 0;
    proof {
        vstd::utf8::is_ascii_chars_encode_utf8(s);
        assert(s.skip(0) =~= s);
        assert(string_views(words@) + select_words(split_words(s)) =~= select_words(
            split_words(s),
        ));
    }
    while i < n
        invariant
            s == text@,
            s == cleaned(sentence@),
            is_ascii_chars(s),
            n == s.len(),
            i <= n,
            string_views(words@) + select_words(split_words(s.skip(i as int))) == select_words(
                split_words(s),
            ),
        decreases n - i,
    {
        if blank_byte(text.get_ascii(i)) {
            proof {
                lemma_split_skips_blank(s, i as int);
            }
            i = i + 1;
        } else {
            let mut j: usize = i + 1;
            proof {
                lemma_word_len_step(s, i as int);
            }
            while j < n && !blank_byte(text.get_ascii(j))
                invariant
                    s == text@,
                    is_ascii_chars(s),
                    n == s.len(),
                    i < j <= n,
                    word_len(s.skip(i as int)) == (j - i) + word_len(s.skip(j as int)),
                decreases n - j,
            {
                proof {
                    lemma_word_len_step(s, j as int);
                }
                j = j + 1;
            }
            let word = text.substring_ascii(i, j);
            proof {
                lemma_word_len_end(s, j as int);
                lemma_split_takes_word(s, i as int, j as int);
                lemma_select_first(word@, split_words(s.skip(j as int)));
            }
            let ghost before = string_views(words@);
            let len = j - i;
            if 2 < len && len < 10 {
                let singular = depluralize(word);
                if 2 < char_count(singular) {
                    words.push(singular.to_owned());
                    assert(string_views(words@) =~= before + selected(word@));
                }
            }
            assert(string_views(words@) =~= before + selected(word@));
            assert((before + selected(word@)) + select_words(split_words(s.skip(j as int)))
                =~= before + (selected(word@) + select_words(split_words(s.skip(j as int)))));
            i = j;
        }
    }
    proof {
        assert(s.skip(n as int) =~= Seq::<char>::empty());
        reveal_with_fuel(Seq::filter, 1);
        assert(select_words(Seq::<Seq<char>>::empty()) =~= Seq::<Seq<char>>::empty());
        assert(string_views(words@) + Seq::<Seq<char>>::empty() =~= string_views(words@));
    }
    words
}

/// Where `c` stands in the symbol alphabet, if it does.
fn symbol_index(alphabet: &[char; 26], c: char) -> (found: Option<usize>)
    requires
        alphabet@ == symbol_alphabet(),
    ensures
        match found {
            Some(j) => j < 26 && symbol_alphabet()[j as int] == c,
            None => !symbol_alphabet().contains(c),
        },
{
    let mut j: usize = 0;
    while j < 26
        invariant
            j <= 26,
            alphabet@ == symbol_alphabet(),
            forall|k: int| 0 <= k < j ==> symbol_alphabet()[k] != c,
        decreases 26 - j,
    {
        if alphabet[j] == c {
            return Some(j);
        }
        j = j + 1;
    }
    None
}

/// The symbol counts of one text.
fn count_symbols(text: &str) -> (counts: Vec<u64>)
    ensures
        as_counts(counts@) == symbol_tally(text@),
        total(as_counts(counts@)) <= text@.len(),
{
    let alphabet = symbols();
    let limit = text.as_bytes().len();
    let mut counts: Vec<u64> = vec![0u64; 26];
    proof {
        lemma_chars_at_most_bytes(text@);
        lemma_alphabet_distinct();
        assert(as_counts(counts@) =~= symbol_tally(text@.take(0)));
    }
    for c in it: text.chars()
        invariant
            it.seq() == text@,
            alphabet@ == symbol_alphabet(),
            text@.len() <= limit,
            counts@.len() == 26,
            as_counts(counts@) == symbol_tally(text@.take(it.index())),
    {
        let ghost k = it.index();
        let ghost before = counts@;
        proof {
            assert(text@.take(k + 1) =~= text@.take(k).push(c));
            assert forall|j: int| 0 <= j < 26 implies #[trigger] symbol_tally(text@.take(k + 1))[j]
                == symbol_tally(text@.take(k))[j] + if symbol_alphabet()[j] == c {
                1nat
            } else {
                0nat
            } by {
                lemma_occurrences_push(text@.take(k), c, symbol_alphabet()[j]);
            }
        }
        match symbol_index(&alphabet, c) {
            Some(j) => {
                proof {
                    lemma_occurrences_bounded(text@.take(k), c);
                    assert(as_counts(before)[j as int] == symbol_tally(text@.take(k))[j as int]);
                    assert(k < text@.len());
                }
                let seen = counts[j];
                counts.set(j, seen + 1);
                assert(as_counts(counts@) =~= symbol_tally(text@.take(k + 1)));
            },
            None => {
                assert(as_counts(counts@) =~= symbol_tally(text@.take(k + 1)));
            },
        }
    }
    proof {
        assert(text@.take(text@.len() as int) =~= text@);
        lemma_symbol_total(text@);
    }
    counts
}

/// The symbol counts of each text: how often each symbol of the alphabet
/// occurs in it, in alphabet order.  Other characters are not counted.
///
/// The counts of a text never sum to more than it has characters.
pub fn symbol_counts(self_texts: &[&str]) -> (counts: Vec<Vec<u64>>)
    ensures
        counts@.len() == self_texts@.len(),
        forall|i: int|
            0 <= i < counts@.len() ==> as_counts(#[trigger] counts@[i]@) == symbol_tally(
                self_texts@[i]@,
            ),
        forall|i: int|
            0 <= i < counts@.len() ==> total(as_counts(#[trigger] counts@[i]@))
                <= self_texts@[i]@.len(),
{
    let mut counts: Vec<Vec<u64>> = Vec::new();
    let mut i: usize = 0;
    while i < self_texts.len()
        invariant
            i <= self_texts@.len(),
            counts@.len() == i,
            forall|k: int|
                0 <= k < i ==> as_counts(#[trigger] counts@[k]@) == symbol_tally(self_texts@[k]@),
            forall|k: int|
                0 <= k < i ==> total(as_counts(#[trigger] counts@[k]@)) <= self_texts@[k]@.len(),
        decreases self_texts@.len() - i,
    {
        counts.push(count_symbols(self_texts[i]));
        i = i + 1;
    }
    counts
}

/// A label for each community name, handed out in the order in which the
/// names are first seen: the first name of the batch gets 0, the next new
/// name 1, and so on, and a name that comes again gets the label it has.
///
/// The labels depend on the order of the batch.  Where they must mean the
/// same in every batch, use [`crate::labels::encode_subreddits`].
pub fn subs_to_float(subs: &[&str]) -> (labels: Vec<u64>)
    ensures
        labels@.len() == subs@.len(),
        forall|i: int|
            0 <= i < subs@.len() ==> 0 <= #[trigger] labels@[i] < first_seen(str_views(subs@)).len()
                && first_seen(str_views(subs@))[labels@[i] as int] == subs@[i]@,
{
    let found = first_seen_places(subs);
    proof {
        assert forall|i: int| 0 <= i < subs@.len() implies 0 <= #[trigger] found.1@[i]
            < first_seen(str_views(subs@)).len() && first_seen(str_views(subs@))[found.1@[i] as int]
            == subs@[i]@ by {
            assert(str_views(found.0@)[found.1@[i] as int] == found.0@[found.1@[i] as int]@);
        }
    }
    found.1
}

/// Whether the byte of an ASCII character is a blank.
fn blank_byte(b: u8) -> (blank: bool)
    requires
        b < 128,
    ensures
        blank == is_blank(b as char),
{
    b == 32 || (9 <= b && b <= 13)
}

} // verus!
