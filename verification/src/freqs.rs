//! Distinct words and how many posts hold each.

use vstd::prelude::*;
use crate::labels::{first_seen, lemma_first_seen};
use crate::pipeline::texts_of;
use crate::reddit::RawPostFeatures;
use crate::strings::{
    lemma_lex_irreflexive, lemma_lex_total, lemma_lex_transitive, lemma_occurrences_bounded,
    lemma_occurrences_positive, lemma_occurrences_push, lex_less, occurrences, str_less,
    str_views, strictly_ascending,
};
use crate::tally::{listed, WordTally};

verus! {

/// Reads a list once and says, for each item, at which place it stands
/// among the distinct items in the order in which they are first seen.
pub fn first_seen_places<'a>(items: &[&'a str]) -> (found: (Vec<&'a str>, Vec<u64>))
    ensures
        str_views(found.0@) == first_seen(str_views(items@)),
        found.1@.len() == items@.len(),
        forall|i: int|
            0 <= i < items@.len() ==> 0 <= #[trigger] found.1@[i] < found.0@.len()
                && found.0@[found.1@[i] as int]@ == items@[i]@,
{
    let mut distinct: Vec<&'a str> = Vec::new();
    let mut places: Vec<u64> = Vec::new();
    let mut index = WordTally::new();
    let mut i: usize = 0;
    assert(str_views(distinct@) =~= first_seen(str_views(items@).take(0)));
    assert(index@.dom() =~= listed(str_views(distinct@)));
    while i < items.len()
        invariant
            i <= items@.len(),
            str_views(distinct@) == first_seen(str_views(items@).take(i as int)),
            distinct@.len() <= i,
            index@.dom() == listed(str_views(distinct@)),
            forall|k: int|
                0 <= k < distinct@.len() ==> index@[#[trigger] distinct@[k]@] == k,
            places@.len() == i,
            forall|k: int|
                0 <= k < i ==> 0 <= #[trigger] places@[k] < distinct@.len()
                    && distinct@[places@[k] as int]@ == items@[k]@,
        decreases items@.len() - i,
    {
        let item = items[i];
        let ghost seen = str_views(distinct@);
        let ghost old_distinct = distinct@;
        let ghost old_index = index@;
        proof {
            assert(str_views(items@).take(i + 1).drop_last() =~= str_views(items@).take(i as int));
            assert(str_views(items@).take(i + 1).last() == item@);
            assert(listed(seen).contains(item@) <==> seen.contains(item@));
            lemma_first_seen(str_views(items@).take(i as int));
        }
        match index.lookup(item) {
            Some(place) => {
                proof {
                    let k = choose|k: int| 0 <= k < seen.len() && seen[k] == item@;
                    assert(distinct@[k]@ == item@);
                    assert(place == k);
                }
                places.push(place);
            },
            None => {
                let place = distinct.len() as u64;
                index.set(item, place);
                distinct.push(item);
                places.push(place);
                proof {
                    assert(str_views(distinct@) =~= seen.push(item@));
                    assert forall|k: Seq<char>| listed(str_views(distinct@)).contains(k) <==> (
                    listed(seen).contains(k) || k == item@) by {
                        if seen.contains(k) {
                            let j = choose|j: int| 0 <= j < seen.len() && seen[j] == k;
                            assert(str_views(distinct@)[j] == k);
                        }
                        if k == item@ {
                            assert(str_views(distinct@)[seen.len() as int] == k);
                        }
                        if str_views(distinct@).contains(k) {
                            let j = choose|j: int|
                                0 <= j < str_views(distinct@).len() && str_views(distinct@)[j]
                                    == k;
                            if j < seen.len() {
                                assert(seen[j] == k);
                            }
                        }
                    }
                    assert(index@.dom() =~= listed(str_views(distinct@)));
                    assert forall|k: int| 0 <= k < distinct@.len() implies index@[(
                    #[trigger] distinct@[k])@] == k by {
                        if k < old_distinct.len() {
                            assert(old_distinct[k]@ == seen[k]);
                            assert(seen.contains(seen[k]));
                            assert(old_index[old_distinct[k]@] == k);
                        }
                    }
                }
            },
        }
        i = i + 1;
    }
    proof {
        assert(str_views(items@).take(items@.len() as int) =~= str_views(items@));
    }
    (distinct, places)
}

/// The distinct words of a list, in the order in which they are first seen.
pub fn get_unique_words<'a>(words: &[&'a str]) -> (unique: Vec<&'a str>)
    ensures
        str_views(unique@) == first_seen(str_views(words@)),
{
    first_seen_places(words).0
}

/// The words of a frequency table, in its order.
pub open spec fn words_of(table: Seq<(String, u64)>) -> Seq<Seq<char>> {
    Seq::new(table.len(), |k: int| table[k].0@)
}

/// `table` tells how many of `texts` are each distinct text: its words stand
/// in dictionary order, each once; each has the number of texts equal to it;
/// and every text is one of its words.
pub open spec fn is_frequency_table(table: Seq<(String, u64)>, texts: Seq<Seq<char>>) -> bool {
    &&& strictly_ascending(words_of(table))
    &&& forall|k: int|
        0 <= k < table.len() ==> (#[trigger] table[k]).1 > 0 && table[k].1 == occurrences(
            texts,
            table[k].0@,
        )
    &&& forall|i: int| 0 <= i < texts.len() ==> words_of(table).contains(#[trigger] texts[i])
}

/// The words counted so far: ascending, each with its count among `seen`,
/// and all of `seen` among them.
spec fn counted(words: Seq<&str>, counts: Seq<u64>, seen: Seq<Seq<char>>) -> bool {
    &&& counts.len() == words.len()
    &&& forall|a: int, b: int|
        0 <= a < b < words.len() ==> lex_less(#[trigger] words[a]@, #[trigger] words[b]@)
    &&& forall|k: int|
        0 <= k < words.len() ==> #[trigger] counts[k] > 0 && counts[k] == occurrences(
            seen,
            words[k]@,
        )
    &&& forall|i: int| 0 <= i < seen.len() ==> str_views(words).contains(#[trigger] seen[i])
}

/// Where `word` stands among ascending `words`, or would have to stand: the
/// place of the first word that does not come before it.
fn place_of(words: &Vec<&str>, word: &str) -> (p: usize)
    ensures
        p <= words@.len(),
        forall|k: int| 0 <= k < p ==> lex_less((#[trigger] words@[k])@, word@),
        p < words@.len() ==> !lex_less(words@[p as int]@, word@),
{
    let mut p: usize = 0;
    while p < words.len()
        invariant
            p <= words@.len(),
            forall|k: int| 0 <= k < p ==> lex_less((#[trigger] words@[k])@, word@),
        decreases words@.len() - p,
    {
        if !str_less(words[p], word) {
            return p;
        }
        p = p + 1;
    }
    p
}

/// One more text that is already among the words: its count grows by one.
proof fn lemma_counted_again(
    words: Seq<&str>,
    counts: Seq<u64>,
    seen: Seq<Seq<char>>,
    p: int,
    text: Seq<char>,
)
    requires
        counted(words, counts, seen),
        0 <= p < words.len(),
        words[p]@ == text,
        counts[p] < u64::MAX,
    ensures
        counted(words, counts.update(p, (counts[p] + 1) as u64), seen.push(text)),
{
    let after = counts.update(p, (counts[p] + 1) as u64);
    let more = seen.push(text);
    assert forall|k: int| 0 <= k < words.len() implies #[trigger] after[k] > 0 && after[k]
        == occurrences(more, words[k]@) by {
        lemma_occurrences_push(seen, text, words[k]@);
        assert(counts[k] > 0 && counts[k] == occurrences(seen, words[k]@));
        if k != p && words[k]@ == text {
            lemma_lex_irreflexive(text);
            if k < p {
                assert(lex_less(words[k]@, words[p]@));
            } else {
                assert(lex_less(words[p]@, words[k]@));
            }
        }
    }
    assert forall|i: int| 0 <= i < more.len() implies str_views(words).contains(
        #[trigger] more[i],
    ) by {
        if i < seen.len() {
            assert(str_views(words).contains(seen[i]));
        } else {
            assert(str_views(words)[p] == text);
        }
    }
}

/// One more text that is not yet among the words: it takes its place among
/// them, with a count of one.
proof fn lemma_counted_new(
    words: Seq<&str>,
    counts: Seq<u64>,
    seen: Seq<Seq<char>>,
    p: int,
    word: &str,
)
    requires
        counted(words, counts, seen),
        0 <= p <= words.len(),
        forall|k: int| 0 <= k < p ==> lex_less((#[trigger] words[k])@, word@),
        p < words.len() ==> lex_less(word@, words[p]@),
    ensures
        counted(words.insert(p, word), counts.insert(p, 1u64), seen.push(word@)),
{
    let text = word@;
    let more_words = words.insert(p, word);
    let more_counts = counts.insert(p, 1u64);
    let more = seen.push(text);
    words.insert_ensures(p, word);
    counts.insert_ensures(p, 1u64);
    // The new word is none of the old ones.
    assert forall|k: int| 0 <= k < words.len() implies (#[trigger] words[k])@ != text by {
        lemma_lex_irreflexive(text);
        if k < p {
            assert(lex_less(words[k]@, text));
        } else {
            if p < k {
                assert(lex_less(words[p]@, words[k]@));
                lemma_lex_transitive(text, words[p]@, words[k]@);
            }
        }
    }
    assert(!seen.contains(text)) by {
        if seen.contains(text) {
            let i = choose|i: int| 0 <= i < seen.len() && seen[i] == text;
            assert(str_views(words).contains(seen[i]));
            let k = choose|k: int| 0 <= k < str_views(words).len() && str_views(words)[k] == text;
            assert(words[k]@ == text);
        }
    }
    lemma_occurrences_positive(seen, text);
    assert forall|a: int, b: int| 0 <= a < b < more_words.len() implies lex_less(
        #[trigger] more_words[a]@,
        #[trigger] more_words[b]@,
    ) by {
        if b < p {
            assert(lex_less(words[a]@, words[b]@));
        } else if b == p {
            assert(lex_less(words[a]@, text));
        } else if a < p {
            assert(lex_less(words[a]@, text));
            if b - 1 > p {
                assert(lex_less(words[p]@, words[b - 1]@));
                lemma_lex_transitive(text, words[p]@, words[b - 1]@);
            }
            lemma_lex_transitive(words[a]@, text, words[b - 1]@);
        } else if a == p {
            if b - 1 > p {
                assert(lex_less(words[p]@, words[b - 1]@));
                lemma_lex_transitive(text, words[p]@, words[b - 1]@);
            }
        } else {
            assert(lex_less(words[a - 1]@, words[b - 1]@));
        }
    }
    assert forall|k: int| 0 <= k < more_words.len() implies #[trigger] more_counts[k] > 0
        && more_counts[k] == occurrences(more, more_words[k]@) by {
        lemma_occurrences_push(seen, text, more_words[k]@);
        if k < p {
            assert(counts[k] > 0 && counts[k] == occurrences(seen, words[k]@));
        } else if k > p {
            assert(counts[k - 1] > 0 && counts[k - 1] == occurrences(seen, words[k - 1]@));
        }
    }
    assert forall|i: int| 0 <= i < more.len() implies str_views(more_words).contains(
        #[trigger] more[i],
    ) by {
        if i < seen.len() {
            assert(str_views(words).contains(seen[i]));
            let k = choose|k: int|
                0 <= k < str_views(words).len() && str_views(words)[k] == seen[i];
            if k < p {
                assert(str_views(more_words)[k] == seen[i]);
            } else {
                assert(str_views(more_words)[k + 1] == seen[i]);
            }
        } else {
            assert(str_views(more_words)[p] == text);
        }
    }
}

/// How many posts have each text: one entry per distinct text, in the
/// dictionary order of the texts, with the number of posts that have it.
///
/// A post's whole text counts as one word here.
pub fn word_freqs(posts: &[RawPostFeatures]) -> (table: Vec<(String, u64)>)
    ensures
        is_frequency_table(table@, texts_of(posts@)),
{
    let mut words: Vec<&str> = Vec::new();
    let mut counts: Vec<u64> = Vec::new();
    let mut i: usize = 0;
    while i < posts.len()
        invariant
            i <= posts@.len(),
            counted(words@, counts@, texts_of(posts@).take(i as int)),
        decreases posts@.len() - i,
    {
        let text = posts[i].selftext.as_str();
        let ghost seen = texts_of(posts@).take(i as int);
        let p = place_of(&words, text);
        proof {
            assert(texts_of(posts@).take(i + 1) =~= seen.push(text@));
        }
        if p < words.len() && !str_less(text, words[p]) {
            proof {
                lemma_lex_total(text@, words@[p as int]@);
                lemma_occurrences_bounded(seen, text@);
                assert(counts@[p as int] == occurrences(seen, words@[p as int]@));
                lemma_counted_again(words@, counts@, seen, p as int, text@);
            }
            let n = counts[p];
            counts.set(p, n + 1);
        } else {
            proof {
                lemma_counted_new(words@, counts@, seen, p as int, text);
            }
            words.insert(p, text);
            counts.insert(p, 1);
        }
        i = i + 1;
    }
    proof {
        assert(texts_of(posts@).take(posts@.len() as int) =~= texts_of(posts@));
    }
    let ghost texts = texts_of(posts@);
    let mut table: Vec<(String, u64)> = Vec::new();
    let mut k: usize = 0;
    while k < words.len()
        invariant
            k <= words@.len(),
            counts@.len() == words@.len(),
            table@.len() == k,
            forall|q: int|
                0 <= q < k ==> (#[trigger] table@[q]).0@ == words@[q]@ && table@[q].1 == counts@[q],
        decreases words@.len() - k,
    {
        table.push((words[k].to_owned(), counts[k]));
        k = k + 1;
    }
    proof {
        assert(words_of(table@) =~= str_views(words@));
        assert forall|a: int, b: int| 0 <= a < b < table@.len() implies lex_less(
            #[trigger] words_of(table@)[a],
            #[trigger] words_of(table@)[b],
        ) by {
            assert(lex_less(words@[a]@, words@[b]@));
        }
        assert forall|q: int| 0 <= q < table@.len() implies (#[trigger] table@[q]).1 > 0
            && table@[q].1 == occurrences(texts, table@[q].0@) by {
            assert(counts@[q] > 0 && counts@[q] == occurrences(texts, words@[q]@));
        }
    }
    table
}

} // verus!
