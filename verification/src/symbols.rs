//! The symbol alphabet and what is counted over it.

use vstd::prelude::*;
use crate::strings::{lemma_occurrences_push, occurrences};

verus! {

/// The number of symbols that are counted.
pub const SYMBOL_COUNT: usize = 26;

/// The symbols that are counted, in the order of their columns.
pub open spec fn symbol_alphabet() -> Seq<char> {
    seq![
        '_', '-', ';', ':', '!', '?', '.', '(', ')', '[', ']', '{', '}', '*', '/', '\\', '&', '%',
        '`', '+', '<', '=', '>', '|', '~', '$',
    ]
}

/// The symbol alphabet as an array.
pub fn symbols() -> (alphabet: [char; 26])
    ensures
        alphabet@ == symbol_alphabet(),
{
    let alphabet = [
        '_', '-', ';', ':', '!', '?', '.', '(', ')', '[', ']', '{', '}', '*', '/', '\\', '&', '%',
        '`', '+', '<', '=', '>', '|', '~', '$',
    ];
    assert(alphabet@ =~= symbol_alphabet());
    alphabet
}

/// No symbol stands twice in the alphabet.
pub proof fn lemma_alphabet_distinct()
    ensures
        symbol_alphabet().len() == SYMBOL_COUNT,
        symbol_alphabet().no_duplicates(),
{
    let a = symbol_alphabet();
    assert(a.len() == 26);
    assert forall|i: int, j: int| 0 <= i < a.len() && 0 <= j < a.len() && i != j implies a[i]
        != a[j] by {
        let code = |k: int| a[k] as int;
        assert(code(0) == 95 && code(1) == 45 && code(2) == 59 && code(3) == 58 && code(4) == 33
            && code(5) == 63 && code(6) == 46 && code(7) == 40 && code(8) == 41 && code(9) == 91
            && code(10) == 93 && code(11) == 123 && code(12) == 125 && code(13) == 42 && code(14)
            == 47 && code(15) == 92 && code(16) == 38 && code(17) == 37 && code(18) == 96
            && code(19) == 43 && code(20) == 60 && code(21) == 61 && code(22) == 62 && code(23)
            == 124 && code(24) == 126 && code(25) == 36);
        assert(code(i) != code(j));
    }
}

/// The counts of `text` over `alphabet`: how often each of its items occurs.
pub open spec fn tally(alphabet: Seq<char>, text: Seq<char>) -> Seq<nat> {
    Seq::new(alphabet.len(), |j: int| occurrences(text, alphabet[j]))
}

/// The symbol counts of `text`, one per symbol in alphabet order.
pub open spec fn symbol_tally(text: Seq<char>) -> Seq<nat> {
    tally(symbol_alphabet(), text)
}

/// The counts that a row of cells holds.
pub open spec fn as_counts(row: Seq<u64>) -> Seq<nat> {
    Seq::new(row.len(), |j: int| row[j] as nat)
}

/// The sum of a list of counts.
pub open spec fn total(counts: Seq<nat>) -> nat
    decreases counts.len(),
{
    if counts.len() == 0 {
        0
    } else {
        total(counts.drop_last()) + counts.last()
    }
}

proof fn lemma_total_of_sum(x: Seq<nat>, y: Seq<nat>, z: Seq<nat>)
    requires
        x.len() == y.len(),
        y.len() == z.len(),
        forall|j: int| 0 <= j < z.len() ==> z[j] == x[j] + y[j],
    ensures
        total(z) == total(x) + total(y),
    decreases z.len(),
{
    if z.len() > 0 {
        lemma_total_of_sum(x.drop_last(), y.drop_last(), z.drop_last());
    }
}

/// For each item of the alphabet, 1 if it is `c` and 0 if not.
spec fn hits(alphabet: Seq<char>, c: char) -> Seq<nat> {
    Seq::new(
        alphabet.len(),
        |j: int|
            if alphabet[j] == c {
                1nat
            } else {
                0nat
            },
    )
}

proof fn lemma_hits_at_most_one(alphabet: Seq<char>, c: char)
    requires
        alphabet.no_duplicates(),
    ensures
        total(hits(alphabet, c)) <= 1,
        !alphabet.contains(c) ==> total(hits(alphabet, c)) == 0,
    decreases alphabet.len(),
{
    if alphabet.len() > 0 {
        let front = alphabet.drop_last();
        assert(hits(alphabet, c).drop_last() =~= hits(front, c));
        lemma_hits_at_most_one(front, c);
        if alphabet.last() == c {
            if front.contains(c) {
                let i = choose|i: int| 0 <= i < front.len() && front[i] == c;
                assert(alphabet[i] == alphabet[alphabet.len() - 1]);
            }
        } else if front.contains(c) {
            let i = choose|i: int| 0 <= i < front.len() && front[i] == c;
            assert(alphabet[i] == c);
        }
    }
}

/// Over an alphabet without repetitions, the counts of a text sum to no more
/// than the text has characters.
pub proof fn lemma_tally_total(alphabet: Seq<char>, text: Seq<char>)
    requires
        alphabet.no_duplicates(),
    ensures
        total(tally(alphabet, text)) <= text.len(),
    decreases text.len(),
{
    if text.len() == 0 {
        lemma_total_zero(tally(alphabet, text));
    } else {
        let front = text.drop_last();
        let c = text.last();
        lemma_tally_total(alphabet, front);
        lemma_hits_at_most_one(alphabet, c);
        assert forall|j: int| 0 <= j < alphabet.len() implies tally(alphabet, text)[j] == tally(
            alphabet,
            front,
        )[j] + hits(alphabet, c)[j] by {
            assert(front.push(c) =~= text);
            lemma_occurrences_push(front, c, alphabet[j]);
        }
        lemma_total_of_sum(tally(alphabet, front), hits(alphabet, c), tally(alphabet, text));
    }
}

proof fn lemma_total_zero(counts: Seq<nat>)
    requires
        forall|j: int| 0 <= j < counts.len() ==> counts[j] == 0,
    ensures
        total(counts) == 0,
    decreases counts.len(),
{
    if counts.len() > 0 {
        lemma_total_zero(counts.drop_last());
    }
}

/// The symbol counts of a text sum to no more than the text has characters.
pub proof fn lemma_symbol_total(text: Seq<char>)
    ensures
        total(symbol_tally(text)) <= text.len(),
{
    lemma_alphabet_distinct();
    lemma_tally_total(symbol_alphabet(), text);
}

} // verus!
