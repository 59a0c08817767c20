//! Strings as sequences of characters: views of string lists, equality,
//! the dictionary order, and counting.

use vstd::prelude::*;
use vstd::std_specs::iter::IteratorSpec;
use vstd::utf8::{encode_scalar, encode_utf8};

verus! {

/// `String::push` of the standard library: the string afterwards is the string
/// before with `c` as one more character at its end.
pub assume_specification[ String::push ](s: &mut String, c: char)
    ensures
        final(s)@ == old(s)@.push(c),
;

/// The characters of each string of a list of borrowed strings.
pub open spec fn str_views(list: Seq<&str>) -> Seq<Seq<char>> {
    Seq::new(list.len(), |i: int| list[i]@)
}

/// The characters of each string of a list of owned strings.
pub open spec fn string_views(list: Seq<String>) -> Seq<Seq<char>> {
    Seq::new(list.len(), |i: int| list[i]@)
}

/// The strings of `list`, borrowed.
pub fn borrow_all<'a>(list: &'a [String]) -> (borrowed: Vec<&'a str>)
    ensures
        str_views(borrowed@) == string_views(list@),
{
    let mut borrowed: Vec<&'a str> = Vec::new();
    let mut i: usize = 0;
    while i < list.len()
        invariant
            i <= list@.len(),
            borrowed@.len() == i,
            str_views(borrowed@) == string_views(list@).take(i as int),
        decreases list@.len() - i,
    {
        let ghost before = borrowed@;
        borrowed.push(list[i].as_str());
        proof {
            assert(str_views(before) == string_views(list@).take(i as int));
            assert forall|k: int| 0 <= k <= i implies str_views(borrowed@)[k] == string_views(
                list@,
            ).take(i + 1)[k] by {
                if k < i {
                    assert(str_views(before)[k] == string_views(list@).take(i as int)[k]);
                }
            }
            assert(str_views(borrowed@) =~= string_views(list@).take(i + 1));
        }
        i = i + 1;
    }
    assert(string_views(list@).take(list@.len() as int) =~= string_views(list@));
    borrowed
}

/// Copies of the strings of `list`.
pub fn own_all(list: &[&str]) -> (owned: Vec<String>)
    ensures
        string_views(owned@) == str_views(list@),
{
    let mut owned: Vec<String> = Vec::new();
    let mut i: usize = 0;
    while i < list.len()
        invariant
            i <= list@.len(),
            owned@.len() == i,
            string_views(owned@) == str_views(list@).take(i as int),
        decreases list@.len() - i,
    {
        let ghost before = owned@;
        owned.push(list[i].to_owned());
        proof {
            assert forall|k: int| 0 <= k <= i implies string_views(owned@)[k] == str_views(
                list@,
            ).take(i + 1)[k] by {
                if k < i {
                    assert(string_views(before)[k] == str_views(list@).take(i as int)[k]);
                }
            }
            assert(string_views(owned@) =~= str_views(list@).take(i + 1));
        }
        i = i + 1;
    }
    assert(str_views(list@).take(list@.len() as int) =~= str_views(list@));
    owned
}

/// How often `item` occurs in `list`.
pub open spec fn occurrences<T>(list: Seq<T>, item: T) -> nat
    decreases list.len(),
{
    if list.len() == 0 {
        0
    } else {
        occurrences(list.drop_last(), item) + if list.last() == item {
            1nat
        } else {
            0nat
        }
    }
}

/// Nothing occurs more often than the list is long.
pub proof fn lemma_occurrences_bounded<T>(list: Seq<T>, item: T)
    ensures
        occurrences(list, item) <= list.len(),
    decreases list.len(),
{
    if list.len() > 0 {
        lemma_occurrences_bounded(list.drop_last(), item);
    }
}

/// An item occurs at least once exactly if the list holds it.
pub proof fn lemma_occurrences_positive<T>(list: Seq<T>, item: T)
    ensures
        occurrences(list, item) > 0 <==> list.contains(item),
    decreases list.len(),
{
    if list.len() > 0 {
        lemma_occurrences_positive(list.drop_last(), item);
        if list.last() == item {
            assert(list[list.len() - 1] == item);
        } else if list.contains(item) {
            let i = choose|i: int| 0 <= i < list.len() && list[i] == item;
            assert(list.drop_last()[i] == item);
        } else if list.drop_last().contains(item) {
            let i = choose|i: int| 0 <= i < list.drop_last().len() && list.drop_last()[i] == item;
            assert(list[i] == item);
        }
    }
}

/// One more item at the end adds one to its own count and nothing to the others.
pub proof fn lemma_occurrences_push<T>(list: Seq<T>, last: T, item: T)
    ensures
        occurrences(list.push(last), item) == occurrences(list, item) + if last == item {
            1nat
        } else {
            0nat
        },
{
    assert(list.push(last).drop_last() == list);
}

/// The dictionary order on strings, character by character: a proper prefix
/// comes first, and otherwise the first differing character decides.
pub open spec fn lex_less(a: Seq<char>, b: Seq<char>) -> bool
    decreases a.len(),
{
    if b.len() == 0 {
        false
    } else if a.len() == 0 {
        true
    } else if a[0] != b[0] {
        a[0] < b[0]
    } else {
        lex_less(a.drop_first(), b.drop_first())
    }
}

/// A list of strings in which each comes before all that follow it.
pub open spec fn strictly_ascending(list: Seq<Seq<char>>) -> bool {
    forall|i: int, j: int|
        0 <= i < j < list.len() ==> lex_less(#[trigger] list[i], #[trigger] list[j])
}

/// No string comes before itself.
pub proof fn lemma_lex_irreflexive(a: Seq<char>)
    ensures
        !lex_less(a, a),
    decreases a.len(),
{
    if a.len() > 0 {
        lemma_lex_irreflexive(a.drop_first());
    }
}

/// Of two different strings one comes before the other.
pub proof fn lemma_lex_total(a: Seq<char>, b: Seq<char>)
    ensures
        a == b || lex_less(a, b) || lex_less(b, a),
    decreases a.len(),
{
    if a.len() > 0 && b.len() > 0 && a[0] == b[0] {
        lemma_lex_total(a.drop_first(), b.drop_first());
        if a.drop_first() == b.drop_first() {
            assert(a =~= seq![a[0]] + a.drop_first());
            assert(b =~= seq![b[0]] + b.drop_first());
        }
    } else if a.len() == 0 && b.len() == 0 {
        assert(a =~= b);
    }
}

/// Never do two strings each come before the other.
pub proof fn lemma_lex_asymmetric(a: Seq<char>, b: Seq<char>)
    requires
        lex_less(a, b),
    ensures
        !lex_less(b, a),
    decreases a.len(),
{
    if a.len() > 0 && b.len() > 0 && a[0] == b[0] {
        lemma_lex_asymmetric(a.drop_first(), b.drop_first());
    }
}

/// The dictionary order is transitive.
pub proof fn lemma_lex_transitive(a: Seq<char>, b: Seq<char>, c: Seq<char>)
    requires
        lex_less(a, b),
        lex_less(b, c),
    ensures
        lex_less(a, c),
    decreases a.len(),
{
    if a.len() > 0 && b.len() > 0 && c.len() > 0 && a[0] == b[0] && b[0] == c[0] {
        lemma_lex_transitive(a.drop_first(), b.drop_first(), c.drop_first());
    }
}

/// Whether `a` comes before `b` in the dictionary order.
pub fn str_less(a: &str, b: &str) -> (less: bool)
    ensures
        less == lex_less(a@, b@),
{
    let mut left = a.chars();
    let mut right = b.chars();
    loop
        invariant
            lex_less(a@, b@) == lex_less(left.remaining(), right.remaining()),
            left.obeys_prophetic_iter_laws(),
            right.obeys_prophetic_iter_laws(),
            left.decrease() is Some,
        decreases left.decrease()->0,
    {
        let x = left.next();
        let y = right.next();
        match (x, y) {
            (_, None) => {
                return false;
            },
            (None, Some(_)) => {
                return true;
            },
            (Some(p), Some(q)) => {
                if p != q {
                    return p < q;
                }
            },
        }
    }
}

/// Whether `a` and `b` hold the same characters.
pub fn str_eq(a: &str, b: &str) -> (same: bool)
    ensures
        same == (a@ == b@),
{
    let mut left = a.chars();
    let mut right = b.chars();
    loop
        invariant
            (a@ == b@) == (left.remaining() == right.remaining()),
            left.obeys_prophetic_iter_laws(),
            right.obeys_prophetic_iter_laws(),
            left.decrease() is Some,
        decreases left.decrease()->0,
    {
        let ghost l0 = left.remaining();
        let ghost r0 = right.remaining();
        let x = left.next();
        let y = right.next();
        match (x, y) {
            (None, None) => {
                assert(l0 =~= r0);
                return true;
            },
            (Some(p), Some(q)) => {
                if p != q {
                    return false;
                }
                assert(left.remaining() == right.remaining() ==> l0 == r0) by {
                    assert(l0 =~= seq![p] + l0.drop_first());
                    assert(r0 =~= seq![q] + r0.drop_first());
                }
            },
            _ => {
                return false;
            },
        }
    }
}

/// A string has at most as many characters as its encoding has bytes.
pub proof fn lemma_chars_at_most_bytes(chars: Seq<char>)
    ensures
        chars.len() <= encode_utf8(chars).len(),
    decreases chars.len(),
{
    if chars.len() > 0 {
        lemma_chars_at_most_bytes(chars.drop_first());
        assert(encode_scalar(chars[0] as u32).len() >= 1);
    }
}

/// The number of characters of `s`.
pub fn char_count(s: &str) -> (n: usize)
    ensures
        n == s@.len(),
{
    let mut n: usize = 0;
    let bytes = s.as_bytes();
    let limit = bytes.len();
    proof {
        lemma_chars_at_most_bytes(s@);
    }
    for c in it: s.chars()
        invariant
            it.seq() == s@,
            n == it.index(),
            s@.len() <= limit,
    {
        n = n + 1;
    }
    n
}

} // verus!
