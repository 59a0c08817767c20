//! Lists of strings as text: one item per line.
//!
//! This is the form in which the vocabulary and the reference list of
//! authors are kept between runs.  Reading and writing the file is the
//! caller's business; what stands in it is decided here.

use vstd::prelude::*;
use crate::strings::{str_views, string_views};

verus! {

/// The text of a list: each item followed by a line feed.
pub open spec fn encoded_list(list: Seq<Seq<char>>) -> Seq<char>
    decreases list.len(),
{
    if list.len() == 0 {
        Seq::empty()
    } else {
        list.first() + seq!['\n'] + encoded_list(list.drop_first())
    }
}

/// The number of characters of `text` before its first line feed, or all of
/// them where it has none.
pub open spec fn line_len(text: Seq<char>) -> nat
    decreases text.len(),
{
    if text.len() == 0 || text[0] == '\n' {
        0
    } else {
        1 + line_len(text.drop_first())
    }
}

/// A line without the carriage return at its end, if it has one.
pub open spec fn without_return(line: Seq<char>) -> Seq<char> {
    if line.len() > 0 && line.last() == '\r' {
        line.drop_last()
    } else {
        line
    }
}

/// The lines of a text.  A line ends with a line feed, or with a carriage
/// return and a line feed; neither belongs to the line.  What follows the
/// last line feed is a line too, unless it is empty.
pub open spec fn decoded_lines(text: Seq<char>) -> Seq<Seq<char>>
    decreases text.len(),
    via decoded_lines_decreases
{
    if text.len() == 0 {
        Seq::empty()
    } else if line_len(text) == text.len() {
        seq![text]
    } else {
        seq![without_return(text.take(line_len(text) as int))] + decoded_lines(
            text.skip(line_len(text) as int + 1),
        )
    }
}

#[via_fn]
proof fn decoded_lines_decreases(text: Seq<char>) {
    lemma_line_len(text);
}

/// A line is no longer than the text, holds no line feed, and is followed by
/// one where the text goes on.
pub proof fn lemma_line_len(text: Seq<char>)
    ensures
        line_len(text) <= text.len(),
        line_len(text) < text.len() ==> text[line_len(text) as int] == '\n',
        forall|k: int| 0 <= k < line_len(text) ==> text[k] != '\n',
    decreases text.len(),
{
    if text.len() > 0 && text[0] != '\n' {
        let rest = text.drop_first();
        lemma_line_len(rest);
        assert forall|k: int| 0 <= k < line_len(text) implies text[k] != '\n' by {
            if k > 0 {
                assert(rest[k - 1] == text[k]);
            }
        }
    }
}

/// An item that a list can hold and get back: without a line feed, and not
/// ending with a carriage return.
pub open spec fn is_line(item: Seq<char>) -> bool {
    &&& forall|k: int| 0 <= k < item.len() ==> item[k] != '\n'
    &&& item.len() > 0 ==> item.last() != '\r'
}

/// A text that starts with an item and a line feed has that item as its
/// first line.
proof fn lemma_line_len_of_item(item: Seq<char>, rest: Seq<char>)
    requires
        forall|k: int| 0 <= k < item.len() ==> item[k] != '\n',
    ensures
        line_len(item + seq!['\n'] + rest) == item.len(),
    decreases item.len(),
{
    let text = item + seq!['\n'] + rest;
    if item.len() > 0 {
        assert(text[0] == item[0]);
        assert(text.drop_first() =~= item.drop_first() + seq!['\n'] + rest);
        lemma_line_len_of_item(item.drop_first(), rest);
    } else {
        assert(text[0] == '\n');
    }
}

/// Writing a list and reading it back gives the list, as long as no item
/// holds a line feed or ends with a carriage return.
pub proof fn lemma_list_round_trip(list: Seq<Seq<char>>)
    requires
        forall|i: int| 0 <= i < list.len() ==> is_line(#[trigger] list[i]),
    ensures
        decoded_lines(encoded_list(list)) == list,
    decreases list.len(),
{
    if list.len() > 0 {
        let item = list.first();
        let rest = encoded_list(list.drop_first());
        let text = item + seq!['\n'] + rest;
        assert(is_line(list[0]));
        lemma_line_len_of_item(item, rest);
        assert(text.take(item.len() as int) =~= item);
        assert(text.skip(item.len() as int + 1) =~= rest);
        assert forall|i: int| 0 <= i < list.drop_first().len() implies is_line(
            #[trigger] list.drop_first()[i],
        ) by {
            assert(list.drop_first()[i] == list[i + 1]);
        }
        lemma_list_round_trip(list.drop_first());
        assert(seq![item] + list.drop_first() =~= list);
    } else {
        assert(decoded_lines(encoded_list(list)) =~= list);
    }
}

/// The text of two lists, one after the other, is the text of the first
/// followed by the text of the second.
pub proof fn lemma_encoded_concat(a: Seq<Seq<char>>, b: Seq<Seq<char>>)
    ensures
        encoded_list(a + b) == encoded_list(a) + encoded_list(b),
    decreases a.len(),
{
    if a.len() == 0 {
        assert(a + b =~= b);
        assert(encoded_list(a) + encoded_list(b) =~= encoded_list(b));
    } else {
        assert((a + b).first() == a.first());
        assert((a + b).drop_first() =~= a.drop_first() + b);
        lemma_encoded_concat(a.drop_first(), b);
        assert(encoded_list(a + b) =~= encoded_list(a) + encoded_list(b));
    }
}

/// The text that holds `list`, one item per line.
pub fn encode_list(list: &[&str]) -> (text: String)
    ensures
        text@ == encoded_list(str_views(list@)),
{
    let mut text = String::new();
    let mut i: usize = 0;
    while i < list.len()
        invariant
            i <= list@.len(),
            text@ == encoded_list(str_views(list@).take(i as int)),
        decreases list@.len() - i,
    {
        let ghost before = text@;
        text.append(list[i]);
        text.push('\n');
        proof {
            let done = str_views(list@).take(i as int);
            let one = seq![list@[i as int]@];
            assert(str_views(list@).take(i + 1) =~= done + one);
            lemma_encoded_concat(done, one);
            assert(one.drop_first() =~= Seq::<Seq<char>>::empty());
            assert(encoded_list(one.drop_first()) =~= Seq::<char>::empty());
            assert(encoded_list(one) =~= list@[i as int]@ + seq!['\n']);
            assert(text@ =~= before + (list@[i as int]@ + seq!['\n']));
        }
        i = i + 1;
    }
    proof {
        assert(str_views(list@).take(list@.len() as int) =~= str_views(list@));
    }
    text
}

/// The lines that `text` holds.
pub fn decode_list(text: &str) -> (list: Vec<String>)
    ensures
        string_views(list@) == decoded_lines(text@),
{
    let mut list: Vec<String> = Vec::new();
    let mut line = String::new();
    // A carriage return that was read and is not yet part of the line:
    // it belongs to the line unless a line feed follows.
    let mut held_return = false;
    let ghost mut start: int = 0;
    proof {
        assert(text@.skip(0) =~= text@);
        assert(string_views(list@) + decoded_lines(text@) =~= decoded_lines(text@));
        assert(text@.subrange(0, 0) =~= line@);
    }
    for c in it: text.chars()
        invariant
            it.seq() == text@,
            0 <= start <= it.index(),
            string_views(list@) + decoded_lines(text@.skip(start)) == decoded_lines(text@),
            forall|k: int| start <= k < it.index() ==> text@[k] != '\n',
            !held_return && line@.len() > 0 ==> line@.last() != '\r',
            text@.subrange(start, it.index() as int) == if held_return {
                line@.push('\r')
            } else {
                line@
            },
    {
        let ghost i = it.index();
        let ghost rest = text@.skip(start);
        if c == '\n' {
            proof {
                lemma_line_len_at(text@, start, i);
                assert(rest.take(i - start) =~= text@.subrange(start, i));
                assert(rest.skip(i - start + 1) =~= text@.skip(i + 1));
                assert(without_return(text@.subrange(start, i)) =~= line@);
                assert(decoded_lines(rest) == seq![line@] + decoded_lines(text@.skip(i + 1)));
            }
            let ghost before = string_views(list@);
            list.push(line);
            line = String::new();
            held_return = false;
            proof {
                let read = without_return(rest.take(i - start));
                assert(string_views(list@) =~= before + seq![read]);
                assert(string_views(list@) + decoded_lines(text@.skip(i + 1)) =~= before + (seq![
                    read,
                ] + decoded_lines(text@.skip(i + 1))));
                start = i + 1;
                assert(text@.subrange(start, i + 1) =~= line@);
            }
        } else {
            if held_return {
                line.push('\r');
            }
            if c == '\r' {
                held_return = true;
            } else {
                held_return = false;
                line.push(c);
            }
            proof {
                assert(text@.subrange(start, i + 1) =~= text@.subrange(start, i).push(c));
            }
        }
    }
    proof {
        let n = text@.len() as int;
        let rest = text@.skip(start);
        if start < n {
            lemma_line_len_at(text@, start, n);
            assert(rest =~= text@.subrange(start, n));
        } else {
            assert(rest =~= Seq::<char>::empty());
            assert(string_views(list@) + decoded_lines(rest) =~= string_views(list@));
        }
    }
    if held_return {
        line.push('\r');
    }
    if line.as_str().unicode_len() > 0 {
        let ghost before = string_views(list@);
        list.push(line);
        proof {
            assert(string_views(list@) =~= before + seq![text@.skip(start)]);
        }
    }
    list
}

/// Where no line feed stands from `start` up to `end`, and one stands at `end`
/// or the text ends there, the line from `start` on is that long.
proof fn lemma_line_len_at(text: Seq<char>, start: int, end: int)
    requires
        0 <= start <= end <= text.len(),
        forall|k: int| start <= k < end ==> text[k] != '\n',
        end < text.len() ==> text[end] == '\n',
    ensures
        line_len(text.skip(start)) == end - start,
    decreases end - start,
{
    let rest = text.skip(start);
    if start < end {
        assert(rest[0] == text[start]);
        assert(rest.drop_first() =~= text.skip(start + 1));
        lemma_line_len_at(text, start + 1, end);
    } else if end < text.len() {
        assert(rest[0] == '\n');
    }
}

} // verus!
