//! Class labels for community names.
//!
//! Two ways of labelling are offered.  The fixed one knows the two
//! communities of the task and refuses any other name; it gives the same
//! label to the same name in every batch, and is what the pipeline uses.
//! The other hands out labels in the order in which names are first seen,
//! so its labels depend on the order of the batch.

use vstd::prelude::*;
use crate::strings::{str_eq, str_views};

verus! {

/// The label of the target community.
pub const RUST_LABEL: u64 = 0;

/// The label of the other community.
pub const PLAYRUST_LABEL: u64 = 1;

/// The name of the target community.
pub open spec fn rust_name() -> Seq<char> {
    "rust"@
}

/// The name of the other community.
pub open spec fn playrust_name() -> Seq<char> {
    "playrust"@
}

/// The fixed label of a community name, if the name is one of the two.
pub open spec fn fixed_label(name: Seq<char>) -> Option<u64> {
    if name == rust_name() {
        Some(RUST_LABEL)
    } else if name == playrust_name() {
        Some(PLAYRUST_LABEL)
    } else {
        None
    }
}

/// The fixed labels of a list of names.
pub open spec fn fixed_labels(names: Seq<Seq<char>>) -> Seq<Option<u64>> {
    Seq::new(names.len(), |i: int| fixed_label(names[i]))
}

/// Whether `at` is the first name of the list without a fixed label.
pub open spec fn first_unknown(names: Seq<Seq<char>>, at: int) -> bool {
    &&& 0 <= at < names.len()
    &&& fixed_label(names[at]) is None
    &&& forall|k: int| 0 <= k < at ==> (#[trigger] fixed_label(names[k])) is Some
}

/// The items of a list in the order in which they first occur, each once.
pub open spec fn first_seen<T>(list: Seq<T>) -> Seq<T>
    decreases list.len(),
{
    if list.len() == 0 {
        Seq::empty()
    } else {
        let seen = first_seen(list.drop_last());
        if seen.contains(list.last()) {
            seen
        } else {
            seen.push(list.last())
        }
    }
}

/// Nothing stands twice among the first-seen items, and they are the items
/// of the list.
pub proof fn lemma_first_seen<T>(list: Seq<T>)
    ensures
        first_seen(list).no_duplicates(),
        forall|x: T| first_seen(list).contains(x) <==> list.contains(x),
    decreases list.len(),
{
    if list.len() > 0 {
        let front = list.drop_last();
        let seen = first_seen(front);
        lemma_first_seen(front);
        assert forall|x: T| first_seen(list).contains(x) <==> list.contains(x) by {
            if list.contains(x) {
                let i = choose|i: int| 0 <= i < list.len() && list[i] == x;
                if i < front.len() {
                    assert(front[i] == x);
                    assert(front.contains(x));
                    assert(seen.contains(x));
                    let k = choose|k: int| 0 <= k < seen.len() && seen[k] == x;
                    assert(first_seen(list)[k] == x);
                } else if !seen.contains(x) {
                    assert(first_seen(list)[seen.len() as int] == x);
                }
            }
            if first_seen(list).contains(x) {
                let k = choose|k: int| 0 <= k < first_seen(list).len() && first_seen(list)[k] == x;
                if k < seen.len() {
                    assert(seen[k] == x);
                    assert(seen.contains(x));
                    assert(front.contains(x));
                    let i = choose|i: int| 0 <= i < front.len() && front[i] == x;
                    assert(list[i] == x);
                } else {
                    assert(list[list.len() - 1] == x);
                }
            }
        }
    }
}

/// The fixed label of a community name: 0 for `rust`, 1 for `playrust`,
/// nothing for any other name.
pub fn subreddit_label(name: &str) -> (label: Option<u64>)
    ensures
        label == fixed_label(name@),
{
    if str_eq(name, "rust") {
        Some(RUST_LABEL)
    } else if str_eq(name, "playrust") {
        Some(PLAYRUST_LABEL)
    } else {
        None
    }
}

/// The fixed labels of a batch of community names.  Where a name is neither
/// `rust` nor `playrust`, the batch is refused, and the error is the place of
/// the first such name.
pub fn encode_subreddits(subs: &[&str]) -> (labels: Result<Vec<u64>, usize>)
    ensures
        match labels {
            Ok(l) => {
                &&& l@.len() == subs@.len()
                &&& forall|i: int|
                    0 <= i < l@.len() ==> fixed_label(subs@[i]@) == Some(#[trigger] l@[i])
            },
            Err(at) => first_unknown(str_views(subs@), at as int),
        },
{
    let mut labels: Vec<u64> = Vec::new();
    let mut i: usize = 0;
    while i < subs.len()
        invariant
            i <= subs@.len(),
            labels@.len() == i,
            forall|k: int| 0 <= k < i ==> fixed_label(subs@[k]@) == Some(#[trigger] labels@[k]),
        decreases subs@.len() - i,
    {
        match subreddit_label(subs[i]) {
            Some(label) => {
                labels.push(label);
            },
            None => {
                proof {
                    assert forall|k: int| 0 <= k < i implies (#[trigger] fixed_label(
                        str_views(subs@)[k],
                    )) is Some by {
                        assert(fixed_label(subs@[k]@) == Some(labels@[k]));
                    }
                }
                return Err(i);
            },
        }
        i = i + 1;
    }
    Ok(labels)
}

} // verus!
