//! Posts in the order of their titles, and runs of one title collapsed.
//!
//! Sorting is the standard library's work and collapsing the `dedup_by`
//! crate's; what is taken on trust of the two is stated in the two small
//! functions at the end of this file.

use vstd::prelude::*;
use std::cmp::Ordering;
use crate::reddit::RawPostFeatures;
use crate::strings::{lemma_lex_asymmetric, lex_less, str_eq, str_less};

verus! {

/// The title of the post at place `i`.
pub open spec fn title_at(posts: Seq<RawPostFeatures>, i: int) -> Seq<char> {
    posts[i].title@
}

/// No post stands before one whose title comes earlier in the dictionary.
pub open spec fn titles_ascend(posts: Seq<RawPostFeatures>) -> bool {
    forall|i: int, j: int|
        0 <= i < j < posts.len() ==> !lex_less(
            #[trigger] title_at(posts, j),
            #[trigger] title_at(posts, i),
        )
}

/// `after` holds the posts of `before` in another order: place `i` of
/// `after` holds the post of place `from[i]` of `before`, and every place of
/// `before` is taken from exactly once.
pub open spec fn rearranges(
    from: Seq<int>,
    before: Seq<RawPostFeatures>,
    after: Seq<RawPostFeatures>,
) -> bool {
    &&& from.len() == before.len()
    &&& after.len() == before.len()
    &&& forall|i: int|
        0 <= i < from.len() ==> 0 <= #[trigger] from[i] < before.len() && after[i]
            == before[from[i]]
    &&& forall|i: int, j: int| 0 <= i < j < from.len() ==> #[trigger] from[i] != #[trigger] from[j]
    &&& forall|j: int| 0 <= j < before.len() ==> #[trigger] from.contains(j)
}

/// Posts with the same title stand in `after` in the order in which they
/// stood before.
pub open spec fn keeps_equal_titles_in_order(from: Seq<int>, after: Seq<RawPostFeatures>) -> bool {
    forall|i: int, j: int|
        0 <= i < j < after.len() && #[trigger] title_at(after, i) == #[trigger] title_at(after, j)
            ==> from[i] < from[j]
}

/// `after` is `before` sorted by title, posts with the same title in their
/// old order.
pub open spec fn stably_sorted_by_title(
    before: Seq<RawPostFeatures>,
    after: Seq<RawPostFeatures>,
) -> bool {
    exists|from: Seq<int>|
        {
            &&& #[trigger] rearranges(from, before, after)
            &&& keeps_equal_titles_in_order(from, after)
            &&& titles_ascend(after)
        }
}

/// The posts without those that have the title of the post kept last before
/// them: of each run of one title the first post stays.
pub open spec fn without_repeats(posts: Seq<RawPostFeatures>) -> Seq<RawPostFeatures>
    decreases posts.len(),
{
    if posts.len() == 0 {
        posts
    } else {
        let kept = without_repeats(posts.drop_last());
        if kept.len() > 0 && kept.last().title@ == posts.last().title@ {
            kept
        } else {
            kept.push(posts.last())
        }
    }
}

/// How the titles of two posts compare in the dictionary order.
pub fn title_order(a: &RawPostFeatures, b: &RawPostFeatures) -> (o: Ordering)
    ensures
        o == Ordering::Less <==> lex_less(a.title@, b.title@),
        o == Ordering::Greater <==> lex_less(b.title@, a.title@),
{
    proof {
        if lex_less(a.title@, b.title@) {
            lemma_lex_asymmetric(a.title@, b.title@);
        }
    }
    if str_less(a.title.as_str(), b.title.as_str()) {
        Ordering::Less
    } else if str_less(b.title.as_str(), a.title.as_str()) {
        Ordering::Greater
    } else {
        Ordering::Equal
    }
}

/// Whether two posts have the same title.
pub fn same_title(a: &RawPostFeatures, b: &RawPostFeatures) -> (same: bool)
    ensures
        same == (a.title@ == b.title@),
{
    str_eq(a.title.as_str(), b.title.as_str())
}

/// `sort_by` of the standard library's slices, with the titles' dictionary
/// order: afterwards the vector holds the same posts sorted by title, and
/// posts with the same title in the order they had (the sort is stable).
#[verifier::external_body]
pub(crate) fn sort_by_title(posts: &mut Vec<RawPostFeatures>)
    ensures
        stably_sorted_by_title(old(posts)@, final(posts)@),
{
    posts.sort_by(|a, b| title_order(a, b));
}

/// `dedup_by` of the crate of that name, with equality of titles: it keeps
/// the first post, and after it every post whose title differs from that of
/// the post kept last.
#[verifier::external_body]
pub(crate) fn drop_repeated_titles(posts: &mut Vec<RawPostFeatures>)
    ensures
        final(posts)@ == without_repeats(old(posts)@),
{
    dedup_by::dedup_by(posts, |a, b| same_title(a, b));
}

} // verus!
