//! Duplicate titles are considered duplicate posts: of all posts with one
//! title, only the one that came first is kept.

use vstd::prelude::*;
use vstd::utf8::encode_utf8;
use crate::reddit::RawPostFeatures;
use crate::sorting::{
    drop_repeated_titles, keeps_equal_titles_in_order, rearranges, sort_by_title, title_at,
    titles_ascend, without_repeats,
};
use crate::strings::{
    lemma_lex_asymmetric, lemma_lex_irreflexive, lemma_lex_total, lex_less, strictly_ascending,
};

verus! {

/// Place `i` holds the first post of the list with its title.
pub open spec fn is_first_with_title(posts: Seq<RawPostFeatures>, i: int) -> bool {
    &&& 0 <= i < posts.len()
    &&& forall|j: int| 0 <= j < i ==> #[trigger] title_at(posts, j) != title_at(posts, i)
}

/// Every post stands before all posts whose titles come later in the
/// dictionary, and no two posts have the same title.
pub open spec fn titles_strictly_ascend(posts: Seq<RawPostFeatures>) -> bool {
    forall|i: int, j: int|
        0 <= i < j < posts.len() ==> lex_less(
            #[trigger] title_at(posts, i),
            #[trigger] title_at(posts, j),
        )
}

/// The post at place `k` of `output` is the first post of `input` with its title.
pub open spec fn is_first_of_input(
    input: Seq<RawPostFeatures>,
    output: Seq<RawPostFeatures>,
    k: int,
) -> bool {
    exists|i: int| #[trigger] is_first_with_title(input, i) && output[k] == input[i]
}

/// Every post of `output` is the first post of `input` with its title.
pub open spec fn keeps_first_posts(
    input: Seq<RawPostFeatures>,
    output: Seq<RawPostFeatures>,
) -> bool {
    forall|k: int| 0 <= k < output.len() ==> #[trigger] is_first_of_input(input, output, k)
}

/// A post of `output` has the title `title`.
pub open spec fn has_title(output: Seq<RawPostFeatures>, title: Seq<char>) -> bool {
    exists|k: int| 0 <= k < output.len() && #[trigger] title_at(output, k) == title
}

/// Every title of `input` is the title of a post of `output`.
pub open spec fn keeps_all_titles(
    input: Seq<RawPostFeatures>,
    output: Seq<RawPostFeatures>,
) -> bool {
    forall|i: int| 0 <= i < input.len() ==> has_title(output, #[trigger] title_at(input, i))
}

/// `output` is `input` without duplicates: for each title of `input` it holds
/// the first post with that title and no other, and its posts stand in the
/// dictionary order of their titles.
pub open spec fn deduplicated(input: Seq<RawPostFeatures>, output: Seq<RawPostFeatures>) -> bool {
    &&& titles_strictly_ascend(output)
    &&& keeps_first_posts(input, output)
    &&& keeps_all_titles(input, output)
}

/// A sorted list without its last post is sorted.
proof fn lemma_front_ascends(posts: Seq<RawPostFeatures>)
    requires
        titles_ascend(posts),
        posts.len() > 0,
    ensures
        titles_ascend(posts.drop_last()),
{
    let front = posts.drop_last();
    assert forall|i: int, j: int| 0 <= i < j < front.len() implies !lex_less(
        #[trigger] title_at(front, j),
        #[trigger] title_at(front, i),
    ) by {
        assert(title_at(front, j) == title_at(posts, j));
        assert(title_at(front, i) == title_at(posts, i));
    }
}

/// In a list sorted by title, two posts with one title have that title in
/// common with every post between them.
proof fn lemma_between_equal(posts: Seq<RawPostFeatures>, i: int, m: int, j: int)
    requires
        titles_ascend(posts),
        0 <= i <= m <= j < posts.len(),
        title_at(posts, i) == title_at(posts, j),
    ensures
        title_at(posts, m) == title_at(posts, i),
{
    if i < m && m < j {
        assert(!lex_less(title_at(posts, m), title_at(posts, i)));
        assert(!lex_less(title_at(posts, j), title_at(posts, m)));
        lemma_lex_total(title_at(posts, i), title_at(posts, m));
    }
}

/// What is kept of a list ends with the title that the list ends with.
proof fn lemma_kept_last(posts: Seq<RawPostFeatures>)
    requires
        posts.len() > 0,
    ensures
        without_repeats(posts).len() > 0,
        without_repeats(posts).last().title@ == posts.last().title@,
{
}

/// Where the last post of a sorted list is kept, no post before it has its title.
proof fn lemma_new_title(posts: Seq<RawPostFeatures>)
    requires
        titles_ascend(posts),
        posts.len() > 0,
        without_repeats(posts) == without_repeats(posts.drop_last()).push(posts.last()),
        without_repeats(posts.drop_last()).len() > 0 ==> without_repeats(
            posts.drop_last(),
        ).last().title@ != posts.last().title@,
    ensures
        is_first_with_title(posts, posts.len() - 1),
{
    let front = posts.drop_last();
    let n = posts.len() - 1;
    assert forall|j: int| 0 <= j < n implies #[trigger] title_at(posts, j) != title_at(
        posts,
        n,
    ) by {
        if title_at(posts, j) == title_at(posts, n) {
            lemma_between_equal(posts, j, n - 1, n);
            lemma_kept_last(front);
            assert(front.last() == posts[n - 1]);
        }
    }
}

/// Whether the last post of a list is kept.
spec fn keeps_last(posts: Seq<RawPostFeatures>) -> bool {
    let before = without_repeats(posts.drop_last());
    !(before.len() > 0 && before.last().title@ == posts.last().title@)
}

/// Every post kept of a sorted list is the first of the list with its title.
proof fn lemma_kept_first(posts: Seq<RawPostFeatures>)
    requires
        titles_ascend(posts),
    ensures
        keeps_first_posts(posts, without_repeats(posts)),
    decreases posts.len(),
{
    let kept = without_repeats(posts);
    if posts.len() > 0 {
        let front = posts.drop_last();
        let before = without_repeats(front);
        lemma_front_ascends(posts);
        lemma_kept_first(front);
        if keeps_last(posts) {
            lemma_new_title(posts);
        }
        assert forall|k: int| 0 <= k < kept.len() implies #[trigger] is_first_of_input(
            posts,
            kept,
            k,
        ) by {
            if k < before.len() {
                assert(is_first_of_input(front, before, k));
                let i = choose|i: int|
                    #[trigger] is_first_with_title(front, i) && before[k] == front[i];
                assert forall|j: int| 0 <= j < i implies #[trigger] title_at(posts, j) != title_at(
                    posts,
                    i,
                ) by {
                    assert(title_at(front, j) != title_at(front, i));
                }
                assert(is_first_with_title(posts, i) && kept[k] == posts[i]);
            } else {
                assert(is_first_with_title(posts, posts.len() - 1) && kept[k] == posts[posts.len()
                    - 1]);
            }
        }
    }
}

/// Every title of a list is the title of a post that is kept.
proof fn lemma_kept_titles(posts: Seq<RawPostFeatures>)
    ensures
        keeps_all_titles(posts, without_repeats(posts)),
    decreases posts.len(),
{
    let kept = without_repeats(posts);
    if posts.len() > 0 {
        let front = posts.drop_last();
        let before = without_repeats(front);
        lemma_kept_titles(front);
        lemma_kept_last(posts);
        assert forall|i: int| 0 <= i < posts.len() implies has_title(
            kept,
            #[trigger] title_at(posts, i),
        ) by {
            if i < front.len() {
                assert(has_title(before, title_at(front, i)));
                let k = choose|k: int|
                    0 <= k < before.len() && #[trigger] title_at(before, k) == title_at(front, i);
                assert(title_at(kept, k) == title_at(posts, i));
            } else {
                assert(title_at(kept, kept.len() - 1) == title_at(posts, i));
            }
        }
    }
}

/// The posts kept of a sorted list have titles that ascend strictly.
proof fn lemma_kept_ascends(posts: Seq<RawPostFeatures>)
    requires
        titles_ascend(posts),
    ensures
        titles_strictly_ascend(without_repeats(posts)),
    decreases posts.len(),
{
    let kept = without_repeats(posts);
    if posts.len() > 0 {
        let front = posts.drop_last();
        let before = without_repeats(front);
        let n = posts.len() - 1;
        lemma_front_ascends(posts);
        lemma_kept_ascends(front);
        if keeps_last(posts) {
            lemma_new_title(posts);
            lemma_kept_first(front);
            assert forall|i: int, j: int| 0 <= i < j < kept.len() implies lex_less(
                #[trigger] title_at(kept, i),
                #[trigger] title_at(kept, j),
            ) by {
                if j < before.len() {
                    assert(lex_less(title_at(before, i), title_at(before, j)));
                } else {
                    assert(is_first_of_input(front, before, i));
                    let p = choose|p: int|
                        #[trigger] is_first_with_title(front, p) && before[i] == front[p];
                    assert(title_at(kept, i) == title_at(posts, p));
                    assert(title_at(kept, j) == title_at(posts, n));
                    assert(title_at(posts, p) != title_at(posts, n));
                    assert(!lex_less(title_at(posts, n), title_at(posts, p)));
                    lemma_lex_total(title_at(posts, p), title_at(posts, n));
                }
            }
        }
    }
}

/// Sorting posts by title and collapsing what then stands side by side
/// removes duplicates.
proof fn lemma_sort_then_collapse(
    input: Seq<RawPostFeatures>,
    sorted: Seq<RawPostFeatures>,
    from: Seq<int>,
)
    requires
        rearranges(from, input, sorted),
        keeps_equal_titles_in_order(from, sorted),
        titles_ascend(sorted),
    ensures
        deduplicated(input, without_repeats(sorted)),
{
    let output = without_repeats(sorted);
    lemma_kept_ascends(sorted);
    lemma_kept_first(sorted);
    lemma_kept_titles(sorted);
    assert forall|k: int| 0 <= k < output.len() implies #[trigger] is_first_of_input(
        input,
        output,
        k,
    ) by {
        assert(is_first_of_input(sorted, output, k));
        let s = choose|s: int| #[trigger] is_first_with_title(sorted, s) && output[k] == sorted[s];
        let i = from[s];
        assert(sorted[s] == input[i]);
        assert forall|j: int| 0 <= j < i implies #[trigger] title_at(input, j) != title_at(
            input,
            i,
        ) by {
            if title_at(input, j) == title_at(input, i) {
                assert(from.contains(j));
                let t = choose|t: int| 0 <= t < from.len() && from[t] == j;
                assert(sorted[t] == input[j]);
                assert(title_at(sorted, t) == title_at(sorted, s));
                if t < s {
                    assert(title_at(sorted, t) != title_at(sorted, s));
                } else if s < t {
                    assert(from[s] < from[t]);
                }
            }
        }
        assert(is_first_with_title(input, i) && output[k] == input[i]);
    }
    assert forall|i: int| 0 <= i < input.len() implies has_title(
        output,
        #[trigger] title_at(input, i),
    ) by {
        assert(from.contains(i));
        let t = choose|t: int| 0 <= t < from.len() && from[t] == i;
        assert(sorted[t] == input[i]);
        assert(has_title(output, title_at(sorted, t)));
    }
}

/// Removes duplicates: the posts are sorted by title, and of the posts with
/// one title the one that stood first is kept.
pub fn dedup_by_title(posts: Vec<RawPostFeatures>) -> (kept: Vec<RawPostFeatures>)
    ensures
        deduplicated(posts@, kept@),
{
    let mut kept = posts;
    sort_by_title(&mut kept);
    let ghost sorted = kept@;
    drop_repeated_titles(&mut kept);
    proof {
        let from = choose|from: Seq<int>|
            #![trigger rearranges(from, posts@, sorted)]
            rearranges(from, posts@, sorted) && keeps_equal_titles_in_order(from, sorted)
                && titles_ascend(sorted);
        lemma_sort_then_collapse(posts@, sorted, from);
    }
    kept
}

/// The titles of a list of posts, in their order.
pub open spec fn titles_of(posts: Seq<RawPostFeatures>) -> Seq<Seq<char>> {
    Seq::new(posts.len(), |i: int| title_at(posts, i))
}

/// Two strictly ascending lists that hold the same strings are one list.
pub proof fn lemma_ascending_unique(x: Seq<Seq<char>>, y: Seq<Seq<char>>)
    requires
        strictly_ascending(x),
        strictly_ascending(y),
        forall|i: int| 0 <= i < x.len() ==> y.contains(#[trigger] x[i]),
        forall|j: int| 0 <= j < y.len() ==> x.contains(#[trigger] y[j]),
    ensures
        x == y,
    decreases x.len(),
{
    if x.len() == 0 {
        if y.len() > 0 {
            assert(x.contains(y[0]));
        }
        assert(x =~= y);
    } else {
        let m = x.last();
        assert(y.contains(x[x.len() - 1]));
        lemma_last_is_greatest(x, y);
        let xs = x.drop_last();
        let ys = y.drop_last();
        assert forall|i: int| 0 <= i < xs.len() implies ys.contains(#[trigger] xs[i]) by {
            assert(y.contains(x[i]));
            let j = choose|j: int| 0 <= j < y.len() && y[j] == x[i];
            assert(lex_less(x[i], x[x.len() - 1]));
            lemma_lex_irreflexive(m);
            assert(ys[j] == xs[i]);
        }
        assert forall|j: int| 0 <= j < ys.len() implies xs.contains(#[trigger] ys[j]) by {
            assert(x.contains(y[j]));
            let i = choose|i: int| 0 <= i < x.len() && x[i] == y[j];
            assert(lex_less(y[j], y[y.len() - 1]));
            lemma_lex_irreflexive(m);
            assert(xs[i] == ys[j]);
        }
        assert forall|i: int, j: int| 0 <= i < j < xs.len() implies lex_less(
            #[trigger] xs[i],
            #[trigger] xs[j],
        ) by {
            assert(lex_less(x[i], x[j]));
        }
        assert forall|i: int, j: int| 0 <= i < j < ys.len() implies lex_less(
            #[trigger] ys[i],
            #[trigger] ys[j],
        ) by {
            assert(lex_less(y[i], y[j]));
        }
        lemma_ascending_unique(xs, ys);
        assert(x =~= xs.push(m));
        assert(y =~= ys.push(m));
    }
}

/// Of two strictly ascending lists that hold the same strings, both end
/// with the same string.
proof fn lemma_last_is_greatest(x: Seq<Seq<char>>, y: Seq<Seq<char>>)
    requires
        x.len() > 0,
        strictly_ascending(x),
        strictly_ascending(y),
        y.contains(x.last()),
        forall|j: int| 0 <= j < y.len() ==> x.contains(#[trigger] y[j]),
    ensures
        y.len() > 0,
        y.last() == x.last(),
{
    let m = x.last();
    let j = choose|j: int| 0 <= j < y.len() && y[j] == m;
    if j < y.len() - 1 {
        let top = y[y.len() - 1];
        assert(lex_less(y[j], y[y.len() - 1]));
        assert(x.contains(y[y.len() - 1]));
        let i = choose|i: int| 0 <= i < x.len() && x[i] == top;
        if i < x.len() - 1 {
            assert(lex_less(x[i], x[x.len() - 1]));
            lemma_lex_asymmetric(m, top);
        } else {
            lemma_lex_irreflexive(m);
        }
    }
}

/// Of all the posts of the input that share a title, exactly one is left.
pub proof fn lemma_duplicates_collapse(
    input: Seq<RawPostFeatures>,
    output: Seq<RawPostFeatures>,
    i: int,
    j: int,
)
    requires
        deduplicated(input, output),
        0 <= i < input.len(),
        0 <= j < input.len(),
        title_at(input, i) == title_at(input, j),
    ensures
        has_title(output, title_at(input, i)),
        forall|k: int, l: int|
            0 <= k < output.len() && 0 <= l < output.len() && #[trigger] title_at(output, k)
                == title_at(input, i) && #[trigger] title_at(output, l) == title_at(input, i)
                ==> k == l,
{
    let t = title_at(input, i);
    assert forall|k: int, l: int|
        0 <= k < output.len() && 0 <= l < output.len() && #[trigger] title_at(output, k) == t
            && #[trigger] title_at(output, l) == t implies k == l by {
        lemma_lex_irreflexive(t);
        if k < l {
            assert(lex_less(title_at(output, k), title_at(output, l)));
        } else if l < k {
            assert(lex_less(title_at(output, l), title_at(output, k)));
        }
    }
}

/// The titles that are left do not depend on the order of the input: two
/// inputs that hold the same posts in different orders are left with the
/// same titles in the same order.
pub proof fn lemma_titles_whatever_the_order(
    first: Seq<RawPostFeatures>,
    first_output: Seq<RawPostFeatures>,
    second: Seq<RawPostFeatures>,
    second_output: Seq<RawPostFeatures>,
    from: Seq<int>,
)
    requires
        deduplicated(first, first_output),
        deduplicated(second, second_output),
        rearranges(from, first, second),
    ensures
        titles_of(first_output) == titles_of(second_output),
{
    let x = titles_of(first_output);
    let y = titles_of(second_output);
    assert forall|k: int| 0 <= k < x.len() implies y.contains(#[trigger] x[k]) by {
        assert(is_first_of_input(first, first_output, k));
        let i = choose|i: int|
            #[trigger] is_first_with_title(first, i) && first_output[k] == first[i];
        assert(from.contains(i));
        let t = choose|t: int| 0 <= t < from.len() && from[t] == i;
        assert(second[t] == first[from[t]]);
        assert(has_title(second_output, title_at(second, t)));
        let l = choose|l: int|
            0 <= l < second_output.len() && #[trigger] title_at(second_output, l) == title_at(
                second,
                t,
            );
        assert(y[l] == x[k]);
    }
    assert forall|l: int| 0 <= l < y.len() implies x.contains(#[trigger] y[l]) by {
        assert(is_first_of_input(second, second_output, l));
        let t = choose|t: int|
            #[trigger] is_first_with_title(second, t) && second_output[l] == second[t];
        assert(second[t] == first[from[t]]);
        assert(has_title(first_output, title_at(first, from[t])));
        let k = choose|k: int|
            0 <= k < first_output.len() && #[trigger] title_at(first_output, k) == title_at(
                first,
                from[t],
            );
        assert(x[k] == y[l]);
    }
    assert forall|a: int, b: int| 0 <= a < b < x.len() implies lex_less(
        #[trigger] x[a],
        #[trigger] x[b],
    ) by {
        assert(lex_less(title_at(first_output, a), title_at(first_output, b)));
    }
    assert forall|a: int, b: int| 0 <= a < b < y.len() implies lex_less(
        #[trigger] y[a],
        #[trigger] y[b],
    ) by {
        assert(lex_less(title_at(second_output, a), title_at(second_output, b)));
    }
    lemma_ascending_unique(x, y);
}

/// A post whose text takes more than eight bytes.
pub open spec fn has_text() -> spec_fn(RawPostFeatures) -> bool {
    |post: RawPostFeatures| encode_utf8(post.selftext@).len() > 8
}

/// The posts with a text of more than eight bytes, in their order.
pub fn with_text(posts: Vec<RawPostFeatures>) -> (kept: Vec<RawPostFeatures>)
    ensures
        kept@ == posts@.filter(has_text()),
{
    let mut kept: Vec<RawPostFeatures> = Vec::new();
    let ghost all = posts@;
    proof {
        reveal_with_fuel(Seq::filter, 1);
        assert(all.take(0).filter(has_text()) =~= Seq::<RawPostFeatures>::empty());
    }
    for post in it: posts
        invariant
            it.seq() == all,
            kept@ == all.take(it.index()).filter(has_text()),
    {
        proof {
            let k = it.index();
            assert(all.take(k + 1) =~= all.take(k).push(post));
            all.take(k).lemma_filter_push(post, has_text());
        }
        if post.selftext.as_str().as_bytes().len() > 8 {
            kept.push(post);
        }
    }
    proof {
        assert(all.take(all.len() as int) =~= all);
    }
    kept
}

/// The posts to train on: those with a text of more than eight bytes,
/// without duplicates.
pub fn training_posts(posts: Vec<RawPostFeatures>) -> (kept: Vec<RawPostFeatures>)
    ensures
        deduplicated(posts@.filter(has_text()), kept@),
{
    dedup_by_title(with_text(posts))
}

} // verus!
