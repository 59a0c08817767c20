//! From a batch of raw posts to the features of each post.
//!
//! The features of a post depend on the post, on the authors of the whole
//! batch, on the reference list of authors, on the vocabulary and on the code
//! patterns, and on nothing else.

use vstd::prelude::*;
use vstd::string::StringExecFns;
use crate::feature_extraction::{
    check_for_code, convert_author_to_popularity, convert_is_self, interesting_word_freq,
    popularity, symbol_counts, word_counts,
};
use crate::labels::{
    encode_subreddits, first_unknown, fixed_label, rust_name, subreddit_label, RUST_LABEL,
};
use crate::matrix::{all_rows_fit, declared_width, row_of, rows_of, SCALAR_COLUMNS};
use crate::util::{decoded_lines, encoded_list, is_line, lemma_list_round_trip};
use crate::patterns::{pattern_flags, CodePatterns};
use crate::reddit::{ProcessedPostFeatures, ProcessedPostView, RawPostFeatures, RawPostView};
use crate::strings::{borrow_all, char_count, own_all, str_views, string_views};
use crate::symbols::{as_counts, symbol_tally, SYMBOL_COUNT};
use crate::text::normalized_words;

verus! {

/// The columns of per-post values, one entry per post in each.
pub struct FeatureColumns {
    pub is_self: Vec<u64>,
    pub author_popularity: Vec<u64>,
    pub downs: Vec<u64>,
    pub ups: Vec<u64>,
    pub score: Vec<u64>,
    pub post_len: Vec<u64>,
    pub word_freq: Vec<Vec<u64>>,
    pub symbol_freq: Vec<Vec<u64>>,
    pub regex_matches: Vec<Vec<u64>>,
}

/// A column of per-post values.
#[derive(Debug, Clone, Copy, PartialEq, Eq, Structural)]
pub enum Column {
    IsSelf,
    AuthorPopularity,
    Downs,
    Ups,
    Score,
    PostLen,
    WordFreq,
    SymbolFreq,
    RegexMatches,
}

/// Why a batch has no features.
#[derive(Debug, Clone, Copy, PartialEq, Eq, Structural)]
pub enum FeatureError {
    /// The community of this post is neither of the two that have a label.
    UnknownSubreddit { post: usize },
    /// This column does not have one entry per post.
    LengthMismatch { column: Column },
}

/// The first column, in the order of the fields, that does not have `n`
/// entries.
pub open spec fn first_short_column(c: &FeatureColumns, n: nat) -> Option<Column> {
    if c.is_self@.len() != n {
        Some(Column::IsSelf)
    } else if c.author_popularity@.len() != n {
        Some(Column::AuthorPopularity)
    } else if c.downs@.len() != n {
        Some(Column::Downs)
    } else if c.ups@.len() != n {
        Some(Column::Ups)
    } else if c.score@.len() != n {
        Some(Column::Score)
    } else if c.post_len@.len() != n {
        Some(Column::PostLen)
    } else if c.word_freq@.len() != n {
        Some(Column::WordFreq)
    } else if c.symbol_freq@.len() != n {
        Some(Column::SymbolFreq)
    } else if c.regex_matches@.len() != n {
        Some(Column::RegexMatches)
    } else {
        None
    }
}

/// The entries of place `i` of all columns, as the features of one post.
pub open spec fn zipped(c: &FeatureColumns, i: int) -> ProcessedPostView {
    ProcessedPostView {
        is_self: c.is_self@[i],
        author_popularity: c.author_popularity@[i],
        downs: c.downs@[i],
        ups: c.ups@[i],
        score: c.score@[i],
        post_len: c.post_len@[i],
        word_freq: c.word_freq@[i]@,
        symbol_freq: c.symbol_freq@[i]@,
        regex_matches: c.regex_matches@[i]@,
    }
}

/// A copy of a row.
fn copy_row(row: &Vec<u64>) -> (copy: Vec<u64>)
    ensures
        copy@ == row@,
{
    let mut copy: Vec<u64> = Vec::new();
    let mut k: usize = 0;
    while k < row.len()
        invariant
            k <= row@.len(),
            copy@ == row@.take(k as int),
        decreases row@.len() - k,
    {
        copy.push(row[k]);
        assert(row@.take(k + 1) =~= row@.take(k as int).push(row@[k as int]));
        k = k + 1;
    }
    assert(row@.take(row@.len() as int) =~= row@);
    copy
}

/// Zips the columns into one record per post, in the order of the posts.
///
/// Every column must have exactly `post_count` entries.  Where one does not,
/// nothing is cut or filled up: the batch is refused, and the error names the
/// first such column.
pub fn assemble(columns: &FeatureColumns, post_count: usize) -> (posts: Result<
    Vec<ProcessedPostFeatures>,
    FeatureError,
>)
    ensures
        match posts {
            Ok(p) => {
                &&& first_short_column(columns, post_count as nat) is None
                &&& p@.len() == post_count
                &&& forall|i: int| 0 <= i < post_count ==> (#[trigger] p@[i])@ == zipped(columns, i)
            },
            Err(FeatureError::LengthMismatch { column }) => first_short_column(
                columns,
                post_count as nat,
            ) == Some(column),
            Err(FeatureError::UnknownSubreddit { .. }) => false,
        },
{
    if columns.is_self.len() != post_count {
        return Err(FeatureError::LengthMismatch { column: Column::IsSelf });
    }
    if columns.author_popularity.len() != post_count {
        return Err(FeatureError::LengthMismatch { column: Column::AuthorPopularity });
    }
    if columns.downs.len() != post_count {
        return Err(FeatureError::LengthMismatch { column: Column::Downs });
    }
    if columns.ups.len() != post_count {
        return Err(FeatureError::LengthMismatch { column: Column::Ups });
    }
    if columns.score.len() != post_count {
        return Err(FeatureError::LengthMismatch { column: Column::Score });
    }
    if columns.post_len.len() != post_count {
        return Err(FeatureError::LengthMismatch { column: Column::PostLen });
    }
    if columns.word_freq.len() != post_count {
        return Err(FeatureError::LengthMismatch { column: Column::WordFreq });
    }
    if columns.symbol_freq.len() != post_count {
        return Err(FeatureError::LengthMismatch { column: Column::SymbolFreq });
    }
    if columns.regex_matches.len() != post_count {
        return Err(FeatureError::LengthMismatch { column: Column::RegexMatches });
    }
    let mut posts: Vec<ProcessedPostFeatures> = Vec::new();
    let mut i: usize = 0;
    while i < post_count
        invariant
            i <= post_count,
            first_short_column(columns, post_count as nat) is None,
            posts@.len() == i,
            forall|k: int| 0 <= k < i ==> (#[trigger] posts@[k])@ == zipped(columns, k),
        decreases post_count - i,
    {
        let post = ProcessedPostFeatures {
            is_self: columns.is_self[i],
            author_popularity: columns.author_popularity[i],
            downs: columns.downs[i],
            ups: columns.ups[i],
            score: columns.score[i],
            post_len: columns.post_len[i],
            word_freq: copy_row(&columns.word_freq[i]),
            symbol_freq: copy_row(&columns.symbol_freq[i]),
            regex_matches: copy_row(&columns.regex_matches[i]),
        };
        assert(post@ == zipped(columns, i as int));
        posts.push(post);
        i = i + 1;
    }
    Ok(posts)
}

/// The text that words are counted in: the post's text, a space, its title.
pub open spec fn combined_text(post: RawPostView) -> Seq<char> {
    post.selftext + seq![' '] + post.title
}

/// The author of each post.
pub open spec fn authors_of(batch: Seq<RawPostFeatures>) -> Seq<Seq<char>> {
    Seq::new(batch.len(), |i: int| batch[i].author@)
}

/// Whether a post belongs to the target community.
pub open spec fn in_rust() -> spec_fn(RawPostFeatures) -> bool {
    |post: RawPostFeatures| post.subreddit@ == rust_name()
}

/// The authors of the posts of the target community, in batch order.
pub open spec fn rust_authors_of(batch: Seq<RawPostFeatures>) -> Seq<Seq<char>> {
    authors_of(batch.filter(in_rust()))
}

/// The features that post `i` of a batch has, given the reference list of
/// authors, the vocabulary and the patterns.
pub open spec fn has_features_of(
    features: ProcessedPostView,
    batch: Seq<RawPostFeatures>,
    i: int,
    reference: Seq<Seq<char>>,
    vocabulary: Seq<Seq<char>>,
    sources: Seq<Seq<char>>,
) -> bool {
    let post = batch[i]@;
    &&& features.is_self == if post.is_self {
        0u64
    } else {
        1u64
    }
    &&& features.author_popularity == popularity(authors_of(batch), reference)[i]
    &&& features.downs == post.downs
    &&& features.ups == post.ups
    &&& features.score == post.score
    &&& features.post_len == post.selftext.len()
    &&& as_counts(features.word_freq) == word_counts(
        normalized_words(combined_text(post)),
        vocabulary,
    )
    &&& as_counts(features.symbol_freq) == symbol_tally(post.selftext)
    &&& features.regex_matches == pattern_flags(sources, post.selftext)
}

/// Every post of `features` has the features of the post at its place in
/// `batch`.
pub open spec fn are_features_of(
    features: Seq<ProcessedPostFeatures>,
    batch: Seq<RawPostFeatures>,
    reference: Seq<Seq<char>>,
    vocabulary: Seq<Seq<char>>,
    sources: Seq<Seq<char>>,
) -> bool {
    &&& features.len() == batch.len()
    &&& forall|i: int|
        0 <= i < batch.len() ==> has_features_of(
            (#[trigger] features[i])@,
            batch,
            i,
            reference,
            vocabulary,
            sources,
        )
}

/// The label of each post's community.
pub open spec fn are_labels_of(labels: Seq<u64>, batch: Seq<RawPostFeatures>) -> bool {
    &&& labels.len() == batch.len()
    &&& forall|i: int|
        0 <= i < batch.len() ==> fixed_label(batch[i].subreddit@) == Some(#[trigger] labels[i])
}

/// The community of each post.
pub open spec fn subreddits_of(batch: Seq<RawPostFeatures>) -> Seq<Seq<char>> {
    Seq::new(batch.len(), |i: int| batch[i].subreddit@)
}

/// The width of the row of a post with the features that the pipeline gives
/// it: five single values, one count per vocabulary word, one per symbol, and
/// one flag per pattern.
pub open spec fn row_width(vocabulary: Seq<Seq<char>>, sources: Seq<Seq<char>>) -> nat {
    SCALAR_COLUMNS as nat + vocabulary.len() + SYMBOL_COUNT as nat + sources.len()
}

/// A post's row is as wide as vocabulary, alphabet and patterns make it,
/// whatever the post holds.
pub proof fn lemma_row_width(
    features: ProcessedPostView,
    batch: Seq<RawPostFeatures>,
    i: int,
    reference: Seq<Seq<char>>,
    vocabulary: Seq<Seq<char>>,
    sources: Seq<Seq<char>>,
)
    requires
        has_features_of(features, batch, i, reference, vocabulary, sources),
    ensures
        row_of(features).len() == row_width(vocabulary, sources),
{
    assert(as_counts(features.word_freq).len() == vocabulary.len());
    assert(as_counts(features.symbol_freq).len() == SYMBOL_COUNT);
}

/// Two batches whose features were extracted with the same vocabulary and
/// the same patterns, be it for training or for prediction and whatever
/// their posts and reference lists, declare the same matrix width, and
/// every row of both has it.
pub proof fn lemma_same_width(
    first: Seq<ProcessedPostFeatures>,
    first_batch: Seq<RawPostFeatures>,
    first_reference: Seq<Seq<char>>,
    second: Seq<ProcessedPostFeatures>,
    second_batch: Seq<RawPostFeatures>,
    second_reference: Seq<Seq<char>>,
    vocabulary: Seq<Seq<char>>,
    sources: Seq<Seq<char>>,
)
    requires
        are_features_of(first, first_batch, first_reference, vocabulary, sources),
        are_features_of(second, second_batch, second_reference, vocabulary, sources),
        first.len() > 0,
        second.len() > 0,
    ensures
        declared_width(first) == declared_width(second),
        declared_width(first) == row_width(vocabulary, sources),
        all_rows_fit(first),
        all_rows_fit(second),
{
    assert forall|k: int| 0 <= k < first.len() implies (#[trigger] row_of(first[k]@)).len()
        == row_width(vocabulary, sources) by {
        lemma_row_width(first[k]@, first_batch, k, first_reference, vocabulary, sources);
    }
    assert forall|k: int| 0 <= k < second.len() implies (#[trigger] row_of(second[k]@)).len()
        == row_width(vocabulary, sources) by {
        lemma_row_width(second[k]@, second_batch, k, second_reference, vocabulary, sources);
    }
    assert(row_of(first[first.len() - 1]@).len() == row_width(vocabulary, sources));
    assert(row_of(second[second.len() - 1]@).len() == row_width(vocabulary, sources));
}

/// A row of cells is known by the counts that it holds.
proof fn lemma_counts_tell_cells(a: Seq<u64>, b: Seq<u64>)
    requires
        as_counts(a) == as_counts(b),
    ensures
        a == b,
{
    assert(a.len() == as_counts(a).len());
    assert(b.len() == as_counts(b).len());
    assert forall|j: int| 0 <= j < a.len() implies a[j] == b[j] by {
        assert(as_counts(a)[j] == a[j] as nat);
        assert(as_counts(b)[j] == b[j] as nat);
    }
    assert(a =~= b);
}

/// The features of a post are determined by the batch, the reference list,
/// the vocabulary and the patterns.
pub proof fn lemma_features_determined(
    first: ProcessedPostView,
    second: ProcessedPostView,
    batch: Seq<RawPostFeatures>,
    i: int,
    reference: Seq<Seq<char>>,
    vocabulary: Seq<Seq<char>>,
    sources: Seq<Seq<char>>,
)
    requires
        0 <= i < batch.len(),
        has_features_of(first, batch, i, reference, vocabulary, sources),
        has_features_of(second, batch, i, reference, vocabulary, sources),
    ensures
        first == second,
{
    lemma_counts_tell_cells(first.word_freq, second.word_freq);
    lemma_counts_tell_cells(first.symbol_freq, second.symbol_freq);
}

/// Extraction gives the same matrix rows again after the reference list and
/// the vocabulary were written out and read back, as long as no entry of
/// either holds a line feed or ends with a carriage return.
pub proof fn lemma_reloaded_lists_give_same_rows(
    first: Seq<ProcessedPostFeatures>,
    second: Seq<ProcessedPostFeatures>,
    batch: Seq<RawPostFeatures>,
    reference: Seq<Seq<char>>,
    vocabulary: Seq<Seq<char>>,
    sources: Seq<Seq<char>>,
)
    requires
        forall|i: int| 0 <= i < reference.len() ==> is_line(#[trigger] reference[i]),
        forall|i: int| 0 <= i < vocabulary.len() ==> is_line(#[trigger] vocabulary[i]),
        are_features_of(first, batch, reference, vocabulary, sources),
        are_features_of(
            second,
            batch,
            decoded_lines(encoded_list(reference)),
            decoded_lines(encoded_list(vocabulary)),
            sources,
        ),
    ensures
        decoded_lines(encoded_list(reference)) == reference,
        decoded_lines(encoded_list(vocabulary)) == vocabulary,
        rows_of(first) == rows_of(second),
{
    lemma_list_round_trip(reference);
    lemma_list_round_trip(vocabulary);
    assert forall|i: int| 0 <= i < batch.len() implies rows_of(first)[i] == rows_of(second)[i] by {
        lemma_features_determined(first[i]@, second[i]@, batch, i, reference, vocabulary, sources);
    }
    assert(rows_of(first) =~= rows_of(second));
}

/// The text of each post.
pub open spec fn texts_of(batch: Seq<RawPostFeatures>) -> Seq<Seq<char>> {
    Seq::new(batch.len(), |i: int| batch[i].selftext@)
}

/// The combined text of each post.
pub open spec fn combined_texts_of(batch: Seq<RawPostFeatures>) -> Seq<Seq<char>> {
    Seq::new(batch.len(), |i: int| combined_text(batch[i]@))
}

/// The strings of a batch, column by column.
struct BatchStrings<'a> {
    authors: Vec<&'a str>,
    texts: Vec<&'a str>,
    subreddits: Vec<&'a str>,
    combined: Vec<String>,
}

/// Reads the strings of a batch into columns.
fn batch_strings<'a>(batch: &'a [RawPostFeatures]) -> (columns: BatchStrings<'a>)
    ensures
        str_views(columns.authors@) == authors_of(batch@),
        str_views(columns.texts@) == texts_of(batch@),
        str_views(columns.subreddits@) == subreddits_of(batch@),
        string_views(columns.combined@) == combined_texts_of(batch@),
{
    let mut authors: Vec<&'a str> = Vec::new();
    let mut texts: Vec<&'a str> = Vec::new();
    let mut subreddits: Vec<&'a str> = Vec::new();
    let mut combined: Vec<String> = Vec::new();
    let mut i: usize = 0;
    while i < batch.len()
        invariant
            i <= batch@.len(),
            authors@.len() == i,
            texts@.len() == i,
            subreddits@.len() == i,
            combined@.len() == i,
            forall|k: int| 0 <= k < i ==> (#[trigger] authors@[k])@ == batch@[k].author@,
            forall|k: int| 0 <= k < i ==> (#[trigger] texts@[k])@ == batch@[k].selftext@,
            forall|k: int| 0 <= k < i ==> (#[trigger] subreddits@[k])@ == batch@[k].subreddit@,
            forall|k: int| 0 <= k < i ==> (#[trigger] combined@[k])@ == combined_text(batch@[k]@),
        decreases batch@.len() - i,
    {
        let post = &batch[i];
        authors.push(post.author.as_str());
        texts.push(post.selftext.as_str());
        subreddits.push(post.subreddit.as_str());
        let mut both = String::new();
        both.append(post.selftext.as_str());
        both.append(" ");
        both.append(post.title.as_str());
        proof {
            reveal_strlit(" ");
            assert(" "@ =~= seq![' ']);
            assert(both@ =~= combined_text(post@));
        }
        combined.push(both);
        i = i + 1;
    }
    proof {
        assert(str_views(authors@) =~= authors_of(batch@));
        assert(str_views(texts@) =~= texts_of(batch@));
        assert(str_views(subreddits@) =~= subreddits_of(batch@));
        assert(string_views(combined@) =~= combined_texts_of(batch@));
    }
    BatchStrings { authors, texts, subreddits, combined }
}

/// The authors of the posts of the target community.
pub fn rust_authors<'a>(batch: &'a [RawPostFeatures]) -> (authors: Vec<&'a str>)
    ensures
        str_views(authors@) == rust_authors_of(batch@),
{
    let mut authors: Vec<&'a str> = Vec::new();
    let mut i: usize = 0;
    proof {
        reveal_with_fuel(Seq::filter, 1);
        assert(batch@.take(0).filter(in_rust()) =~= Seq::<RawPostFeatures>::empty());
        assert(str_views(authors@) =~= rust_authors_of(batch@.take(0)));
    }
    while i < batch.len()
        invariant
            i <= batch@.len(),
            str_views(authors@) == rust_authors_of(batch@.take(i as int)),
        decreases batch@.len() - i,
    {
        let post = &batch[i];
        let ghost before = authors@;
        proof {
            assert(batch@.take(i + 1) =~= batch@.take(i as int).push(batch@[i as int]));
            batch@.take(i as int).lemma_filter_push(batch@[i as int], in_rust());
        }
        if subreddit_label(post.subreddit.as_str()) == Some(RUST_LABEL) {
            authors.push(post.author.as_str());
            proof {
                let chosen = batch@.take(i as int).filter(in_rust());
                assert(authors_of(chosen.push(batch@[i as int])) =~= authors_of(chosen).push(
                    batch@[i as int].author@,
                ));
                assert(str_views(authors@) =~= str_views(before).push(batch@[i as int].author@));
            }
        }
        i = i + 1;
    }
    proof {
        assert(batch@.take(batch@.len() as int) =~= batch@);
    }
    authors
}

/// The features and labels of a batch, against a given reference list.
fn features_for(
    patterns: &CodePatterns,
    raw_posts: &[RawPostFeatures],
    strings: &BatchStrings,
    reference: &[&str],
    interesting_words: &[String],
) -> (extracted: Result<(Vec<ProcessedPostFeatures>, Vec<u64>), FeatureError>)
    requires
        str_views(strings.authors@) == authors_of(raw_posts@),
        str_views(strings.texts@) == texts_of(raw_posts@),
        str_views(strings.subreddits@) == subreddits_of(raw_posts@),
        string_views(strings.combined@) == combined_texts_of(raw_posts@),
    ensures
        match extracted {
            Ok((features, labels)) => {
                &&& are_features_of(
                    features@,
                    raw_posts@,
                    str_views(reference@),
                    string_views(interesting_words@),
                    patterns.sources(),
                )
                &&& are_labels_of(labels@, raw_posts@)
            },
            Err(FeatureError::UnknownSubreddit { post }) => first_unknown(
                subreddits_of(raw_posts@),
                post as int,
            ),
            Err(FeatureError::LengthMismatch { .. }) => false,
        },
{
    let labels = match encode_subreddits(strings.subreddits.as_slice()) {
        Ok(labels) => labels,
        Err(post) => {
            return Err(FeatureError::UnknownSubreddit { post });
        },
    };
    let combined = borrow_all(strings.combined.as_slice());
    let word_freq = interesting_word_freq(combined.as_slice(), interesting_words);
    let symbol_freq = symbol_counts(strings.texts.as_slice());
    let regex_matches = check_for_code(patterns, strings.texts.as_slice());
    let author_popularity = convert_author_to_popularity(strings.authors.as_slice(), reference);
    let n = raw_posts.len();
    let mut is_self: Vec<u64> = Vec::new();
    let mut downs: Vec<u64> = Vec::new();
    let mut ups: Vec<u64> = Vec::new();
    let mut score: Vec<u64> = Vec::new();
    let mut post_len: Vec<u64> = Vec::new();
    let mut i: usize = 0;
    while i < n
        invariant
            n == raw_posts@.len(),
            i <= n,
            is_self@.len() == i,
            downs@.len() == i,
            ups@.len() == i,
            score@.len() == i,
            post_len@.len() == i,
            forall|k: int|
                0 <= k < i ==> #[trigger] is_self@[k] == if raw_posts@[k].is_self {
                    0u64
                } else {
                    1u64
                },
            forall|k: int| 0 <= k < i ==> #[trigger] downs@[k] == raw_posts@[k].downs,
            forall|k: int| 0 <= k < i ==> #[trigger] ups@[k] == raw_posts@[k].ups,
            forall|k: int| 0 <= k < i ==> #[trigger] score@[k] == raw_posts@[k].score,
            forall|k: int| 0 <= k < i ==> #[trigger] post_len@[k] == raw_posts@[k].selftext@.len(),
        decreases n - i,
    {
        let post = &raw_posts[i];
        is_self.push(convert_is_self(post.is_self));
        downs.push(post.downs);
        ups.push(post.ups);
        score.push(post.score);
        post_len.push(char_count(post.selftext.as_str()) as u64);
        i = i + 1;
    }
    let columns = FeatureColumns {
        is_self,
        author_popularity,
        downs,
        ups,
        score,
        post_len,
        word_freq,
        symbol_freq,
        regex_matches,
    };
    proof {
        assert(as_counts(columns.author_popularity@).len() == n);
        assert(str_views(strings.texts@).len() == n);
        assert(str_views(combined@).len() == n);
        assert(str_views(strings.subreddits@).len() == n);
    }
    let features = match assemble(&columns, n) {
        Ok(features) => features,
        Err(e) => {
            return Err(e);
        },
    };
    proof {
        let batch = raw_posts@;
        let listing = string_views(interesting_words@);
        assert forall|k: int| 0 <= k < n implies has_features_of(
            (#[trigger] features@[k])@,
            batch,
            k,
            str_views(reference@),
            listing,
            patterns.sources(),
        ) by {
            assert(features@[k]@ == zipped(&columns, k));
            assert(str_views(strings.texts@)[k] == batch[k].selftext@);
            assert(str_views(combined@)[k] == combined_text(batch[k]@));
            assert(as_counts(columns.author_popularity@)[k] == popularity(
                authors_of(batch),
                str_views(reference@),
            )[k]);
            assert(as_counts(columns.word_freq@[k]@) == word_counts(
                normalized_words(combined@[k]@),
                listing,
            ));
            assert(as_counts(columns.symbol_freq@[k]@) == symbol_tally(strings.texts@[k]@));
        }
        assert forall|k: int| 0 <= k < n implies fixed_label(batch[k].subreddit@) == Some(
            #[trigger] labels@[k],
        ) by {
            assert(str_views(strings.subreddits@)[k] == batch[k].subreddit@);
        }
    }
    Ok((features, labels))
}

/// What training takes from a batch.
pub struct Extraction {
    /// The features of each post, in batch order.
    pub features: Vec<ProcessedPostFeatures>,
    /// The label of each post's community, in batch order.
    pub labels: Vec<u64>,
    /// The author of each post, in batch order.
    pub authors: Vec<String>,
    /// The authors of the posts of the target community, in batch order.  This
    /// is the reference list; prediction has to use the same.
    pub rust_authors: Vec<String>,
}

/// The features and labels of a training batch.
///
/// The reference list of authors is taken from the batch itself: the authors
/// of its posts in the target community.  A batch with a post of a community
/// other than the two known ones is refused, and the error names the first
/// such post.
pub fn extract_post_features(
    patterns: &CodePatterns,
    raw_posts: &[RawPostFeatures],
    interesting_words: &[String],
) -> (extracted: Result<Extraction, FeatureError>)
    ensures
        match extracted {
            Ok(e) => {
                &&& are_features_of(
                    e.features@,
                    raw_posts@,
                    rust_authors_of(raw_posts@),
                    string_views(interesting_words@),
                    patterns.sources(),
                )
                &&& are_labels_of(e.labels@, raw_posts@)
                &&& string_views(e.authors@) == authors_of(raw_posts@)
                &&& string_views(e.rust_authors@) == rust_authors_of(raw_posts@)
            },
            Err(FeatureError::UnknownSubreddit { post }) => first_unknown(
                subreddits_of(raw_posts@),
                post as int,
            ),
            Err(FeatureError::LengthMismatch { .. }) => false,
        },
{
    let strings = batch_strings(raw_posts);
    let reference = rust_authors(raw_posts);
    match features_for(patterns, raw_posts, &strings, reference.as_slice(), interesting_words) {
        Ok((features, labels)) => {
            Ok(
                Extraction {
                    features,
                    labels,
                    authors: own_all(strings.authors.as_slice()),
                    rust_authors: own_all(reference.as_slice()),
                },
            )
        },
        Err(e) => Err(e),
    }
}

/// The features and labels of a batch at prediction time, against the
/// reference list of authors that training has left behind.
///
/// A batch with a post of a community other than the two known ones is
/// refused, and the error names the first such post.
pub fn normalize_post_features(
    patterns: &CodePatterns,
    raw_posts: &[RawPostFeatures],
    rust_authors: &[String],
    interesting_words: &[String],
) -> (extracted: Result<(Vec<ProcessedPostFeatures>, Vec<u64>), FeatureError>)
    ensures
        match extracted {
            Ok((features, labels)) => {
                &&& are_features_of(
                    features@,
                    raw_posts@,
                    string_views(rust_authors@),
                    string_views(interesting_words@),
                    patterns.sources(),
                )
                &&& are_labels_of(labels@, raw_posts@)
            },
            Err(FeatureError::UnknownSubreddit { post }) => first_unknown(
                subreddits_of(raw_posts@),
                post as int,
            ),
            Err(FeatureError::LengthMismatch { .. }) => false,
        },
{
    let strings = batch_strings(raw_posts);
    let reference = borrow_all(rust_authors);
    features_for(patterns, raw_posts, &strings, reference.as_slice(), interesting_words)
}

} // verus!
