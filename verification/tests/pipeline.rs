use playrust_alert::dedup::{dedup_by_title, training_posts, with_text};
use playrust_alert::labels::{encode_subreddits, subreddit_label};
use playrust_alert::matrix::{construct_matrix, MatrixError};
use playrust_alert::patterns::CodePatterns;
use playrust_alert::pipeline::{
    assemble, extract_post_features, normalize_post_features, rust_authors, Column,
    FeatureColumns, FeatureError,
};
use playrust_alert::reddit::{ProcessedPostFeatures, RawPostFeatures};
use playrust_alert::sorting::{same_title, title_order};
use playrust_alert::util::{decode_list, encode_list};
use std::cmp::Ordering;

fn post(title: &str, text: &str, author: &str, subreddit: &str) -> RawPostFeatures {
    RawPostFeatures {
        is_self: true,
        author: author.to_string(),
        url: format!("https://example.org/{}", title),
        downs: 1,
        ups: 7,
        score: 6,
        selftext: text.to_string(),
        subreddit: subreddit.to_string(),
        title: title.to_string(),
    }
}

fn processed(seed: u64, words: usize, symbols: usize, flags: usize) -> ProcessedPostFeatures {
    ProcessedPostFeatures {
        is_self: 0,
        author_popularity: seed,
        downs: seed + 1,
        ups: seed + 2,
        score: seed + 3,
        post_len: seed + 4,
        word_freq: (0..words as u64).map(|k| 100 + seed + k).collect(),
        symbol_freq: (0..symbols as u64).map(|k| 200 + seed + k).collect(),
        regex_matches: (0..flags as u64).map(|k| 300 + seed + k).collect(),
    }
}

fn vocabulary() -> Vec<String> {
    vec!["borrow".to_string(), "lifetime".to_string(), "wipe".to_string()]
}

fn batch() -> Vec<RawPostFeatures> {
    vec![
        post("b", "fn main() { let borrow = 1; } the borrow checker", "ann", "rust"),
        post("a", "server wipe tonight, wipes are fun", "bob", "playrust"),
        post("c", "lifetimes and borrows", "ann", "rust"),
        post("d", "ann also plays", "ann", "playrust"),
        post("e", "nothing", "cy", "playrust"),
    ]
}

#[test]
fn matrix_rows_are_laid_out_in_the_documented_order() {
    let posts = vec![processed(10, 2, 3, 1), processed(20, 2, 3, 1)];
    let m = construct_matrix(&posts[..]).unwrap();
    assert_eq!(m.rows(), 2);
    assert_eq!(m.cols(), 11);
    assert_eq!(
        m.cells(),
        &vec![
            10, 11, 12, 13, 14, 110, 111, 210, 211, 212, 310, //
            20, 21, 22, 23, 24, 120, 121, 220, 221, 222, 320,
        ]
    );
    assert_eq!(m.get(0, 0), 10);
    assert_eq!(m.get(0, 4), 14);
    assert_eq!(m.get(0, 5), 110);
    assert_eq!(m.get(1, 7), 220);
    assert_eq!(m.get(1, 10), 320);
}

#[test]
fn matrix_leaves_the_self_flag_out() {
    let mut only = processed(1, 0, 0, 0);
    only.is_self = 99;
    let m = construct_matrix(&[only][..]).unwrap();
    assert_eq!(m.cols(), 5);
    assert_eq!(m.cells(), &vec![1, 2, 3, 4, 5]);
}

#[test]
fn matrix_of_no_posts_is_refused() {
    let posts: Vec<ProcessedPostFeatures> = vec![];
    assert_eq!(construct_matrix(&posts[..]).err(), Some(MatrixError::NoPosts));
}

#[test]
fn matrix_width_is_declared_by_the_last_post() {
    let posts = vec![processed(1, 2, 2, 2), processed(2, 3, 2, 2), processed(3, 2, 2, 2)];
    assert_eq!(construct_matrix(&posts[..]).err(), Some(MatrixError::RowLength { row: 1 }));
    let posts = vec![processed(1, 2, 2, 2), processed(2, 2, 2, 2), processed(3, 3, 2, 2)];
    assert_eq!(construct_matrix(&posts[..]).err(), Some(MatrixError::RowLength { row: 0 }));
}

#[test]
fn matrix_goes_by_the_length_of_the_whole_row() {
    // one word count more, one flag fewer: the row is as long as declared
    let posts = vec![processed(1, 3, 2, 1), processed(2, 2, 2, 2)];
    let m = construct_matrix(&posts[..]).unwrap();
    assert_eq!((m.rows(), m.cols()), (2, 11));
}

#[test]
fn extraction_gives_each_post_its_features() {
    let patterns = CodePatterns::new().unwrap();
    let posts = batch();
    let e = extract_post_features(&patterns, &posts[..], &vocabulary()[..]).unwrap();
    assert_eq!(e.labels, vec![0, 1, 0, 1, 1]);
    assert_eq!(e.authors, vec!["ann", "bob", "ann", "ann", "cy"]);
    assert_eq!(e.rust_authors, vec!["ann", "ann"]);
    assert_eq!(e.features.len(), 5);

    let first = &e.features[0];
    assert_eq!(first.is_self, 0);
    assert_eq!(first.author_popularity, 3);
    assert_eq!((first.downs, first.ups, first.score), (1, 7, 6));
    assert_eq!(first.post_len, 48);
    assert_eq!(first.word_freq, vec![2, 0, 0]);
    assert_eq!(first.regex_matches, vec![1, 1, 0, 0]);
    // ( ) { = ; }
    assert_eq!(first.symbol_freq.iter().sum::<u64>(), 6);

    let second = &e.features[1];
    assert_eq!(second.author_popularity, 0);
    assert_eq!(second.word_freq, vec![0, 0, 2]);
    assert_eq!(second.regex_matches, vec![0, 0, 0, 0]);

    assert_eq!(e.features[2].word_freq, vec![1, 1, 0]);
    assert_eq!(e.features[3].author_popularity, 3);
    assert_eq!(e.features[4].author_popularity, 0);
}

#[test]
fn extraction_counts_the_words_of_text_and_title() {
    let patterns = CodePatterns::new().unwrap();
    let posts = vec![post("borrow wipe", "borrow", "ann", "rust")];
    let e = extract_post_features(&patterns, &posts[..], &vocabulary()[..]).unwrap();
    assert_eq!(e.features[0].word_freq, vec![2, 0, 1]);
    // symbols and patterns are looked for in the text alone
    let posts = vec![post("fn f(x) ;;;", "plain", "ann", "rust")];
    let e = extract_post_features(&patterns, &posts[..], &vocabulary()[..]).unwrap();
    assert_eq!(e.features[0].symbol_freq, vec![0; 26]);
    assert_eq!(e.features[0].regex_matches, vec![0; 4]);
}

#[test]
fn extraction_counts_characters_not_bytes() {
    let patterns = CodePatterns::new().unwrap();
    let posts = vec![post("t", "caf\u{e9}", "ann", "rust")];
    let e = extract_post_features(&patterns, &posts[..], &vocabulary()[..]).unwrap();
    assert_eq!(e.features[0].post_len, 4);
}

#[test]
fn extraction_marks_link_posts() {
    let patterns = CodePatterns::new().unwrap();
    let mut link = post("t", "text", "ann", "rust");
    link.is_self = false;
    let e = extract_post_features(&patterns, &[link][..], &vocabulary()[..]).unwrap();
    assert_eq!(e.features[0].is_self, 1);
}

#[test]
fn extraction_refuses_an_unknown_community() {
    let patterns = CodePatterns::new().unwrap();
    let mut posts = batch();
    posts[3].subreddit = "golang".to_string();
    posts[4].subreddit = "Rust".to_string();
    assert_eq!(
        extract_post_features(&patterns, &posts[..], &vocabulary()[..]).err(),
        Some(FeatureError::UnknownSubreddit { post: 3 })
    );
    let reference = vec!["ann".to_string()];
    assert_eq!(
        normalize_post_features(&patterns, &posts[..], &reference[..], &vocabulary()[..]).err(),
        Some(FeatureError::UnknownSubreddit { post: 3 })
    );
}

#[test]
fn extraction_of_an_empty_batch_is_empty() {
    let patterns = CodePatterns::new().unwrap();
    let posts: Vec<RawPostFeatures> = vec![];
    let e = extract_post_features(&patterns, &posts[..], &vocabulary()[..]).unwrap();
    assert!(e.features.is_empty());
    assert!(e.labels.is_empty());
    assert!(e.authors.is_empty());
    assert!(e.rust_authors.is_empty());
}

#[test]
fn prediction_scores_authors_against_the_list_it_is_given() {
    let patterns = CodePatterns::new().unwrap();
    let posts = batch();
    let reference = vec!["bob".to_string(), "zed".to_string()];
    let (features, labels) =
        normalize_post_features(&patterns, &posts[..], &reference[..], &vocabulary()[..]).unwrap();
    assert_eq!(labels, vec![0, 1, 0, 1, 1]);
    let scores: Vec<u64> = features.iter().map(|f| f.author_popularity).collect();
    assert_eq!(scores, vec![0, 1, 0, 0, 0]);
    assert_eq!(features[1].word_freq, vec![0, 0, 2]);
}

#[test]
fn training_and_prediction_have_the_same_width() {
    let patterns = CodePatterns::new().unwrap();
    let words = vocabulary();
    let train = batch();
    let e = extract_post_features(&patterns, &train[..], &words[..]).unwrap();
    let trained = construct_matrix(&e.features[..]).unwrap();

    let predict = vec![post("x", "", "nobody", "rust")];
    let (features, _) =
        normalize_post_features(&patterns, &predict[..], &e.rust_authors[..], &words[..]).unwrap();
    let predicted = construct_matrix(&features[..]).unwrap();

    assert_eq!(trained.cols(), 5 + 3 + 26 + 4);
    assert_eq!(predicted.cols(), trained.cols());
    assert_eq!(trained.rows(), 5);
    assert_eq!(predicted.rows(), 1);
}

#[test]
fn reloaded_lists_reproduce_the_matrix() {
    let patterns = CodePatterns::new().unwrap();
    let words = vocabulary();
    let posts = batch();
    let e = extract_post_features(&patterns, &posts[..], &words[..]).unwrap();
    let first = construct_matrix(&e.features[..]).unwrap();

    let word_refs: Vec<&str> = words.iter().map(|w| w.as_str()).collect();
    let author_refs: Vec<&str> = e.rust_authors.iter().map(|w| w.as_str()).collect();
    let stored_words = encode_list(&word_refs[..]);
    let stored_authors = encode_list(&author_refs[..]);
    assert_eq!(stored_words, "borrow\nlifetime\nwipe\n");
    assert_eq!(stored_authors, "ann\nann\n");
    let words_again = decode_list(&stored_words);
    let authors_again = decode_list(&stored_authors);
    assert_eq!(words_again, words);
    assert_eq!(authors_again, e.rust_authors);

    let (features, labels) =
        normalize_post_features(&patterns, &posts[..], &authors_again[..], &words_again[..])
            .unwrap();
    let second = construct_matrix(&features[..]).unwrap();
    assert_eq!(first.cells(), second.cells());
    assert_eq!((first.rows(), first.cols()), (second.rows(), second.cols()));
    assert_eq!(labels, e.labels);
}

fn columns(n: usize) -> FeatureColumns {
    FeatureColumns {
        is_self: vec![0; n],
        author_popularity: vec![1; n],
        downs: vec![2; n],
        ups: vec![3; n],
        score: vec![4; n],
        post_len: vec![5; n],
        word_freq: vec![vec![6, 7]; n],
        symbol_freq: vec![vec![8]; n],
        regex_matches: vec![vec![9, 10, 11]; n],
    }
}

#[test]
fn assemble_zips_the_columns() {
    let mut c = columns(3);
    c.downs = vec![20, 21, 22];
    c.word_freq[2] = vec![60, 70];
    let posts = assemble(&c, 3).unwrap();
    assert_eq!(posts.len(), 3);
    assert_eq!(posts[1].downs, 21);
    assert_eq!(posts[1].word_freq, vec![6, 7]);
    assert_eq!(posts[2].word_freq, vec![60, 70]);
    assert_eq!(posts[2].symbol_freq, vec![8]);
    assert_eq!(posts[0].regex_matches, vec![9, 10, 11]);
    assert_eq!(
        (posts[0].is_self, posts[0].author_popularity, posts[0].ups, posts[0].score, posts[0].post_len),
        (0, 1, 3, 4, 5)
    );
}

#[test]
fn assemble_names_the_first_column_of_the_wrong_length() {
    let mismatch = |column| Some(FeatureError::LengthMismatch { column });
    let mut c = columns(3);
    c.is_self.pop();
    c.ups.pop();
    assert_eq!(assemble(&c, 3).err(), mismatch(Column::IsSelf));
    let mut c = columns(3);
    c.author_popularity.push(1);
    assert_eq!(assemble(&c, 3).err(), mismatch(Column::AuthorPopularity));
    let mut c = columns(3);
    c.downs.pop();
    assert_eq!(assemble(&c, 3).err(), mismatch(Column::Downs));
    let mut c = columns(3);
    c.ups.pop();
    assert_eq!(assemble(&c, 3).err(), mismatch(Column::Ups));
    let mut c = columns(3);
    c.score.pop();
    assert_eq!(assemble(&c, 3).err(), mismatch(Column::Score));
    let mut c = columns(3);
    c.post_len.pop();
    assert_eq!(assemble(&c, 3).err(), mismatch(Column::PostLen));
    let mut c = columns(3);
    c.word_freq.pop();
    assert_eq!(assemble(&c, 3).err(), mismatch(Column::WordFreq));
    let mut c = columns(3);
    c.symbol_freq.pop();
    assert_eq!(assemble(&c, 3).err(), mismatch(Column::SymbolFreq));
    let mut c = columns(3);
    c.regex_matches.pop();
    assert_eq!(assemble(&c, 3).err(), mismatch(Column::RegexMatches));
    assert_eq!(assemble(&columns(3), 4).err(), mismatch(Column::IsSelf));
    assert!(assemble(&columns(0), 0).unwrap().is_empty());
}

#[test]
fn rust_authors_are_those_of_the_target_community() {
    let posts = batch();
    assert_eq!(rust_authors(&posts[..]), vec!["ann", "ann"]);
    let none = vec![post("t", "x", "bob", "playrust")];
    assert!(rust_authors(&none[..]).is_empty());
}

#[test]
fn labels_are_fixed() {
    assert_eq!(subreddit_label("rust"), Some(0));
    assert_eq!(subreddit_label("playrust"), Some(1));
    assert_eq!(subreddit_label("Rust"), None);
    assert_eq!(subreddit_label(""), None);
    assert_eq!(subreddit_label("rusty"), None);
    assert_eq!(encode_subreddits(&["playrust", "rust", "rust"][..]), Ok(vec![1, 0, 0]));
    assert_eq!(encode_subreddits(&["playrust", "go", "rust", "c"][..]), Err(1));
    let none: Vec<&str> = vec![];
    assert_eq!(encode_subreddits(&none[..]), Ok(vec![]));
}

fn titles(posts: &[RawPostFeatures]) -> Vec<&str> {
    posts.iter().map(|p| p.title.as_str()).collect()
}

#[test]
fn duplicates_collapse_to_the_first_post() {
    let posts = vec![
        post("same", "first body", "ann", "rust"),
        post("same", "second body", "bob", "rust"),
    ];
    let kept = dedup_by_title(posts);
    assert_eq!(kept.len(), 1);
    assert_eq!(kept[0].selftext, "first body");
    assert_eq!(kept[0].author, "ann");
}

#[test]
fn duplicates_collapse_whatever_the_order() {
    let a = || post("b", "body a", "ann", "rust");
    let b = || post("b", "body b", "bob", "rust");
    let c = || post("a", "body c", "cy", "rust");
    let d = || post("c", "body d", "dee", "rust");
    let one = dedup_by_title(vec![a(), b(), c(), d(), b()]);
    let two = dedup_by_title(vec![d(), b(), c(), a()]);
    assert_eq!(titles(&one), vec!["a", "b", "c"]);
    assert_eq!(titles(&two), vec!["a", "b", "c"]);
    assert_eq!(one[1].selftext, "body a");
    assert_eq!(two[1].selftext, "body b");
}

#[test]
fn dedup_sorts_by_title() {
    let posts = vec![
        post("pear", "1", "a", "rust"),
        post("Apple", "2", "a", "rust"),
        post("", "3", "a", "rust"),
        post("apple", "4", "a", "rust"),
        post("pea", "5", "a", "rust"),
        post("", "6", "a", "rust"),
        post("\u{e9}clair", "7", "a", "rust"),
    ];
    let kept = dedup_by_title(posts);
    assert_eq!(titles(&kept), vec!["", "Apple", "apple", "pea", "pear", "\u{e9}clair"]);
    assert_eq!(kept[0].selftext, "3");
    assert!(dedup_by_title(vec![]).is_empty());
}

#[test]
fn short_texts_are_left_out_of_training() {
    let posts = vec![
        post("b", "12345678", "a", "rust"),
        post("a", "123456789", "a", "rust"),
        post("c", "1234567\u{e9}", "a", "rust"),
        post("a", "another long text", "a", "rust"),
        post("d", "", "a", "rust"),
    ];
    let kept = with_text(posts.clone());
    assert_eq!(titles(&kept), vec!["a", "c", "a"]);
    let kept = training_posts(posts);
    assert_eq!(titles(&kept), vec!["a", "c"]);
    assert_eq!(kept[0].selftext, "123456789");
}

#[test]
fn titles_compare_by_their_characters() {
    let a = post("abc", "", "", "");
    let b = post("abd", "", "", "");
    let c = post("ab", "", "", "");
    assert_eq!(title_order(&a, &b), Ordering::Less);
    assert_eq!(title_order(&b, &a), Ordering::Greater);
    assert_eq!(title_order(&a, &a.clone()), Ordering::Equal);
    assert_eq!(title_order(&c, &a), Ordering::Less);
    assert_eq!(title_order(&a, &c), Ordering::Greater);
    assert!(same_title(&a, &a.clone()));
    assert!(!same_title(&a, &b));
    assert!(!same_title(&a, &c));
}
