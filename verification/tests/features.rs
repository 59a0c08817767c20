use playrust_alert::feature_extraction::{
    check_for_code, convert_author_to_popularity, convert_is_self, depluralize, get_words,
    interesting_word_freq, should_replace, subs_to_float, symbol_counts,
};
use playrust_alert::patterns::{bool_to_flag, flags_of, CodePattern, CodePatterns, PatternError};
use playrust_alert::symbols::symbols;

fn floats(row: &[u64]) -> Vec<f32> {
    row.iter().map(|v| *v as f32).collect()
}

fn code_sample() -> &'static str {
    "Hey I need help with this function: pub fn get_stuff1(thing: &str) -> \
                          String {
                          let mut x: Option<_> = {Some(\"False\")};

                          if let Some(s) = match x {
                              println!(\"{:?}\", s);
                          }

                          return x;
                        }"
}

#[test]
fn test_rust_code_search() {
    let texts = vec![code_sample()];
    let patterns = CodePatterns::new().unwrap();
    let r = check_for_code(&patterns, &texts[..]);
    assert_eq!(floats(&r[0]), vec![1f32, 1f32, 1f32, 1f32]);
}

#[test]
fn test_symbol_freq() {
    let texts = vec![code_sample()];
    let s = symbol_counts(&texts[..]);
    assert_eq!(
        floats(&s[0]),
        vec![
            2f32, 1f32, 3f32, 4f32, 1f32, 1f32, 0f32, 4f32, 4f32, 0f32, 0f32, 4f32, 4f32, 0f32,
            0f32, 0f32, 1f32, 0f32, 0f32, 0f32, 1f32, 2f32, 2f32, 0f32, 0f32, 0f32
        ]
    );
}

#[test]
fn test_author_popularity() {
    let authors = vec!["steveklabnik", "staticassert", "illogiq", "illogiq"];
    let popularity = vec![1f32, 1f32, 2f32, 2f32];

    assert_eq!(
        floats(&convert_author_to_popularity(&authors[..], &authors[..])),
        popularity
    );
}

#[test]
fn test_word_freq() {
    let texts = vec!["the lazy brown fox jumped quickly = over the lazy fence"];
    let interesting_words = vec![
        "fence".to_owned(),
        "juniper".to_owned(),
        "lazy".to_owned(),
        "orange".to_owned(),
        "quickly".to_owned(),
    ];

    let expected = vec![1f32, 0f32, 2f32, 0f32, 1f32];

    let frequencies = interesting_word_freq(&texts[..], &interesting_words[..]);

    assert_eq!(expected, floats(&frequencies[0]));
}

#[test]
fn test_subs_to_float() {
    let subs = vec!["a", "b", "c", "c", "b", "d", "a"];
    assert_eq!(
        vec![0f32, 1f32, 2f32, 2f32, 1f32, 3f32, 0f32],
        floats(&subs_to_float(&subs[..]))
    )
}

#[test]
fn word_freq_without_the_equals_sign() {
    let texts = vec!["the lazy brown fox jumped quickly over the lazy fence"];
    let vocabulary: Vec<String> =
        ["fence", "juniper", "lazy", "orange", "quickly"].iter().map(|w| w.to_string()).collect();
    let rows = interesting_word_freq(&texts[..], &vocabulary[..]);
    assert_eq!(rows, vec![vec![1, 0, 2, 0, 1]]);
}

#[test]
fn word_freq_rows_are_as_long_as_the_vocabulary() {
    let texts = vec!["", "nothing of interest here", "lazy lazy lazy"];
    let vocabulary = vec!["lazy".to_string(), "fence".to_string()];
    let rows = interesting_word_freq(&texts[..], &vocabulary[..]);
    assert_eq!(rows, vec![vec![0, 0], vec![0, 0], vec![3, 0]]);
}

#[test]
fn word_freq_counts_a_repeated_vocabulary_word_in_each_of_its_columns() {
    let texts = vec!["lazy fence lazy"];
    let vocabulary = vec!["lazy".to_string(), "fence".to_string(), "lazy".to_string()];
    let rows = interesting_word_freq(&texts[..], &vocabulary[..]);
    assert_eq!(rows, vec![vec![2, 1, 2]]);
}

#[test]
fn word_freq_of_no_texts_is_empty() {
    let texts: Vec<&str> = vec![];
    let vocabulary = vec!["lazy".to_string()];
    assert!(interesting_word_freq(&texts[..], &vocabulary[..]).is_empty());
}

#[test]
fn author_popularity_of_the_letters() {
    let authors = vec!["a", "b", "c", "c"];
    assert_eq!(convert_author_to_popularity(&authors[..], &authors[..]), vec![1, 1, 2, 2]);
}

#[test]
fn author_popularity_is_zero_outside_the_reference() {
    let authors = vec!["ann", "bob", "ann", "cy"];
    let reference = vec!["ann", "dora"];
    assert_eq!(convert_author_to_popularity(&authors[..], &reference[..]), vec![2, 0, 2, 0]);
}

#[test]
fn author_popularity_counts_the_batch_not_the_reference() {
    let authors = vec!["ann"];
    let reference = vec!["ann", "ann", "ann"];
    assert_eq!(convert_author_to_popularity(&authors[..], &reference[..]), vec![1]);
}

#[test]
fn author_popularity_of_an_empty_batch() {
    let authors: Vec<&str> = vec![];
    let reference = vec!["ann"];
    assert!(convert_author_to_popularity(&authors[..], &reference[..]).is_empty());
}

#[test]
fn is_self_is_zero_for_a_self_post() {
    assert_eq!(convert_is_self(true), 0);
    assert_eq!(convert_is_self(false), 1);
}

#[test]
fn symbol_counts_have_a_fixed_width() {
    let texts = vec!["", "plain words", "a_b-c;d"];
    let rows = symbol_counts(&texts[..]);
    assert_eq!(rows.len(), 3);
    for row in &rows {
        assert_eq!(row.len(), 26);
    }
    assert_eq!(rows[0], vec![0; 26]);
    assert_eq!(rows[1], vec![0; 26]);
    let mut expected = vec![0u64; 26];
    expected[0] = 1;
    expected[1] = 1;
    expected[2] = 1;
    assert_eq!(rows[2], expected);
}

#[test]
fn symbol_counts_follow_the_alphabet() {
    let alphabet: String = symbols().iter().collect();
    let doubled = format!("{}{}", alphabet, alphabet);
    let texts = vec![alphabet.as_str(), doubled.as_str()];
    let rows = symbol_counts(&texts[..]);
    assert_eq!(rows[0], vec![1; 26]);
    assert_eq!(rows[1], vec![2; 26]);
}

#[test]
fn symbol_counts_sum_to_at_most_the_length() {
    let texts = vec![code_sample(), "((()))", "no symbols", "\u{e9}\u{e9}$$"];
    let rows = symbol_counts(&texts[..]);
    for (row, text) in rows.iter().zip(texts.iter()) {
        let sum: u64 = row.iter().sum();
        assert!(sum as usize <= text.chars().count());
    }
    assert_eq!(rows[1].iter().sum::<u64>(), 6);
    assert_eq!(rows[2].iter().sum::<u64>(), 0);
    assert_eq!(rows[3].iter().sum::<u64>(), 2);
}

#[test]
fn code_flags_of_plain_text_are_zero() {
    let patterns = CodePatterns::new().unwrap();
    let texts = vec!["I love the new update, the map is huge", ""];
    let rows = check_for_code(&patterns, &texts[..]);
    assert_eq!(rows, vec![vec![0, 0, 0, 0], vec![0, 0, 0, 0]]);
}

#[test]
fn code_flags_one_by_one() {
    let patterns = CodePatterns::new().unwrap();
    let texts = vec![
        "fn foo(x) { }",
        "let x = 5;",
        "if let Some(y) = match z",
        "vec![1, 2]",
    ];
    let rows = check_for_code(&patterns, &texts[..]);
    assert_eq!(rows[0], vec![1, 0, 0, 0]);
    assert_eq!(rows[1], vec![0, 1, 0, 0]);
    assert_eq!(rows[2], vec![0, 0, 1, 0]);
    assert_eq!(rows[3], vec![0, 0, 0, 1]);
}

#[test]
fn code_flags_are_case_sensitive() {
    let patterns = CodePatterns::new().unwrap();
    assert_eq!(patterns.flags("FN foo(x)"), vec![0, 0, 0, 0]);
    assert_eq!(patterns.flags("LET x = 5;"), vec![0, 0, 0, 0]);
}

#[test]
fn code_flags_of_all_four() {
    let patterns = CodePatterns::new().unwrap();
    let text = "fn foo(x) { let x = 1; if let Some(a) = match b { c => name!(c) } }";
    assert_eq!(patterns.flags(text), vec![1, 1, 1, 1]);
}

#[test]
fn flags_follow_the_answers() {
    assert_eq!(flags_of(true, false, true, false), vec![1, 0, 1, 0]);
    assert_eq!(flags_of(false, true, false, true), vec![0, 1, 0, 1]);
    assert_eq!(bool_to_flag(true), 1);
    assert_eq!(bool_to_flag(false), 0);
}

#[test]
fn patterns_name_the_first_that_failed() {
    let good = || CodePattern::compile("a");
    let bad = || CodePattern::compile("(");
    assert!(CodePatterns::from_compiled(good(), good(), good(), good()).is_ok());
    assert_eq!(
        CodePatterns::from_compiled(bad(), good(), bad(), good()).err(),
        Some(PatternError::Function)
    );
    assert_eq!(
        CodePatterns::from_compiled(good(), bad(), good(), bad()).err(),
        Some(PatternError::Binding)
    );
    assert_eq!(
        CodePatterns::from_compiled(good(), good(), bad(), good()).err(),
        Some(PatternError::IfLetMatch)
    );
    assert_eq!(
        CodePatterns::from_compiled(good(), good(), good(), bad()).err(),
        Some(PatternError::MacroCall)
    );
}

#[test]
fn patterns_given_are_the_patterns_used() {
    let patterns = CodePatterns::from_compiled(
        CodePattern::compile("a"),
        CodePattern::compile("b"),
        CodePattern::compile("c"),
        CodePattern::compile("d"),
    )
    .unwrap();
    assert_eq!(patterns.pattern_texts(), vec!["a", "b", "c", "d"]);
    assert_eq!(patterns.flags("xxbxx"), vec![0, 1, 0, 0]);
    assert_eq!(patterns.flags("dca"), vec![1, 0, 1, 1]);
}

#[test]
fn words_of_empty_text() {
    assert!(get_words("").is_empty());
}

#[test]
fn words_of_punctuation_only() {
    assert!(get_words("?!... ;; () [] {} <=> -- ** && '' \"\"").is_empty());
}

#[test]
fn words_are_lower_cased_and_split_at_punctuation() {
    assert_eq!(get_words("Hello,World;FOO.bar"), vec!["hello", "world", "foo", "bar"]);
}

#[test]
fn words_lose_quotes_and_dashes_without_splitting() {
    assert_eq!(get_words("don't well-known a*b&c\"d"), vec!["dont", "wellknown", "abcd"]);
}

#[test]
fn words_lose_characters_outside_ascii() {
    assert_eq!(get_words("caf\u{e9} na\u{ef}ve \u{4e16}\u{754c}"), vec!["caf", "nave"]);
}

#[test]
fn words_are_kept_by_length() {
    // two characters are too few, ten too many
    assert_eq!(get_words("ab abc abcdefghi abcdefghij"), vec!["abc", "abcdefghi"]);
}

#[test]
fn words_lose_one_plural_s() {
    assert_eq!(get_words("cats glass boss"), vec!["cat", "glas", "bos"]);
    // three characters before, two after: dropped
    assert!(get_words("its gas").is_empty());
    // nine characters with the s, eight without
    assert_eq!(get_words("abcdefghs"), vec!["abcdefgh"]);
}

#[test]
fn words_keep_their_order_and_repetitions() {
    assert_eq!(get_words("the cat the dog\tthe\nbird"), vec!["the", "cat", "the", "dog", "the", "bird"]);
}

#[test]
fn words_are_the_same_every_time() {
    let text = "Some text, with CODE: fn main() { println!(\"hi\"); } and caf\u{e9}s!";
    let first = get_words(text);
    let second = get_words(text);
    assert_eq!(first, second);
    assert_eq!(first, vec!["some", "text", "with", "code", "main", "println", "and", "caf"]);
}

#[test]
fn words_keep_digits() {
    assert_eq!(get_words("rust2018 v1_0"), vec!["rust2018"]);
}

#[test]
fn depluralize_strips_one_s() {
    assert_eq!(depluralize("cats"), "cat");
    assert_eq!(depluralize("glass"), "glas");
    assert_eq!(depluralize("cat"), "cat");
    assert_eq!(depluralize("s"), "");
    assert_eq!(depluralize(""), "");
    assert_eq!(depluralize("caf\u{e9}s"), "caf\u{e9}");
    assert_eq!(depluralize("S"), "S");
}

#[test]
fn should_replace_punctuation_only() {
    for b in [b'(', b')', b'[', b']', b'{', b'}', b'<', b'>', b'=', b'+', b',', b'.', b';', b':',
        b'!', b'?', b'/', b'\\', b'|', b'%', b'`', b'~', b'$', b'#', b'@', b'^', b'_']
    {
        assert!(should_replace(b), "{}", b as char);
    }
    for b in [b'a', b'z', b'A', b'Z', b'0', b'9', b' ', b'\n', b'\'', b'"', b'-', b'*', b'&', 0u8,
        127u8, 200u8]
    {
        assert!(!should_replace(b), "{}", b);
    }
}

#[test]
fn patterns_are_the_four_code_patterns() {
    let patterns = CodePatterns::new().unwrap();
    assert_eq!(
        patterns.pattern_texts(),
        vec![
            r".*fn [[:alpha:]]{1}[[:word:]]*\(.*\)",
            r".*let( mut)? [[:alpha:]]{1}[[:word:]]*.* = .*;",
            r".*if let .* = match",
            r".*[[:alpha:]]{1}[[:word:]]*! {0,1}[\{\(\[].*[\)\]\}]",
        ]
    );
}

#[test]
fn a_pattern_compiles_or_is_refused() {
    assert!(CodePattern::compile("a+b").is_ok());
    assert!(CodePattern::compile("").is_ok());
    assert!(CodePattern::compile("(").is_err());
    assert!(CodePattern::compile("[a").is_err());
    assert!(CodePattern::compile("a{2,1}").is_err());
}

#[test]
fn a_pattern_is_looked_for_anywhere_and_by_case() {
    let p = CodePattern::compile("ab+c").unwrap();
    assert_eq!(p.text(), "ab+c");
    assert!(p.found_in("xxabbbcxx"));
    assert!(p.found_in("abc"));
    assert!(!p.found_in("ac"));
    assert!(!p.found_in("ABC"));
    assert!(!p.found_in(""));
    // a dot does not reach over the end of a line
    let q = CodePattern::compile("a.*b").unwrap();
    assert!(q.found_in("a  b"));
    assert!(!q.found_in("a\nb"));
}

#[test]
fn the_four_code_patterns_compile() {
    assert!(CodePatterns::new().is_ok());
}
