use playrust_alert::digest::to_hex;
use playrust_alert::freqs::{first_seen_places, get_unique_words, word_freqs};
use playrust_alert::reddit::{anonymize_author, RawPostFeatures};
use playrust_alert::strings::{borrow_all, char_count, own_all, str_eq, str_less};
use playrust_alert::tally::WordTally;
use playrust_alert::util::{decode_list, encode_list};
use tiny_keccak::{Hasher, Sha3};

#[test]
fn test_anon() {
    let anon = anonymize_author("name", 2, &b"key"[..]);
    println!("{:?}", anon);
}

fn expected_anon(author: &str, iter: u64, key: &[u8]) -> String {
    let mut res = [0u8; 512];
    let mut sha3 = Sha3::v512();
    sha3.update(author.as_bytes());
    sha3.update(key);
    sha3.finalize(&mut res);
    for _ in 0..iter {
        let mut sha3 = Sha3::v512();
        sha3.update(&res);
        sha3.update(key);
        sha3.finalize(&mut res);
    }
    res.iter().take(16).map(|byte| format!("{:02x}", byte)).collect()
}

#[test]
fn anon_is_the_stretched_digest_in_hex() {
    for iter in [0u64, 1, 2, 5] {
        let anon = anonymize_author("name", iter, &b"key"[..]);
        assert_eq!(anon.len(), 32);
        assert_eq!(anon, expected_anon("name", iter, &b"key"[..]));
    }
    assert_eq!(anonymize_author("", 0, &[][..]), expected_anon("", 0, &[][..]));
    assert_eq!(
        anonymize_author("caf\u{e9}", 1, &[0u8, 255][..]),
        expected_anon("caf\u{e9}", 1, &[0u8, 255][..])
    );
}

#[test]
fn anon_is_thirty_two_hex_digits() {
    for (author, iter, key) in [("name", 2u64, &b"key"[..]), ("", 0, &[][..]), ("caf\u{e9}", 7, &[1u8][..])] {
        let anon = anonymize_author(author, iter, key);
        assert_eq!(anon.chars().count(), 32);
        assert!(anon.chars().all(|c| matches!(c, '0'..='9' | 'a'..='f')), "{}", anon);
    }
}

#[test]
fn anon_depends_on_name_key_and_rounds() {
    let base = anonymize_author("name", 2, &b"key"[..]);
    assert_eq!(base, anonymize_author("name", 2, &b"key"[..]));
    assert_ne!(base, anonymize_author("nam", 2, &b"key"[..]));
    assert_ne!(base, anonymize_author("name", 3, &b"key"[..]));
    assert_ne!(base, anonymize_author("name", 2, &b"kez"[..]));
}

#[test]
fn anon_of_the_empty_message_starts_like_sha3_512() {
    // the first bytes that the sponge gives out are the SHA3-512 digest
    assert_eq!(anonymize_author("", 0, &[][..]), "a69f73cca23a9ac5c8b567dc185a756e");
}

#[test]
fn hex_has_two_lower_case_digits_per_byte() {
    assert_eq!(to_hex(&[0x00, 0x0f, 0xa0, 0xff, 0x12][..], 5), "000fa0ff12");
    assert_eq!(to_hex(&[0xab, 0xcd, 0xef][..], 2), "abcd");
    assert_eq!(to_hex(&[0xab][..], 5), "ab");
    assert_eq!(to_hex(&[0xab][..], 0), "");
}

#[test]
fn lists_are_written_one_item_per_line() {
    assert_eq!(encode_list(&["a", "bc", ""][..]), "a\nbc\n\n");
    let none: Vec<&str> = vec![];
    assert_eq!(encode_list(&none[..]), "");
}

#[test]
fn lists_are_read_line_by_line() {
    assert_eq!(decode_list("a\nbc\n"), vec!["a", "bc"]);
    assert_eq!(decode_list("a\nbc"), vec!["a", "bc"]);
    assert_eq!(decode_list("a\r\nbc\r\n"), vec!["a", "bc"]);
    assert_eq!(decode_list("a\n\nb\n"), vec!["a", "", "b"]);
    assert_eq!(decode_list("\n"), vec![""]);
    assert!(decode_list("").is_empty());
    assert_eq!(decode_list("a\rb\n"), vec!["a\rb"]);
    assert_eq!(decode_list("a\r\r\n"), vec!["a\r"]);
    assert_eq!(decode_list("a\r"), vec!["a\r"]);
    assert_eq!(decode_list("\r\n\r"), vec!["", "\r"]);
}

#[test]
fn lists_are_read_as_the_standard_library_reads_lines() {
    for text in ["", "a", "a\n", "a\r\n", "a\r", "\r", "\n\n", "a\n\rb\r\nc", "x\r\r\ny\n\r", "\u{e9}\n"] {
        let expected: Vec<String> = text.lines().map(String::from).collect();
        assert_eq!(decode_list(text), expected, "{:?}", text);
    }
}

#[test]
fn lists_come_back_as_they_were_written() {
    let list = vec!["steveklabnik", "", "two words", "caf\u{e9}", "\r at the start"];
    let text = encode_list(&list[..]);
    assert_eq!(decode_list(&text), list);
    assert_eq!(encode_list(&list[..]), text);
}

#[test]
fn unique_words_come_in_the_order_first_seen() {
    assert_eq!(get_unique_words(&["b", "a", "b", "c", "a"][..]), vec!["b", "a", "c"]);
    let none: Vec<&str> = vec![];
    assert!(get_unique_words(&none[..]).is_empty());
    let (distinct, places) = first_seen_places(&["b", "a", "b", "c", "a"][..]);
    assert_eq!(distinct, vec!["b", "a", "c"]);
    assert_eq!(places, vec![0, 1, 0, 2, 1]);
}

fn with_text(text: &str) -> RawPostFeatures {
    RawPostFeatures {
        is_self: true,
        author: String::new(),
        url: String::new(),
        downs: 0,
        ups: 0,
        score: 0,
        selftext: text.to_string(),
        subreddit: "rust".to_string(),
        title: String::new(),
    }
}

#[test]
fn word_freqs_count_the_posts_of_each_text() {
    let posts: Vec<RawPostFeatures> =
        ["pear", "apple", "pear", "", "fig", "pear", "apple"].iter().map(|t| with_text(t)).collect();
    let table = word_freqs(&posts[..]);
    assert_eq!(
        table,
        vec![
            ("".to_string(), 1),
            ("apple".to_string(), 2),
            ("fig".to_string(), 1),
            ("pear".to_string(), 3),
        ]
    );
    assert!(word_freqs(&[][..]).is_empty());
}

#[test]
fn tally_counts_what_it_lists() {
    let mut table = WordTally::zeroed(&["a", "b", "a"][..]);
    assert_eq!(table.lookup("a"), Some(0));
    assert_eq!(table.lookup("c"), None);
    assert!(table.bump("a"));
    assert!(table.bump("a"));
    assert!(!table.bump("c"));
    assert_eq!(table.count("a"), 2);
    assert_eq!(table.count("b"), 0);
    assert_eq!(table.count("c"), 0);
    assert_eq!(table.lookup("c"), None);

    let copy = table.duplicate();
    table.count_all(&["b", "c", "b", "a"][..]);
    assert_eq!(table.counts_of(&["a", "b", "c", "b"][..]), vec![3, 2, 0, 2]);
    assert_eq!(copy.counts_of(&["a", "b", "c"][..]), vec![2, 0, 0]);

    table.set("c", 9);
    table.set("a", 1);
    assert_eq!(table.counts_of(&["a", "b", "c"][..]), vec![1, 2, 9]);
    assert_eq!(WordTally::new().lookup(""), None);
}

#[test]
fn strings_compare_by_their_characters() {
    assert!(str_less("", "a"));
    assert!(!str_less("", ""));
    assert!(!str_less("a", ""));
    assert!(str_less("a", "b"));
    assert!(str_less("ab", "b"));
    assert!(str_less("a", "ab"));
    assert!(!str_less("ab", "a"));
    assert!(!str_less("ab", "ab"));
    assert!(str_less("Z", "a"));
    assert!(str_less("z", "\u{e9}"));
    assert!(str_less("\u{ffff}", "\u{10000}"));
    for (a, b) in [("abc", "abd"), ("x", "\u{e9}"), ("\u{e9}", "\u{4e16}"), ("", ""), ("b", "a")] {
        assert_eq!(str_less(a, b), a < b);
        assert_eq!(str_less(b, a), b < a);
        assert_eq!(str_eq(a, b), a == b);
    }
    assert!(str_eq("", ""));
    assert!(str_eq("caf\u{e9}", "caf\u{e9}"));
    assert!(!str_eq("abc", "ab"));
    assert!(!str_eq("ab", "abc"));
    assert!(!str_eq("abc", "abd"));
}

#[test]
fn characters_are_counted_not_bytes() {
    assert_eq!(char_count(""), 0);
    assert_eq!(char_count("abc"), 3);
    assert_eq!(char_count("caf\u{e9} \u{4e16}\u{754c}"), 7);
}

#[test]
fn string_lists_keep_their_items() {
    let owned = vec!["a".to_string(), "".to_string(), "caf\u{e9}".to_string()];
    let borrowed = borrow_all(&owned[..]);
    assert_eq!(borrowed, vec!["a", "", "caf\u{e9}"]);
    assert_eq!(own_all(&borrowed[..]), owned);
}
