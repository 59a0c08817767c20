//! The two records of the pipeline: a post as it was collected, and the
//! features derived from it.

use vstd::prelude::*;
use vstd::utf8::encode_utf8;
use tiny_keccak::Sha3;
use crate::digest::{absorb, hex_lower, is_hex_digit, sha3_512_squeezed, squeeze, to_hex};

verus! {

/// One collected post.  Two posts with the same `title` count as the same post.
#[derive(Debug, Clone)]
pub struct RawPostFeatures {
    pub is_self: bool,
    pub author: String,
    pub url: String,
    pub downs: u64,
    pub ups: u64,
    pub score: u64,
    pub selftext: String,
    pub subreddit: String,
    pub title: String,
}

/// What a [`RawPostFeatures`] holds, with each string as its characters.
pub struct RawPostView {
    pub is_self: bool,
    pub author: Seq<char>,
    pub url: Seq<char>,
    pub downs: u64,
    pub ups: u64,
    pub score: u64,
    pub selftext: Seq<char>,
    pub subreddit: Seq<char>,
    pub title: Seq<char>,
}

impl View for RawPostFeatures {
    type V = RawPostView;

    open spec fn view(&self) -> RawPostView {
        RawPostView {
            is_self: self.is_self,
            author: self.author@,
            url: self.url@,
            downs: self.downs,
            ups: self.ups,
            score: self.score,
            selftext: self.selftext@,
            subreddit: self.subreddit@,
            title: self.title@,
        }
    }
}

/// The features of one post.  All of them are counts or flags.
#[derive(Debug, Clone)]
pub struct ProcessedPostFeatures {
    /// 0 for a self post, 1 for a link post.
    pub is_self: u64,
    /// How often the post's author occurs in the batch, if the author is a
    /// known member of the target community; 0 otherwise.
    pub author_popularity: u64,
    /// The number of downvotes.
    pub downs: u64,
    /// The number of upvotes.
    pub ups: u64,
    /// The overall score of the post.
    pub score: u64,
    /// The number of characters of the post's text.
    pub post_len: u64,
    /// One count per vocabulary word, in vocabulary order.
    pub word_freq: Vec<u64>,
    /// One count per symbol of the alphabet, in alphabet order.
    pub symbol_freq: Vec<u64>,
    /// One 0/1 flag per code pattern, in pattern order.
    pub regex_matches: Vec<u64>,
}

/// What a [`ProcessedPostFeatures`] holds, with each vector as a sequence.
pub struct ProcessedPostView {
    pub is_self: u64,
    pub author_popularity: u64,
    pub downs: u64,
    pub ups: u64,
    pub score: u64,
    pub post_len: u64,
    pub word_freq: Seq<u64>,
    pub symbol_freq: Seq<u64>,
    pub regex_matches: Seq<u64>,
}

impl View for ProcessedPostFeatures {
    type V = ProcessedPostView;

    open spec fn view(&self) -> ProcessedPostView {
        ProcessedPostView {
            is_self: self.is_self,
            author_popularity: self.author_popularity,
            downs: self.downs,
            ups: self.ups,
            score: self.score,
            post_len: self.post_len,
            word_freq: self.word_freq@,
            symbol_freq: self.symbol_freq@,
            regex_matches: self.regex_matches@,
        }
    }
}

/// The number of bytes that each round of hashing hands to the next.
pub const DIGEST_LEN: usize = 512;

/// The number of bytes that are shown of the last round.
pub const SHOWN_LEN: usize = 16;

/// One round: the bytes that SHA3-512 gives out for `data` followed by `key`.
pub open spec fn keyed_digest(data: Seq<u8>, key: Seq<u8>) -> Seq<u8> {
    sha3_512_squeezed(data + key, DIGEST_LEN as nat)
}

/// The digest of `data` after `rounds` further rounds, each of which hashes
/// the digest of the round before, with the key.
pub open spec fn stretched(data: Seq<u8>, key: Seq<u8>, rounds: nat) -> Seq<u8>
    decreases rounds,
{
    if rounds == 0 {
        keyed_digest(data, key)
    } else {
        keyed_digest(stretched(data, key, (rounds - 1) as nat), key)
    }
}

/// One round of hashing: `res` becomes the keyed digest of `data`.
fn digest_into(data: &[u8], key: &[u8], res: &mut Vec<u8>)
    requires
        old(res)@.len() == DIGEST_LEN,
    ensures
        final(res)@.len() == DIGEST_LEN,
        final(res)@ == keyed_digest(data@, key@),
{
    let mut sponge = Sha3::v512();
    absorb(&mut sponge, data);
    absorb(&mut sponge, key);
    proof {
        assert(Seq::<u8>::empty() + data@ + key@ =~= data@ + key@);
    }
    squeeze(sponge, res);
}

/// A name to show in place of an author's: the author's name is hashed with
/// the key, the digest is hashed with the key `iter` more times, and the
/// first sixteen bytes of the last digest are written in hexadecimal.
pub fn anonymize_author(author: &str, iter: u64, key: &[u8]) -> (shown: String)
    ensures
        shown@ == hex_lower(
            stretched(encode_utf8(author@), key@, iter as nat).take(SHOWN_LEN as int),
        ),
        shown@.len() == 2 * SHOWN_LEN,
        forall|k: int| 0 <= k < shown@.len() ==> is_hex_digit(#[trigger] shown@[k]),
{
    let mut res: Vec<u8> = vec![0u8; 512];
    digest_into(author.as_bytes(), key, &mut res);
    let mut round: u64 = 0;
    while round < iter
        invariant
            round <= iter,
            res@.len() == DIGEST_LEN,
            res@ == stretched(encode_utf8(author@), key@, round as nat),
        decreases iter - round,
    {
        let previous = res.clone();
        assert(previous@ =~= res@);
        digest_into(previous.as_slice(), key, &mut res);
        round = round + 1;
    }
    to_hex(res.as_slice(), SHOWN_LEN)
}

} // verus!
