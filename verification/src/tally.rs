//! A table of counts keyed by strings, kept in a hash map with the FNV hasher.
//!
//! The map itself is not verified.  What is taken on trust of it is stated
//! once, in the five small functions at the top of this file; the counting
//! on top of them is proved.

use vstd::prelude::*;
use fnv::{FnvHashMap, FnvHasher};
use std::hash::BuildHasherDefault;
use crate::strings::{lemma_occurrences_bounded, lemma_occurrences_push, occurrences, str_views};

verus! {

/// The hasher of the `fnv` crate, as an opaque type.
#[verifier::external_type_specification]
#[verifier::external_body]
pub struct ExFnvHasher(FnvHasher);

/// The standard library's builder of default hashers, as an opaque type.
#[verifier::external_type_specification]
#[verifier::external_body]
#[verifier::reject_recursive_types(H)]
pub struct ExBuildHasherDefault<H>(BuildHasherDefault<H>);

/// What a map holds: the value stored under each key, a key being the
/// characters of its string.
pub uninterp spec fn tally_entries(m: FnvHashMap<String, u64>) -> Map<Seq<char>, u64>;

/// The table without entries.
pub open spec fn no_entries() -> Map<Seq<char>, u64> {
    Map::empty()
}

/// `FnvHashMap::default`, which is `HashMap::default` with the FNV hasher:
/// the new map holds nothing.
#[verifier::external_body]
fn map_new() -> (made: FnvHashMap<String, u64>)
    ensures
        tally_entries(made) == no_entries(),
{
    FnvHashMap::default()
}

/// `HashMap::insert`: afterwards the map holds `value` under `key`, whether
/// or not it held the key before, and every other entry as before.
#[verifier::external_body]
fn map_insert(m: &mut FnvHashMap<String, u64>, key: &str, value: u64)
    ensures
        tally_entries(*final(m)) == tally_entries(*old(m)).insert(key@, value),
{
    m.insert(key.to_owned(), value);
}

/// `HashMap::get`: the value under `key`, if the map holds the key.
#[verifier::external_body]
fn map_get(m: &FnvHashMap<String, u64>, key: &str) -> (value: Option<u64>)
    ensures
        value == if tally_entries(*m).contains_key(key@) {
            Some(tally_entries(*m)[key@])
        } else {
            None::<u64>
        },
{
    m.get(key).copied()
}

/// `HashMap::get_mut`: a reference to the value under `key`, if the map holds
/// the key.  What is written through it is what the map holds under `key`
/// afterwards; nothing else changes.
#[verifier::external_body]
fn map_get_mut<'a>(m: &'a mut FnvHashMap<String, u64>, key: &str) -> (slot: Option<&'a mut u64>)
    ensures
        match slot {
            Some(v) => tally_entries(*old(m)).contains_key(key@)
                && *v == tally_entries(*old(m))[key@]
                && tally_entries(*final(m)) == tally_entries(*old(m)).insert(key@, *final(v)),
            None => !tally_entries(*old(m)).contains_key(key@) && tally_entries(*final(m))
                == tally_entries(*old(m)),
        },
{
    m.get_mut(key)
}

/// `HashMap::clone`: the copy holds what the map holds.
#[verifier::external_body]
fn map_clone(m: &FnvHashMap<String, u64>) -> (copy: FnvHashMap<String, u64>)
    ensures
        tally_entries(copy) == tally_entries(*m),
{
    m.clone()
}

/// The strings of a list, as a set.
pub open spec fn listed(list: Seq<Seq<char>>) -> Set<Seq<char>> {
    Set::new(|k: Seq<char>| list.contains(k))
}

/// A table of counts keyed by strings.
pub struct WordTally {
    map: FnvHashMap<String, u64>,
}

impl View for WordTally {
    type V = Map<Seq<char>, u64>;

    closed spec fn view(&self) -> Map<Seq<char>, u64> {
        tally_entries(self.map)
    }
}

impl WordTally {
    /// The table with a count of 0 for each of `keys`.
    pub fn zeroed(keys: &[&str]) -> (table: WordTally)
        ensures
            table@.dom() == listed(str_views(keys@)),
            forall|k: Seq<char>| #[trigger] table@.contains_key(k) ==> table@[k] == 0,
    {
        let mut map = map_new();
        let mut i: usize = 0;
        while i < keys.len()
            invariant
                i <= keys@.len(),
                tally_entries(map).dom() == listed(str_views(keys@).take(i as int)),
                forall|k: Seq<char>| #[trigger]
                    tally_entries(map).contains_key(k) ==> tally_entries(map)[k] == 0,
            decreases keys@.len() - i,
        {
            map_insert(&mut map, keys[i], 0);
            proof {
                let before = str_views(keys@).take(i as int);
                let after = str_views(keys@).take(i + 1);
                assert(after =~= before.push(keys@[i as int]@));
                assert forall|k: Seq<char>| listed(after).contains(k) <==> (listed(
                    before,
                ).contains(k) || k == keys@[i as int]@) by {
                    if before.contains(k) {
                        let j = choose|j: int| 0 <= j < before.len() && before[j] == k;
                        assert(after[j] == k);
                    }
                    if k == keys@[i as int]@ {
                        assert(after[i as int] == k);
                    }
                    if after.contains(k) {
                        let j = choose|j: int| 0 <= j < after.len() && after[j] == k;
                        if j < i {
                            assert(before[j] == k);
                        }
                    }
                }
                assert(tally_entries(map).dom() =~= listed(after));
            }
            i = i + 1;
        }
        proof {
            assert(str_views(keys@).take(keys@.len() as int) =~= str_views(keys@));
        }
        WordTally { map }
    }

    /// The table without entries.
    pub fn new() -> (table: WordTally)
        ensures
            table@ == no_entries(),
    {
        WordTally { map: map_new() }
    }

    /// The count under `key`, if the table lists the key.
    pub fn lookup(&self, key: &str) -> (found: Option<u64>)
        ensures
            found == if self@.contains_key(key@) {
                Some(self@[key@])
            } else {
                None::<u64>
            },
    {
        map_get(&self.map, key)
    }

    /// Lists `key` with the count `value`, in place of any count it had.
    pub fn set(&mut self, key: &str, value: u64)
        ensures
            final(self)@ == old(self)@.insert(key@, value),
    {
        map_insert(&mut self.map, key, value);
    }

    /// A copy of the table.
    pub fn duplicate(&self) -> (copy: WordTally)
        ensures
            copy@ == self@,
    {
        WordTally { map: map_clone(&self.map) }
    }

    /// The count under `key`, or 0 where the table does not list the key.
    pub fn count(&self, key: &str) -> (n: u64)
        ensures
            n == if self@.contains_key(key@) {
                self@[key@]
            } else {
                0
            },
    {
        match map_get(&self.map, key) {
            Some(n) => n,
            None => 0,
        }
    }

    /// Adds one to the count under `key` where the table lists the key, and
    /// says whether it does.
    pub fn bump(&mut self, key: &str) -> (listed: bool)
        requires
            old(self)@.contains_key(key@) ==> old(self)@[key@] < u64::MAX,
        ensures
            listed == old(self)@.contains_key(key@),
            listed ==> final(self)@ == old(self)@.insert(key@, (old(self)@[key@] + 1) as u64),
            !listed ==> final(self)@ == old(self)@,
    {
        match map_get_mut(&mut self.map, key) {
            Some(slot) => {
                *slot = *slot + 1;
                true
            },
            None => false,
        }
    }

    /// Counts `items` into the table: each count grows by the number of times
    /// its key occurs among them.  Items that the table does not list are
    /// passed over.
    pub fn count_all(&mut self, items: &[&str])
        requires
            forall|k: Seq<char>| #[trigger]
                old(self)@.contains_key(k) ==> old(self)@[k] + items@.len() <= u64::MAX,
        ensures
            final(self)@.dom() == old(self)@.dom(),
            forall|k: Seq<char>| #[trigger]
                final(self)@.contains_key(k) ==> final(self)@[k] == old(self)@[k] + occurrences(
                    str_views(items@),
                    k,
                ),
    {
        let mut i: usize = 0;
        while i < items.len()
            invariant
                i <= items@.len(),
                self@.dom() == old(self)@.dom(),
                forall|k: Seq<char>| #[trigger]
                    old(self)@.contains_key(k) ==> old(self)@[k] + items@.len() <= u64::MAX,
                forall|k: Seq<char>| #[trigger]
                    self@.contains_key(k) ==> self@[k] == old(self)@[k] + occurrences(
                        str_views(items@).take(i as int),
                        k,
                    ),
            decreases items@.len() - i,
        {
            let ghost seen = str_views(items@).take(i as int);
            let ghost before = self@;
            proof {
                lemma_occurrences_bounded(seen, items@[i as int]@);
                assert(before.contains_key(items@[i as int]@) ==> old(self)@.contains_key(
                    items@[i as int]@,
                ));
            }
            self.bump(items[i]);
            proof {
                assert(str_views(items@).take(i + 1) =~= seen.push(items@[i as int]@));
                assert forall|k: Seq<char>| #[trigger] self@.contains_key(k) implies self@[k]
                    == old(self)@[k] + occurrences(str_views(items@).take(i + 1), k) by {
                    lemma_occurrences_push(seen, items@[i as int]@, k);
                    assert(before.contains_key(k));
                }
                assert(self@.dom() =~= old(self)@.dom());
            }
            i = i + 1;
        }
        proof {
            assert(str_views(items@).take(items@.len() as int) =~= str_views(items@));
        }
    }

    /// The counts under `keys`, in the order of the keys, with 0 for a key
    /// that the table does not list.
    pub fn counts_of(&self, keys: &[&str]) -> (counts: Vec<u64>)
        ensures
            counts@.len() == keys@.len(),
            forall|j: int|
                0 <= j < keys@.len() ==> #[trigger] counts@[j] == if self@.contains_key(
                    keys@[j]@,
                ) {
                    self@[keys@[j]@]
                } else {
                    0
                },
    {
        let mut counts: Vec<u64> = Vec::new();
        let mut j: usize = 0;
        while j < keys.len()
            invariant
                j <= keys@.len(),
                counts@.len() == j,
                forall|k: int|
                    0 <= k < j ==> #[trigger] counts@[k] == if self@.contains_key(keys@[k]@) {
                        self@[keys@[k]@]
                    } else {
                        0
                    },
            decreases keys@.len() - j,
        {
            counts.push(self.count(keys[j]));
            j = j + 1;
        }
        counts
    }
}

} // verus!
