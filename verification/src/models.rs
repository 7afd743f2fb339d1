//! The data that the viewer's commands exchange, and the table that maps a
//! file's identifier back to its path.

use crate::text::str_eq;
use std::sync::Mutex;
use vstd::prelude::*;
use vstd::utf8::encode_utf8;

verus! {

/// One row of a directory listing.
#[derive(Clone)]
pub struct FileItem {
    pub name: String,
    pub path: String,
    pub is_dir: bool,
    pub date_modified: u64,
    pub size: u64,
}

/// The images of the open folder and the one being shown.
#[derive(Clone)]
pub struct ImageState {
    pub current_index: usize,
    pub images: Vec<String>,
}

/// What is kept between runs.
pub struct AppConfig {
    pub last_folder: Option<String>,
}

/// The key by which a folder's images are ordered.
#[derive(Debug)]
pub enum SortBy {
    Name,
    Type,
    Date,
    Size,
}

/// The direction of that order.
#[derive(Debug)]
pub enum SortOrder {
    Asc,
    Desc,
}

/// The folder to open at start, and the file to show in it, if any.
pub struct StartupInfo {
    pub folder: String,
    pub file: Option<String>,
}

/// The number of buckets that a table spreads its entries over.
pub const BUCKETS: usize = 4096;

/// A lookup table from file identifiers to paths. No identifier occurs
/// twice. The entries are spread over buckets by a hash of the identifier,
/// so that one is found without looking at all.
pub struct PathTable {
    buckets: Vec<Vec<(String, String)>>,
}

/// Whether entry `i` of `entries` binds `key`.
spec fn bound_among(entries: Seq<(String, String)>, key: Seq<char>, i: int) -> bool {
    0 <= i < entries.len() && entries[i].0@ == key
}

/// Whether no identifier occurs twice in `entries`.
spec fn distinct_keys(entries: Seq<(String, String)>) -> bool {
    forall|i: int, j: int| 0 <= i < j < entries.len() ==> entries[i].0@ != entries[j].0@
}

/// The map that a list of bindings stands for.
spec fn table_of(entries: Seq<(String, String)>) -> Map<Seq<char>, Seq<char>> {
    Map::new(
        |key: Seq<char>| exists|i: int| bound_among(entries, key, i),
        |key: Seq<char>| entries[choose|i: int| bound_among(entries, key, i)].1@,
    )
}

/// The hash of a text's bytes, a number below the number of buckets.
spec fn hash_of(bytes: Seq<u8>) -> int
    decreases bytes.len(),
{
    if bytes.len() == 0 {
        0
    } else {
        (hash_of(bytes.drop_last()) * 31 + bytes.last() as int) % 4096
    }
}

/// The bucket in which an identifier is kept.
spec fn bucket_of(key: Seq<char>) -> int {
    hash_of(encode_utf8(key))
}

/// Whether a bucket holds each identifier once, and only identifiers that
/// belong in it.
spec fn holds_its_own(bucket: Seq<(String, String)>, index: int) -> bool {
    &&& distinct_keys(bucket)
    &&& forall|i: int| 0 <= i < bucket.len() ==> bucket_of((#[trigger] bucket[i]).0@) == index
}

/// Whether every entry of `after` is an entry of `before` or binds `key`.
spec fn drawn_from(after: Seq<(String, String)>, before: Seq<(String, String)>, key: Seq<char>)
    -> bool {
    forall|i: int|
        0 <= i < after.len() ==> (#[trigger] after[i]).0@ == key || exists|j: int|
            0 <= j < before.len() && #[trigger] before[j] == after[i]
}

proof fn lemma_hash_in_range(bytes: Seq<u8>)
    ensures
        0 <= hash_of(bytes) < 4096,
    decreases bytes.len(),
{
    if bytes.len() > 0 {
        lemma_hash_in_range(bytes.drop_last());
    }
}

proof fn lemma_table_lookup(entries: Seq<(String, String)>, i: int)
    requires
        distinct_keys(entries),
        0 <= i < entries.len(),
    ensures
        table_of(entries).contains_key(entries[i].0@),
        table_of(entries)[entries[i].0@] == entries[i].1@,
{
    let key = entries[i].0@;
    assert(bound_among(entries, key, i));
    let chosen = choose|j: int| bound_among(entries, key, j);
    assert(bound_among(entries, key, chosen));
    assert(chosen == i);
}

proof fn lemma_table_absent(entries: Seq<(String, String)>, key: Seq<char>)
    requires
        forall|i: int| !bound_among(entries, key, i),
    ensures
        !table_of(entries).contains_key(key),
{
}

proof fn lemma_table_push(entries: Seq<(String, String)>, binding: (String, String))
    requires
        distinct_keys(entries),
        forall|i: int| !bound_among(entries, binding.0@, i),
    ensures
        distinct_keys(entries.push(binding)),
        table_of(entries.push(binding)) == table_of(entries).insert(binding.0@, binding.1@),
{
    let grown = entries.push(binding);
    let last = entries.len() as int;
    assert forall|i: int, j: int| 0 <= i < j < grown.len() implies grown[i].0@ != grown[j].0@ by {
        if j == last {
            assert(!bound_among(entries, binding.0@, i));
        }
    }
    let expected = table_of(entries).insert(binding.0@, binding.1@);
    assert forall|key: Seq<char>|
        (#[trigger] table_of(grown).dom().contains(key)) == expected.dom().contains(key) && (
        expected.dom().contains(key) ==> table_of(grown)[key] == expected[key]) by {
        if table_of(grown).dom().contains(key) {
            let j = choose|j: int| bound_among(grown, key, j);
            if j < last {
                assert(bound_among(entries, key, j));
            }
        }
        if expected.dom().contains(key) {
            if key == binding.0@ {
                lemma_table_lookup(grown, last);
            } else {
                let j = choose|j: int| bound_among(entries, key, j);
                assert(bound_among(grown, key, j));
                lemma_table_lookup(entries, j);
                lemma_table_lookup(grown, j);
            }
        }
    }
    assert(table_of(grown) =~= expected);
}

proof fn lemma_table_remove(entries: Seq<(String, String)>, i: int)
    requires
        distinct_keys(entries),
        0 <= i < entries.len(),
    ensures
        distinct_keys(entries.remove(i)),
        forall|j: int| !bound_among(entries.remove(i), entries[i].0@, j),
        table_of(entries.remove(i)) == table_of(entries).remove(entries[i].0@),
{
    let rest = entries.remove(i);
    let gone = entries[i].0@;
    assert forall|a: int, b: int| 0 <= a < b < rest.len() implies rest[a].0@ != rest[b].0@ by {
        let a0 = if a < i { a } else { a + 1 };
        let b0 = if b < i { b } else { b + 1 };
        assert(rest[a] == entries[a0] && rest[b] == entries[b0]);
    }
    assert forall|j: int| !bound_among(rest, gone, j) by {
        if 0 <= j < rest.len() {
            let j0 = if j < i { j } else { j + 1 };
            assert(rest[j] == entries[j0]);
        }
    }
    let expected = table_of(entries).remove(gone);
    assert forall|key: Seq<char>|
        (#[trigger] table_of(rest).dom().contains(key)) == expected.dom().contains(key) && (
        expected.dom().contains(key) ==> table_of(rest)[key] == expected[key]) by {
        if table_of(rest).dom().contains(key) {
            let j = choose|j: int| bound_among(rest, key, j);
            let j0 = if j < i { j } else { j + 1 };
            assert(rest[j] == entries[j0]);
            assert(bound_among(entries, key, j0));
        }
        if expected.dom().contains(key) {
            let j0 = choose|j: int| bound_among(entries, key, j);
            let j = if j0 < i { j0 } else { j0 - 1 };
            assert(rest[j] == entries[j0]);
            assert(bound_among(rest, key, j));
            lemma_table_lookup(entries, j0);
            lemma_table_lookup(rest, j);
        }
    }
    assert(table_of(rest) =~= expected);
}

impl View for PathTable {
    type V = Map<Seq<char>, Seq<char>>;

    closed spec fn view(&self) -> Map<Seq<char>, Seq<char>> {
        Map::new(
            |key: Seq<char>| table_of(self.buckets@[bucket_of(key)]@).contains_key(key),
            |key: Seq<char>| table_of(self.buckets@[bucket_of(key)]@)[key],
        )
    }
}

/// The bucket in which `key` is kept.
fn bucket_index(key: &str) -> (index: usize)
    ensures
        index == bucket_of(key@),
        index < BUCKETS,
{
    let bytes = key.as_bytes();
    let mut hash: usize = 0;
    let mut i: usize = 0;
    assert(bytes@.take(0) =~= Seq::<u8>::empty());
    while i < bytes.len()
        invariant
            i <= bytes@.len(),
            hash < 4096,
            hash == hash_of(bytes@.take(i as int)),
        decreases bytes@.len() - i,
    {
        assert(bytes@.take(i + 1).drop_last() =~= bytes@.take(i as int));
        assert(bytes@.take(i + 1).last() == bytes@[i as int]);
        hash = (hash * 31 + bytes[i] as usize) % 4096;
        i += 1;
    }
    assert(bytes@.take(bytes@.len() as int) =~= bytes@);
    hash
}

/// The place of `key` in a bucket, if it is bound there.
fn position_in(bucket: &Vec<(String, String)>, key: &str) -> (found: Option<usize>)
    ensures
        match found {
            Some(i) => bound_among(bucket@, key@, i as int),
            None => forall|i: int| !bound_among(bucket@, key@, i),
        },
{
    let mut i: usize = 0;
    while i < bucket.len()
        invariant
            i <= bucket@.len(),
            forall|j: int| 0 <= j < i ==> !bound_among(bucket@, key@, j),
        decreases bucket@.len() - i,
    {
        if str_eq(bucket[i].0.as_str(), key) {
            return Some(i);
        }
        i += 1;
    }
    None
}

/// Takes the binding of `key` out of a bucket.
fn take_from(bucket: &mut Vec<(String, String)>, key: &str) -> (previous: Option<String>)
    requires
        distinct_keys(old(bucket)@),
    ensures
        distinct_keys(final(bucket)@),
        drawn_from(final(bucket)@, old(bucket)@, key@),
        forall|i: int| !bound_among(final(bucket)@, key@, i),
        table_of(final(bucket)@) == table_of(old(bucket)@).remove(key@),
        match previous {
            Some(before) => table_of(old(bucket)@).contains_key(key@) && table_of(
                old(bucket)@,
            )[key@] == before@,
            None => !table_of(old(bucket)@).contains_key(key@),
        },
{
    let ghost before = bucket@;
    match position_in(bucket, key) {
        Some(i) => {
            proof {
                lemma_table_lookup(before, i as int);
                lemma_table_remove(before, i as int);
            }
            let removed = bucket.remove(i);
            proof {
                assert forall|j: int| 0 <= j < bucket@.len() implies (#[trigger] bucket@[j]).0@
                    == key@ || exists|k: int|
                    0 <= k < before.len() && #[trigger] before[k] == bucket@[j] by {
                    let k = if j < i { j } else { j + 1 };
                    assert(before[k] == bucket@[j]);
                }
            }
            Some(removed.1)
        },
        None => {
            assert(table_of(before).remove(key@) =~= table_of(before));
            None
        },
    }
}

impl PathTable {
    /// The table's invariant: every bucket holds each identifier once, and
    /// only identifiers that belong in it.
    pub closed spec fn well_formed(&self) -> bool {
        &&& self.buckets@.len() == BUCKETS
        &&& forall|b: int|
            0 <= b < BUCKETS ==> holds_its_own((#[trigger] self.buckets@[b])@, b)
    }

    /// An empty table.
    pub fn new() -> (table: PathTable)
        ensures
            table.well_formed(),
            table@ == Map::<Seq<char>, Seq<char>>::empty(),
    {
        let mut buckets: Vec<Vec<(String, String)>> = Vec::new();
        while buckets.len() < BUCKETS
            invariant
                buckets@.len() <= BUCKETS,
                forall|b: int| 0 <= b < buckets@.len() ==> (#[trigger] buckets@[b])@.len() == 0,
            decreases BUCKETS - buckets@.len(),
        {
            buckets.push(Vec::new());
        }
        let table = PathTable { buckets };
        proof {
            assert forall|key: Seq<char>| !(#[trigger] table@.dom().contains(key)) by {
                lemma_hash_in_range(encode_utf8(key));
                assert(table.buckets@[bucket_of(key)]@.len() == 0);
            }
            assert(table@ =~= Map::<Seq<char>, Seq<char>>::empty());
        }
        table
    }

    /// Whether `key` is bound.
    pub fn contains_key(&self, key: &str) -> (bound: bool)
        requires
            self.well_formed(),
        ensures
            bound == self@.contains_key(key@),
    {
        let bucket = &self.buckets[bucket_index(key)];
        position_in(bucket, key).is_some()
    }

    /// The path bound to `key`, if any.
    pub fn get(&self, key: &str) -> (found: Option<&String>)
        requires
            self.well_formed(),
        ensures
            match found {
                Some(path) => self@.contains_key(key@) && self@[key@] == path@,
                None => !self@.contains_key(key@),
            },
    {
        let bucket = &self.buckets[bucket_index(key)];
        match position_in(bucket, key) {
            Some(i) => {
                proof {
                    lemma_table_lookup(bucket@, i as int);
                }
                Some(&bucket[i].1)
            },
            None => None,
        }
    }

    /// Binds `key` to `path` and returns the path it was bound to before.
    pub fn insert(&mut self, key: String, path: String) -> (previous: Option<String>)
        requires
            old(self).well_formed(),
        ensures
            final(self).well_formed(),
            final(self)@ == old(self)@.insert(key@, path@),
            match previous {
                Some(before) => old(self)@.contains_key(key@) && old(self)@[key@] == before@,
                None => !old(self)@.contains_key(key@),
            },
    {
        let index = bucket_index(key.as_str());
        let ghost before = self.buckets@;
        let bucket = &mut self.buckets[index];
        let previous = take_from(bucket, key.as_str());
        let ghost without = bucket@;
        proof {
            lemma_table_push(without, (key, path));
            assert(table_of(without).insert(key@, path@) =~= table_of(before[index as int]@).insert(
                key@,
                path@,
            ));
        }
        bucket.push((key, path));
        proof {
            let after = self.buckets@;
            assert forall|b: int| 0 <= b < BUCKETS implies holds_its_own(
                (#[trigger] after[b])@,
                b,
            ) by {
                if b == index {
                    assert forall|i: int| 0 <= i < after[b]@.len() implies bucket_of(
                        (#[trigger] after[b]@[i]).0@,
                    ) == b by {
                        if i < without.len() {
                            assert(after[b]@[i] == without[i]);
                            if without[i].0@ != key@ {
                                let j = choose|j: int|
                                    0 <= j < before[b]@.len() && #[trigger] before[b]@[j]
                                        == without[i];
                                assert(bucket_of(before[b]@[j].0@) == b);
                            }
                        }
                    }
                } else {
                    assert(after[b] == before[b]);
                }
            }
            assert forall|k: Seq<char>|
                (#[trigger] self@.dom().contains(k)) == old(self)@.insert(
                    key@,
                    path@,
                ).dom().contains(k) && (self@.dom().contains(k) ==> self@[k] == old(self)@.insert(
                    key@,
                    path@,
                )[k]) by {
                lemma_hash_in_range(encode_utf8(k));
                if bucket_of(k) != index {
                    assert(after[bucket_of(k)] == before[bucket_of(k)]);
                }
            }
            assert(self@ =~= old(self)@.insert(key@, path@));
        }
        previous
    }

    /// Unbinds `key` and returns the path it was bound to.
    pub fn remove(&mut self, key: &str) -> (previous: Option<String>)
        requires
            old(self).well_formed(),
        ensures
            final(self).well_formed(),
            final(self)@ == old(self)@.remove(key@),
            match previous {
                Some(before) => old(self)@.contains_key(key@) && old(self)@[key@] == before@,
                None => !old(self)@.contains_key(key@),
            },
    {
        let index = bucket_index(key);
        let ghost before = self.buckets@;
        let bucket = &mut self.buckets[index];
        let previous = take_from(bucket, key);
        proof {
            let after = self.buckets@;
            assert forall|b: int| 0 <= b < BUCKETS implies holds_its_own(
                (#[trigger] after[b])@,
                b,
            ) by {
                if b == index {
                    assert forall|i: int| 0 <= i < after[b]@.len() implies bucket_of(
                        (#[trigger] after[b]@[i]).0@,
                    ) == b by {
                        if after[b]@[i].0@ != key@ {
                            let j = choose|j: int|
                                0 <= j < before[b]@.len() && #[trigger] before[b]@[j]
                                    == after[b]@[i];
                            assert(bucket_of(before[b]@[j].0@) == b);
                        }
                    }
                } else {
                    assert(after[b] == before[b]);
                }
            }
            assert forall|k: Seq<char>|
                (#[trigger] self@.dom().contains(k)) == old(self)@.remove(key@).dom().contains(k)
                    && (self@.dom().contains(k) ==> self@[k] == old(self)@.remove(key@)[k]) by {
                lemma_hash_in_range(encode_utf8(k));
                if bucket_of(k) != index {
                    assert(after[bucket_of(k)] == before[bucket_of(k)]);
                }
            }
            assert(self@ =~= old(self)@.remove(key@));
        }
        previous
    }
}

/// Session state shared by the commands: the identifiers handed out so far.
pub struct AppState {
    pub image_paths: Mutex<PathTable>,
}

impl AppState {
    /// State for a new session: its lock begins with an empty table.
    pub fn new() -> (state: AppState)
        ensures
            table_at_start(state.image_paths) == Map::<Seq<char>, Seq<char>>::empty(),
            sound_at_start(state.image_paths),
    {
        AppState { image_paths: lock_table(PathTable::new()) }
    }
}

/// `std::sync::Mutex`, which Verus carries without looking inside.
#[verifier::external_type_specification]
#[verifier::external_body]
#[verifier::reject_recursive_types(T)]
pub struct ExMutex<T: ?Sized>(Mutex<T>);

/// The table that a lock was made to hold. This is what the lock began
/// with, and stays so: what the lock holds later changes behind shared
/// references while the lock remains the same value, and is not named.
pub uninterp spec fn table_at_start(lock: Mutex<PathTable>) -> Map<Seq<char>, Seq<char>>;

/// Whether the table that a lock was made to hold was well-formed.
pub uninterp spec fn sound_at_start(lock: Mutex<PathTable>) -> bool;

/// Calls `Mutex::new`. Trusted: the lock is made to hold the table given.
#[verifier::external_body]
fn lock_table(table: PathTable) -> (lock: Mutex<PathTable>)
    ensures
        table_at_start(lock) == table@,
        sound_at_start(lock) == table.well_formed(),
{
    Mutex::new(table)
}

} // verus!
