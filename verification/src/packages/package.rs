//! Packages and where they come from.

use crate::utility::text::same_text;
use vstd::prelude::*;

verus! {

/// How the source of a package is fetched.
#[derive(Clone, Copy, Debug, PartialEq, Eq, Structural)]
pub enum SourceType {
    Git,
    Http,
}

/// Where a package comes from on one platform.
#[derive(Clone, Debug, PartialEq, Eq)]
pub struct SourceInfo {
    pub source_type: SourceType,
    pub source: String,
}

/// The index of the first of `keys` whose text is `key`, or the number of
/// keys where none is.
pub open spec fn index_of(keys: Seq<String>, key: Seq<char>) -> int
    decreases keys.len(),
{
    if keys.len() == 0 {
        0
    } else if keys[0]@ == key {
        0
    } else {
        1 + index_of(keys.drop_first(), key)
    }
}

/// What `index_of` finds: the first index that holds the key.
pub proof fn lemma_index_of(keys: Seq<String>, key: Seq<char>)
    ensures
        0 <= index_of(keys, key) <= keys.len(),
        index_of(keys, key) < keys.len() ==> keys[index_of(keys, key)]@ == key,
        forall|i: int| 0 <= i < index_of(keys, key) ==> (#[trigger] keys[i])@ != key,
    decreases keys.len(),
{
    if keys.len() > 0 && keys[0]@ != key {
        let rest = keys.drop_first();
        lemma_index_of(rest, key);
        assert forall|i: int| 0 <= i < index_of(keys, key) implies (#[trigger] keys[i])@ != key by {
            if i > 0 {
                assert(rest[i - 1] == keys[i]);
            }
        }
    }
}

/// The index that holds the key, with none before it that does, is what
/// `index_of` finds.
pub proof fn lemma_index_is(keys: Seq<String>, key: Seq<char>, at: int)
    requires
        0 <= at <= keys.len(),
        at < keys.len() ==> keys[at]@ == key,
        forall|i: int| 0 <= i < at ==> (#[trigger] keys[i])@ != key,
    ensures
        index_of(keys, key) == at,
{
    lemma_index_of(keys, key);
    let found = index_of(keys, key);
    if found < at {
        assert(keys[found]@ != key);
    }
}

/// Whether no two of `keys` have the same text.
pub open spec fn distinct(keys: Seq<String>) -> bool {
    forall|i: int, j: int| 0 <= i < j < keys.len() ==> (#[trigger] keys[i])@ != (#[trigger] keys[j])@
}

/// The map that keys and values stand for.
pub open spec fn as_map<V>(keys: Seq<String>, values: Seq<V>) -> Map<Seq<char>, V> {
    Map::new(
        |key: Seq<char>| index_of(keys, key) < keys.len(),
        |key: Seq<char>| values[index_of(keys, key)],
    )
}

/// A map from texts to values that remembers the order in which its keys
/// came. No key occurs twice.
pub struct TextMap<V> {
    keys: Vec<String>,
    values: Vec<V>,
}

impl<V> View for TextMap<V> {
    type V = Map<Seq<char>, V>;

    closed spec fn view(&self) -> Map<Seq<char>, V> {
        as_map(self.keys@, self.values@)
    }
}

impl<V> TextMap<V> {
    /// The keys, in the order in which they came.
    pub closed spec fn keys(&self) -> Seq<String> {
        self.keys@
    }

    /// The values, each at the index of its key.
    pub closed spec fn values(&self) -> Seq<V> {
        self.values@
    }

    /// The invariant: every key has its value, and no key occurs twice.
    pub closed spec fn wf(&self) -> bool {
        &&& self.keys@.len() == self.values@.len()
        &&& distinct(self.keys@)
    }

    /// What the keys and values have to do with the map.
    pub proof fn lemma_entries(&self)
        requires
            self.wf(),
        ensures
            self.keys().len() == self.values().len(),
            distinct(self.keys()),
            self@ == as_map(self.keys(), self.values()),
            forall|i: int|
                0 <= i < self.keys().len() ==> self@.contains_key((#[trigger] self.keys()[i])@)
                    && self@[self.keys()[i]@] == self.values()[i],
    {
        assert forall|i: int| 0 <= i < self.keys().len() implies self@.contains_key(
            (#[trigger] self.keys()[i])@,
        ) && self@[self.keys()[i]@] == self.values()[i] by {
            lemma_index_of(self.keys@, self.keys@[i]@);
            let found = index_of(self.keys@, self.keys@[i]@);
            if found < i {
                assert(self.keys@[found]@ != self.keys@[i]@);
            }
        }
    }

    /// An empty map.
    pub fn new() -> (map: TextMap<V>)
        ensures
            map.wf(),
            map@ == Map::<Seq<char>, V>::empty(),
            map.keys().len() == 0,
    {
        let map = TextMap { keys: Vec::new(), values: Vec::new() };
        assert(map@ =~= Map::<Seq<char>, V>::empty());
        map
    }

    /// How many keys the map has.
    pub fn len(&self) -> (count: usize)
        ensures
            count == self.keys().len(),
    {
        self.keys.len()
    }

    /// Where `key` stands among the keys, if it is one of them.
    fn position(&self, key: &str) -> (at: Option<usize>)
        requires
            self.wf(),
        ensures
            match at {
                Some(index) => index == index_of(self.keys@, key@) && index < self.keys@.len(),
                None => index_of(self.keys@, key@) == self.keys@.len(),
            },
    {
        let mut index: usize = 0;
        while index < self.keys.len()
            invariant
                index <= self.keys.len(),
                forall|i: int| 0 <= i < index ==> (#[trigger] self.keys@[i])@ != key@,
            decreases self.keys.len() - index,
        {
            if same_text(self.keys[index].as_str(), key) {
                proof {
                    lemma_index_is(self.keys@, key@, index as int);
                }
                return Some(index);
            }
            index = index + 1;
        }
        proof {
            lemma_index_is(self.keys@, key@, index as int);
        }
        None
    }

    /// The value of `key`, if the map has one.
    pub fn get(&self, key: &str) -> (value: Option<&V>)
        requires
            self.wf(),
        ensures
            match value {
                Some(v) => self@.contains_key(key@) && *v == self@[key@],
                None => !self@.contains_key(key@),
            },
    {
        match self.position(key) {
            Some(index) => Some(&self.values[index]),
            None => None,
        }
    }

    /// Whether the map has a value for `key`.
    pub fn contains_key(&self, key: &str) -> (has: bool)
        requires
            self.wf(),
        ensures
            has == self@.contains_key(key@),
    {
        self.position(key).is_some()
    }

    /// Gives `key` the value `value`. A key that the map has keeps its
    /// place; a new key comes last.
    pub fn insert(&mut self, key: String, value: V)
        requires
            old(self).wf(),
        ensures
            final(self).wf(),
            final(self)@ == old(self)@.insert(key@, value),
            final(self).keys().len() == old(self).keys().len() + if old(self)@.contains_key(key@) {
                0int
            } else {
                1int
            },
    {
        let ghost before_keys = self.keys@;
        let ghost before_values = self.values@;
        let ghost wanted = as_map(before_keys, before_values).insert(key@, value);
        proof {
            lemma_index_of(before_keys, key@);
        }
        match self.position(key.as_str()) {
            Some(index) => {
                self.values.set(index, value);
                assert forall|k: Seq<char>| #[trigger] wanted.contains_key(k) == self@.contains_key(
                    k,
                ) && (wanted.contains_key(k) ==> self@[k] == wanted[k]) by {
                    lemma_index_of(before_keys, k);
                }
                assert(self@ =~= wanted);
            },
            None => {
                self.keys.push(key);
                self.values.push(value);
                let ghost after_keys = self.keys@;
                assert forall|i: int, j: int| 0 <= i < j < after_keys.len() implies (
                #[trigger] after_keys[i])@ != (#[trigger] after_keys[j])@ by {
                    assert(before_keys[i] == after_keys[i]);
                    if j < before_keys.len() {
                        assert(before_keys[j] == after_keys[j]);
                    }
                }
                assert forall|k: Seq<char>| #[trigger] wanted.contains_key(k) == self@.contains_key(
                    k,
                ) && (wanted.contains_key(k) ==> self@[k] == wanted[k]) by {
                    lemma_index_of(before_keys, k);
                    let found = index_of(before_keys, k);
                    if found < before_keys.len() {
                        assert forall|i: int| 0 <= i < found implies (#[trigger] after_keys[i])@
                            != k by {
                            assert(before_keys[i] == after_keys[i]);
                        }
                        assert(after_keys[found] == before_keys[found]);
                        lemma_index_is(after_keys, k, found);
                    } else if k == key@ {
                        assert forall|i: int| 0 <= i < before_keys.len() implies (
                        #[trigger] after_keys[i])@ != k by {
                            assert(before_keys[i] == after_keys[i]);
                        }
                        lemma_index_is(after_keys, k, before_keys.len() as int);
                    } else {
                        assert forall|i: int| 0 <= i < after_keys.len() implies (
                        #[trigger] after_keys[i])@ != k by {
                            if i < before_keys.len() {
                                assert(before_keys[i] == after_keys[i]);
                            }
                        }
                        lemma_index_is(after_keys, k, after_keys.len() as int);
                    }
                }
                assert(self@ =~= wanted);
            },
        }
    }

    /// The key at `index`, in the order in which the keys came.
    pub fn key_at(&self, index: usize) -> (key: &String)
        requires
            self.wf(),
            index < self.keys().len(),
        ensures
            *key == self.keys()[index as int],
            self@.contains_key(key@),
    {
        proof {
            self.lemma_entries();
        }
        &self.keys[index]
    }

    /// The value of the key at `index`.
    pub fn value_at(&self, index: usize) -> (value: &V)
        requires
            self.wf(),
            index < self.keys().len(),
        ensures
            *value == self.values()[index as int],
            *value == self@[self.keys()[index as int]@],
    {
        proof {
            self.lemma_entries();
        }
        &self.values[index]
    }
}

/// One package: where it is put, and where it comes from on each platform.
pub struct Package {
    pub target_dir: String,
    pub platform: TextMap<SourceInfo>,
}

/// The packages of a registry file, by name.
pub struct PackageRegistry {
    pub packages: TextMap<Package>,
}

} // verus!
