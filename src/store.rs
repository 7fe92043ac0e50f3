use vstd::prelude::*;

use crate::json::{
    decode_object, encode_object, entries_map, lemma_entries_index, lemma_entries_keys,
    lemma_entries_len, lemma_entries_remove, lemma_entries_update, parsed_object, scalar_settings,
    settings_json, unique_keys,
};
use crate::text::str_eq;

verus! {

/// What loading `bytes` makes of the cache `before`: `before` overlaid with the object
/// that the bytes hold, the stored values winning; `None` where they hold no object.
pub open spec fn load_result(
    before: Map<Seq<char>, serde_json::Value>,
    bytes: Seq<u8>,
) -> Option<Map<Seq<char>, serde_json::Value>> {
    match parsed_object(bytes) {
        Some(m) => Some(before.union_prefer_right(m)),
        None => None,
    }
}

/// A cache of integers and strings, saved and then loaded into an empty cache, comes
/// back as it was.
pub proof fn lemma_save_load_round_trip(saved: Map<Seq<char>, serde_json::Value>, bytes: Seq<u8>)
    requires
        scalar_settings(saved),
        scalar_settings(saved) ==> parsed_object(bytes) == Some(saved),
    ensures
        load_result(Map::empty(), bytes) == Some(saved),
{
    assert(Map::<Seq<char>, serde_json::Value>::empty().union_prefer_right(saved) =~= saved);
}

/// A copy of a list of entries.
fn copy_entries(s: &Vec<(String, serde_json::Value)>) -> (r: Vec<(String, serde_json::Value)>)
    ensures
        r@ == s@,
{
    let mut r: Vec<(String, serde_json::Value)> = Vec::new();
    let mut i: usize = 0;
    while i < s.len()
        invariant
            0 <= i <= s.len(),
            r@ == s@.subrange(0, i as int),
        decreases s.len() - i,
    {
        let e = (s[i].0.clone(), s[i].1.clone());
        r.push(e);
        i = i + 1;
        assert(r@ =~= s@.subrange(0, i as int));
    }
    assert(r@ =~= s@);
    r
}

/// The position of `key` among the entries, if it is there.
fn find_key(s: &Vec<(String, serde_json::Value)>, key: &str) -> (r: Option<usize>)
    ensures
        match r {
            Some(i) => i < s.len() && s@[i as int].0@ == key@,
            None => !entries_map(s@).contains_key(key@),
        },
{
    let mut i: usize = 0;
    while i < s.len()
        invariant
            0 <= i <= s.len(),
            forall|j: int| 0 <= j < i ==> s@[j].0@ != key@,
        decreases s.len() - i,
    {
        if str_eq(s[i].0.as_str(), key) {
            return Some(i);
        }
        i = i + 1;
    }
    proof {
        lemma_entries_keys(s@);
    }
    None
}

/// Sets `key` to `value` in a list of entries with unique keys.
fn put_entry(s: &mut Vec<(String, serde_json::Value)>, key: String, value: serde_json::Value)
    requires
        unique_keys(old(s)@),
    ensures
        unique_keys(final(s)@),
        entries_map(final(s)@) == entries_map(old(s)@).insert(key@, value),
{
    match find_key(s, key.as_str()) {
        Some(i) => {
            proof {
                lemma_entries_update(s@, i as int, (key, value));
            }
            s.set(i, (key, value));
        },
        None => {
            proof {
                lemma_entries_keys(s@);
                assert(entries_map(s@.push((key, value))) =~= entries_map(s@).insert(key@, value)) by {
                    assert(s@.push((key, value)).drop_last() =~= s@);
                }
                assert forall|a: int, b: int|
                    0 <= a < s@.len() + 1 && 0 <= b < s@.len() + 1 && a != b
                        implies #[trigger] s@.push((key, value))[a].0@
                        != #[trigger] s@.push((key, value))[b].0@ by {
                    if a == s@.len() {
                        assert(s@[b].0@ != key@);
                    } else if b == s@.len() {
                        assert(s@[a].0@ != key@);
                    } else {
                        assert(s@[a].0@ != s@[b].0@);
                    }
                }
            }
            s.push((key, value));
        },
    }
}

/// Settings that a store starts from, before it is built. The store's bytes are always JSON:
/// the builder takes no custom serialize or deserialize functions, since the contracts of
/// `Store::save` and `Store::load` are stated over the JSON encoding.
pub struct StoreBuilder {
    path: String,
    defaults: Option<Vec<(String, serde_json::Value)>>,
    cache: Vec<(String, serde_json::Value)>,
}

impl StoreBuilder {
    /// The backing file, relative to the base directory.
    pub closed spec fn path_view(&self) -> Seq<char> {
        self.path@
    }

    /// The defaults configured so far, if any.
    pub closed spec fn defaults_view(&self) -> Option<Map<Seq<char>, serde_json::Value>> {
        match self.defaults {
            Some(d) => Some(entries_map(d@)),
            None => None,
        }
    }

    /// The contents that the built store starts with.
    pub closed spec fn cache_view(&self) -> Map<Seq<char>, serde_json::Value> {
        entries_map(self.cache@)
    }

    pub closed spec fn wf(&self) -> bool {
        &&& unique_keys(self.cache@)
        &&& match self.defaults {
            Some(d) => unique_keys(d@),
            None => true,
        }
    }

    /// A builder for a store backed by `path`, with no defaults.
    pub fn new(path: String) -> (r: Self)
        ensures
            r.wf(),
            r.path_view() == path@,
            r.defaults_view() is None,
            r.cache_view() == Map::<Seq<char>, serde_json::Value>::empty(),
    {
        let r = StoreBuilder { path, defaults: None, cache: Vec::new() };
        assert(r.cache@ =~= Seq::<(String, serde_json::Value)>::empty());
        r
    }

    /// Makes `defaults` both the defaults and the starting contents.
    pub fn defaults(self, defaults: Vec<(String, serde_json::Value)>) -> (r: Self)
        requires
            self.wf(),
        ensures
            r.wf(),
            r.path_view() == self.path_view(),
            r.defaults_view() == Some(entries_map(defaults@)),
            r.cache_view() == entries_map(defaults@),
    {
        let mut d: Vec<(String, serde_json::Value)> = Vec::new();
        let mut i: usize = 0;
        assert(d@ =~= Seq::<(String, serde_json::Value)>::empty());
        while i < defaults.len()
            invariant
                0 <= i <= defaults.len(),
                unique_keys(d@),
                entries_map(d@) == entries_map(defaults@.subrange(0, i as int)),
            decreases defaults.len() - i,
        {
            let e = (defaults[i].0.clone(), defaults[i].1.clone());
            put_entry(&mut d, e.0, e.1);
            assert(defaults@.subrange(0, i + 1).drop_last() =~= defaults@.subrange(0, i as int));
            i = i + 1;
        }
        assert(defaults@.subrange(0, i as int) =~= defaults@);
        let c = copy_entries(&d);
        StoreBuilder { path: self.path, defaults: Some(d), cache: c }
    }

    /// Adds one default, which the starting contents take too.
    pub fn default(self, key: String, value: serde_json::Value) -> (r: Self)
        requires
            self.wf(),
        ensures
            r.wf(),
            r.path_view() == self.path_view(),
            r.cache_view() == self.cache_view().insert(key@, value),
            r.defaults_view() == Some(
                match self.defaults_view() {
                    Some(d) => d,
                    None => Map::<Seq<char>, serde_json::Value>::empty(),
                }.insert(key@, value),
            ),
    {
        let StoreBuilder { path, defaults, cache } = self;
        let mut cache = cache;
        put_entry(&mut cache, key.clone(), value.clone());
        let mut d = match defaults {
            Some(d) => d,
            None => {
                let e: Vec<(String, serde_json::Value)> = Vec::new();
                assert(entries_map(e@) =~= Map::<Seq<char>, serde_json::Value>::empty());
                e
            },
        };
        put_entry(&mut d, key, value);
        StoreBuilder { path, defaults: Some(d), cache }
    }

    /// The store, holding what was configured.
    pub fn build(self) -> (r: Store)
        requires
            self.wf(),
        ensures
            r.wf(),
            r.path_view() == self.path_view(),
            r.defaults_view() == self.defaults_view(),
            r@ == self.cache_view(),
    {
        Store { path: self.path, defaults: self.defaults, cache: self.cache }
    }
}

/// A key/value settings store: an in-memory cache that is read from and written to
/// the bytes of one backing file.
pub struct Store {
    path: String,
    defaults: Option<Vec<(String, serde_json::Value)>>,
    cache: Vec<(String, serde_json::Value)>,
}

impl View for Store {
    type V = Map<Seq<char>, serde_json::Value>;

    closed spec fn view(&self) -> Map<Seq<char>, serde_json::Value> {
        entries_map(self.cache@)
    }
}

impl Store {
    /// The backing file, relative to the base directory.
    pub closed spec fn path_view(&self) -> Seq<char> {
        self.path@
    }

    /// The defaults configured at construction, if any.
    pub closed spec fn defaults_view(&self) -> Option<Map<Seq<char>, serde_json::Value>> {
        match self.defaults {
            Some(d) => Some(entries_map(d@)),
            None => None,
        }
    }

    pub closed spec fn wf(&self) -> bool {
        &&& unique_keys(self.cache@)
        &&& match self.defaults {
            Some(d) => unique_keys(d@),
            None => true,
        }
    }

    /// The backing file, relative to the base directory.
    pub fn path(&self) -> (r: &str)
        ensures
            r@ == self.path_view(),
    {
        self.path.as_str()
    }

    /// Overlays the object held in `bytes` onto the cache: the stored values win.
    /// Bytes that do not hold an object leave the cache as it was.
    pub fn load(&mut self, bytes: &[u8]) -> (r: Result<(), String>)
        requires
            old(self).wf(),
        ensures
            final(self).wf(),
            final(self).path_view() == old(self).path_view(),
            final(self).defaults_view() == old(self).defaults_view(),
            match load_result(old(self)@, bytes@) {
                Some(m) => r is Ok && final(self)@ == m,
                None => r is Err && final(self)@ == old(self)@,
            },
    {
        let decoded = match decode_object(bytes) {
            Ok(d) => d,
            Err(e) => {
                return Err(e.to_string());
            },
        };
        let ghost start = self@;
        let mut i: usize = 0;
        while i < decoded.len()
            invariant
                0 <= i <= decoded.len(),
                self.wf(),
                self.path_view() == old(self).path_view(),
                self.defaults_view() == old(self).defaults_view(),
                start == old(self)@,
                self@ == start.union_prefer_right(entries_map(decoded@.subrange(0, i as int))),
            decreases decoded.len() - i,
        {
            let k = decoded[i].0.clone();
            let v = decoded[i].1.clone();
            put_entry(&mut self.cache, k, v);
            proof {
                let p = decoded@.subrange(0, i + 1);
                assert(p.drop_last() =~= decoded@.subrange(0, i as int));
                assert(self@ =~= start.union_prefer_right(entries_map(p)));
            }
            i = i + 1;
        }
        assert(decoded@.subrange(0, i as int) =~= decoded@);
        Ok(())
    }

    /// The bytes of the whole cache, for writing to the backing file.
    pub fn save(&self) -> (r: Result<Vec<u8>, String>)
        requires
            self.wf(),
        ensures
            r is Ok,
            r->Ok_0@ == settings_json(self@),
            scalar_settings(self@) ==> parsed_object(r->Ok_0@) == Some(self@),
    {
        match encode_object(&self.cache) {
            Ok(b) => Ok(b),
            Err(e) => Err(e.to_string()),
        }
    }

    /// Sets `key` to `value` in the cache.
    pub fn insert(&mut self, key: String, value: serde_json::Value) -> (r: Result<(), String>)
        requires
            old(self).wf(),
        ensures
            final(self).wf(),
            r is Ok,
            final(self)@ == old(self)@.insert(key@, value),
            final(self).path_view() == old(self).path_view(),
            final(self).defaults_view() == old(self).defaults_view(),
    {
        put_entry(&mut self.cache, key, value);
        Ok(())
    }

    /// The value under `key`, if any.
    pub fn get(&self, key: &str) -> (r: Option<&serde_json::Value>)
        requires
            self.wf(),
        ensures
            match r {
                Some(v) => self@.contains_key(key@) && *v == self@[key@],
                None => !self@.contains_key(key@),
            },
    {
        match find_key(&self.cache, key) {
            Some(i) => {
                proof {
                    lemma_entries_index(self.cache@, i as int);
                }
                Some(&self.cache[i].1)
            },
            None => None,
        }
    }

    /// Whether `key` has a value.
    pub fn has(&self, key: &str) -> (r: bool)
        requires
            self.wf(),
        ensures
            r == self@.contains_key(key@),
    {
        match find_key(&self.cache, key) {
            Some(i) => {
                proof {
                    lemma_entries_index(self.cache@, i as int);
                }
                true
            },
            None => false,
        }
    }

    /// Removes `key`; says whether it was there.
    pub fn delete(&mut self, key: &str) -> (r: Result<bool, String>)
        requires
            old(self).wf(),
        ensures
            final(self).wf(),
            r == Ok::<bool, String>(old(self)@.contains_key(key@)),
            final(self)@ == old(self)@.remove(key@),
            final(self).path_view() == old(self).path_view(),
            final(self).defaults_view() == old(self).defaults_view(),
    {
        match find_key(&self.cache, key) {
            Some(i) => {
                proof {
                    lemma_entries_index(self.cache@, i as int);
                    lemma_entries_remove(self.cache@, i as int);
                }
                self.cache.remove(i);
                Ok(true)
            },
            None => {
                assert(self@.remove(key@) =~= self@);
                Ok(false)
            },
        }
    }

    /// Empties the cache.
    pub fn clear(&mut self) -> (r: Result<(), String>)
        requires
            old(self).wf(),
        ensures
            final(self).wf(),
            r is Ok,
            final(self)@ == Map::<Seq<char>, serde_json::Value>::empty(),
            final(self).path_view() == old(self).path_view(),
            final(self).defaults_view() == old(self).defaults_view(),
    {
        self.cache.clear();
        assert(self@ =~= Map::<Seq<char>, serde_json::Value>::empty());
        Ok(())
    }

    /// Puts the defaults back in place of the cache, or empties it where there are none.
    pub fn reset(&mut self) -> (r: Result<(), String>)
        requires
            old(self).wf(),
        ensures
            final(self).wf(),
            r is Ok,
            final(self)@ == match old(self).defaults_view() {
                Some(d) => d,
                None => Map::<Seq<char>, serde_json::Value>::empty(),
            },
            final(self).path_view() == old(self).path_view(),
            final(self).defaults_view() == old(self).defaults_view(),
    {
        match &self.defaults {
            Some(d) => {
                self.cache = copy_entries(d);
                Ok(())
            },
            None => self.clear(),
        }
    }

    /// The keys in the order in which `keys`, `values` and `entries` hand them out.
    pub closed spec fn key_order(&self) -> Seq<Seq<char>> {
        self.cache@.map_values(|e: (String, serde_json::Value)| e.0@)
    }

    /// The keys, each once.
    pub fn keys(&self) -> (r: Vec<String>)
        requires
            self.wf(),
        ensures
            r@.len() == self@.len(),
            r@.len() == self.key_order().len(),
            forall|i: int| 0 <= i < r@.len() ==> (#[trigger] r@[i])@ == self.key_order()[i],
            forall|i: int, j: int| 0 <= i < r@.len() && 0 <= j < r@.len() && i != j
                ==> #[trigger] r@[i]@ != #[trigger] r@[j]@,
            forall|k: Seq<char>|
                self@.contains_key(k) <==> exists|i: int| 0 <= i < r@.len() && r@[i]@ == k,
    {
        let mut r: Vec<String> = Vec::new();
        let mut i: usize = 0;
        while i < self.cache.len()
            invariant
                0 <= i <= self.cache.len(),
                r@.len() == i,
                forall|j: int| 0 <= j < i ==> #[trigger] r@[j] == self.cache@[j].0,
            decreases self.cache.len() - i,
        {
            r.push(self.cache[i].0.clone());
            i = i + 1;
        }
        proof {
            lemma_entries_len(self.cache@);
            lemma_entries_keys(self.cache@);
            assert forall|i: int| 0 <= i < r@.len() implies (#[trigger] r@[i])@ == self.key_order()[i] by {
                assert(r@[i] == self.cache@[i].0);
            }
            assert forall|i: int, j: int| 0 <= i < r@.len() && 0 <= j < r@.len() && i != j
                implies #[trigger] r@[i]@ != #[trigger] r@[j]@ by {
                assert(self.cache@[i].0@ != self.cache@[j].0@);
            }
            assert forall|k: Seq<char>| self@.contains_key(k) implies exists|i: int|
                0 <= i < r@.len() && r@[i]@ == k by {
                let i = choose|i: int| 0 <= i < self.cache@.len() && self.cache@[i].0@ == k;
                assert(r@[i] == self.cache@[i].0);
            }
            assert forall|k: Seq<char>| (exists|i: int| 0 <= i < r@.len() && r@[i]@ == k)
                implies self@.contains_key(k) by {
                let i = choose|i: int| 0 <= i < r@.len() && r@[i]@ == k;
                assert(r@[i] == self.cache@[i].0);
            }
        }
        r
    }

    /// The values, the value under each key in the order that `keys` gives.
    pub fn values(&self) -> (r: Vec<serde_json::Value>)
        requires
            self.wf(),
        ensures
            r@.len() == self@.len(),
            r@.len() == self.key_order().len(),
            forall|i: int| 0 <= i < r@.len() ==> self@.contains_key(#[trigger] self.key_order()[i]),
            forall|i: int| 0 <= i < r@.len() ==> #[trigger] r@[i] == self@[self.key_order()[i]],
    {
        let mut r: Vec<serde_json::Value> = Vec::new();
        let mut i: usize = 0;
        while i < self.cache.len()
            invariant
                0 <= i <= self.cache.len(),
                r@.len() == i,
                forall|j: int| 0 <= j < i ==> #[trigger] r@[j] == self.cache@[j].1,
            decreases self.cache.len() - i,
        {
            r.push(self.cache[i].1.clone());
            i = i + 1;
        }
        proof {
            lemma_entries_len(self.cache@);
            assert forall|i: int| #![trigger r@[i]] 0 <= i < r@.len() implies self@.contains_key(
                self.key_order()[i],
            ) && r@[i] == self@[self.key_order()[i]] by {
                lemma_entries_index(self.cache@, i);
                assert(r@[i] == self.cache@[i].1);
                assert(self.key_order()[i] == self.cache@[i].0@);
            }
            assert forall|i: int| 0 <= i < r@.len() implies self@.contains_key(
                #[trigger] self.key_order()[i],
            ) by {
                lemma_entries_index(self.cache@, i);
                assert(self.key_order()[i] == self.cache@[i].0@);
            }
        }
        r
    }

    /// The entries, each key once.
    pub fn entries(&self) -> (r: Vec<(String, serde_json::Value)>)
        requires
            self.wf(),
        ensures
            unique_keys(r@),
            entries_map(r@) == self@,
            r@.len() == self@.len(),
    {
        proof {
            lemma_entries_len(self.cache@);
        }
        copy_entries(&self.cache)
    }

    /// The number of keys.
    pub fn len(&self) -> (r: usize)
        requires
            self.wf(),
        ensures
            r == self@.len(),
    {
        proof {
            lemma_entries_len(self.cache@);
        }
        self.cache.len()
    }

    /// Whether the cache holds no key.
    pub fn is_empty(&self) -> (r: bool)
        requires
            self.wf(),
        ensures
            r == (self@.len() == 0),
    {
        proof {
            lemma_entries_len(self.cache@);
        }
        self.cache.len() == 0
    }
}

} // verus!
