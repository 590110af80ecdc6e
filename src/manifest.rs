//! The manifest: which published path each logical key was written to.
use vstd::prelude::*;

use crate::error::CremeError;

verus! {

#[verifier::external_type_specification]
#[verifier::external_body]
pub struct ExJsonError(serde_json::Error);

/// The JSON object text that serde_json prints, pretty, for an object whose
/// members are the given key and string value pairs.
pub uninterp spec fn json_object_text(entries: Seq<(Seq<char>, Seq<char>)>) -> Seq<char>;

pub open spec fn pair_view(p: (String, String)) -> (Seq<char>, Seq<char>) {
    (p.0@, p.1@)
}

/// Relies on `serde_json::to_string_pretty` over a map of strings to strings:
/// the pretty-printed JSON object with those members, in key order. The keys
/// are distinct, so collecting them loses none. It fails only for a
/// `Serialize` impl that chooses to fail or for a map with non-string keys,
/// and a `BTreeMap` of strings has neither.
#[verifier::external_body]
fn json_object(entries: &Vec<(String, String)>) -> (r: Result<String, serde_json::Error>)
    requires
        forall|i: int, j: int|
            0 <= i < j < entries@.len() ==> entries@[i].0@ != entries@[j].0@,
    ensures
        r is Ok,
        r matches Ok(text) ==> text@ == json_object_text(entries@.map_values(|p| pair_view(p))),
{
    let map: std::collections::BTreeMap<&String, &String> = entries.iter().map(|(k, v)| (k, v)).collect();
    serde_json::to_string_pretty(&map)
}

/// A table from logical key to published path, at most one entry per key.
pub struct Manifest {
    entries: Vec<(String, String)>,
    contents: Ghost<Map<Seq<char>, Seq<char>>>,
}

impl View for Manifest {
    type V = Map<Seq<char>, Seq<char>>;

    closed spec fn view(&self) -> Map<Seq<char>, Seq<char>> {
        self.contents@
    }
}

impl Manifest {
    /// The entries as key and value views, in the order they were first registered.
    pub closed spec fn pairs(&self) -> Seq<(Seq<char>, Seq<char>)> {
        self.entries@.map_values(|p| pair_view(p))
    }

    pub closed spec fn wf(&self) -> bool {
        let e = self.pairs();
        &&& forall|i: int, j: int| 0 <= i < j < e.len() ==> e[i].0 != e[j].0
        &&& forall|k: Seq<char>| #[trigger]
            self@.contains_key(k) <==> exists|i: int| 0 <= i < e.len() && e[i].0 == k
        &&& forall|i: int| 0 <= i < e.len() ==> #[trigger] self@[e[i].0] == e[i].1
    }

    /// The entries list each key of the manifest once, with its value.
    pub proof fn lemma_pairs(&self)
        requires
            self.wf(),
        ensures
            self.pairs().len() == self@.dom().len(),
            forall|i: int|
                0 <= i < self.pairs().len() ==> self@.contains_key(#[trigger] self.pairs()[i].0)
                    && self@[self.pairs()[i].0] == self.pairs()[i].1,
            forall|k: Seq<char>| #[trigger]
                self@.contains_key(k) ==> exists|i: int|
                    0 <= i < self.pairs().len() && self.pairs()[i].0 == k,
    {
        let e = self.pairs();
        let keys = e.map_values(|p: (Seq<char>, Seq<char>)| p.0);
        assert forall|i: int, j: int| 0 <= i < j < keys.len() implies keys[i] != keys[j] by {
            assert(keys[i] == e[i].0 && keys[j] == e[j].0);
        }
        keys.unique_seq_to_set();
        assert(keys.to_set() =~= self@.dom()) by {
            assert forall|k: Seq<char>| keys.to_set().contains(k) implies self@.dom().contains(k) by {
                let i = choose|i: int| 0 <= i < keys.len() && keys[i] == k;
                assert(e[i].0 == k);
            }
            assert forall|k: Seq<char>| self@.dom().contains(k) implies keys.to_set().contains(k) by {
                let i = choose|i: int| 0 <= i < e.len() && e[i].0 == k;
                assert(keys[i] == k);
            }
        }
        assert forall|i: int| 0 <= i < e.len() implies self@.contains_key(#[trigger] e[i].0) by {
        }
    }

    /// An empty manifest.
    pub fn new() -> (r: Manifest)
        ensures
            r.wf(),
            r@ == Map::<Seq<char>, Seq<char>>::empty(),
    {
        Manifest { entries: Vec::new(), contents: Ghost(Map::empty()) }
    }

    /// Records that `key` was published at `value`; an earlier entry for the
    /// same key is replaced.
    pub fn register(&mut self, key: String, value: String)
        requires
            old(self).wf(),
        ensures
            final(self).wf(),
            final(self)@ == old(self)@.insert(key@, value@),
    {
        let ghost e0 = self.pairs();
        let ghost m0 = self@;
        let n = self.entries.len();
        let mut i: usize = 0;
        while i < n
            invariant
                self.entries@.len() == n,
                self.pairs() == e0,
                self@ == m0,
                self.wf(),
                m0 == old(self)@,
                forall|j: int| 0 <= j < i ==> e0[j].0 != key@,
            decreases n - i,
        {
            if self.entries[i].0 == key {
                let ghost k = key@;
                assert(e0[i as int] == pair_view(self.entries@[i as int]));
                assert(e0[i as int].0 == k);
                self.entries.set(i, (key, value));
                self.contents = Ghost(m0.insert(k, value@));
                let ghost e = self.pairs();
                assert(e =~= e0.update(i as int, (k, value@)));
                assert forall|k2: Seq<char>| #[trigger]
                    self@.contains_key(k2) <==> exists|j: int|
                        0 <= j < e.len() && e[j].0 == k2 by {
                    if self@.contains_key(k2) {
                        if k2 == k {
                            assert(e[i as int].0 == k2);
                        } else {
                            assert(m0.contains_key(k2));
                            let j = choose|j: int| 0 <= j < e0.len() && e0[j].0 == k2;
                            assert(e[j].0 == k2);
                        }
                    }
                    if exists|j: int| 0 <= j < e.len() && e[j].0 == k2 {
                        let j = choose|j: int| 0 <= j < e.len() && e[j].0 == k2;
                        assert(e0[j].0 == k2);
                        assert(m0.contains_key(k2));
                    }
                }
                assert forall|j: int| 0 <= j < e.len() implies #[trigger] self@[e[j].0] == e[j].1 by {
                    if j != i {
                        assert(e0[j].0 != k);
                    }
                }
                return;
            }
            assert(e0[i as int] == pair_view(self.entries@[i as int]));
            i = i + 1;
        }
        let ghost k = key@;
        let ghost v = value@;
        self.entries.push((key, value));
        self.contents = Ghost(m0.insert(k, v));
        let ghost e = self.pairs();
        assert(e =~= e0.push((k, v)));
        assert(!m0.contains_key(k)) by {
            if m0.contains_key(k) {
                let j = choose|j: int| 0 <= j < e0.len() && e0[j].0 == k;
            }
        }
        assert forall|k2: Seq<char>| #[trigger]
            self@.contains_key(k2) <==> exists|j: int| 0 <= j < e.len() && e[j].0 == k2 by {
            if self@.contains_key(k2) {
                if k2 == k {
                    assert(e[n as int].0 == k2);
                } else {
                    assert(m0.contains_key(k2));
                    let j = choose|j: int| 0 <= j < e0.len() && e0[j].0 == k2;
                    assert(e[j].0 == k2);
                }
            }
            if exists|j: int| 0 <= j < e.len() && e[j].0 == k2 {
                let j = choose|j: int| 0 <= j < e.len() && e[j].0 == k2;
                if j < n {
                    assert(e0[j].0 == k2);
                }
            }
        }
        assert forall|j: int| 0 <= j < e.len() implies #[trigger] self@[e[j].0] == e[j].1 by {
            if j < n {
                assert(e0[j].0 != k);
            }
        }
    }

    /// The published path of `key`, if it was registered.
    pub fn lookup(&self, key: &String) -> (r: Option<String>)
        requires
            self.wf(),
        ensures
            match r {
                Some(v) => self@.contains_key(key@) && self@[key@] == v@,
                None => !self@.contains_key(key@),
            },
    {
        let n = self.entries.len();
        for i in 0..n
            invariant
                n == self.entries@.len(),
                self.wf(),
                forall|j: int| 0 <= j < i ==> self.pairs()[j].0 != key@,
        {
            if self.entries[i].0 == *key {
                let ghost e = self.pairs();
                assert(e[i as int] == pair_view(self.entries@[i as int]));
                assert(e[i as int].0 == key@);
                assert(self@[e[i as int].0] == e[i as int].1);
                assert(self@.contains_key(e[i as int].0));
                let v = self.entries[i].1.clone();
                assert(v@ == e[i as int].1);
                return Some(v);
            }
            assert(self.pairs()[i as int] == pair_view(self.entries@[i as int]));
        }
        None
    }

    /// The number of keys.
    pub fn len(&self) -> (r: usize)
        requires
            self.wf(),
        ensures
            r == self@.dom().len(),
    {
        proof {
            self.lemma_pairs();
        }
        self.entries.len()
    }

    /// The manifest as a JSON object from logical key to published path.
    pub fn serialize(&self) -> (r: Result<String, CremeError>)
        requires
            self.wf(),
        ensures
            r is Ok,
            r matches Ok(text) ==> text@ == json_object_text(self.pairs()),
    {
        proof {
            assert forall|i: int, j: int| 0 <= i < j < self.entries@.len() implies self.entries@[i].0@
                != self.entries@[j].0@ by {
                assert(self.pairs()[i] == pair_view(self.entries@[i]));
                assert(self.pairs()[j] == pair_view(self.entries@[j]));
            }
        }
        match json_object(&self.entries) {
            Ok(text) => Ok(text),
            Err(e) => Err(CremeError::Serde(e)),
        }
    }
}

/// The path under which application code refers to the asset `name`: its
/// published path (relative to the output assets directory) when a manifest
/// is given; `assets/` and the name itself otherwise, where assets are
/// served straight from their source directory.
pub fn asset(manifest: Option<&Manifest>, name: &String) -> (r: Result<String, CremeError>)
    requires
        manifest matches Some(m) ==> m.wf(),
    ensures
        manifest is None ==> (r matches Ok(p) && p@ == "assets/"@ + name@),
        manifest matches Some(m) ==> {
            &&& r is Ok <==> m@.contains_key(name@)
            &&& r matches Ok(p) ==> p@ == m@[name@]
            &&& r matches Err(e) ==> e is UnresolvedReference
        },
{
    match manifest {
        None => {
            let mut path = "assets/".to_string();
            path.append(name.as_str());
            Ok(path)
        },
        Some(m) => match m.lookup(name) {
            Some(published) => Ok(published),
            None => Err(CremeError::UnresolvedReference(name.clone())),
        },
    }
}

} // verus!
