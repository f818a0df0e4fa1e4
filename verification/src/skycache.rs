use vstd::prelude::*;

use crate::world::{face_side, side_resolution, TextureQuality};

verus! {

/// A cache key: the source image and the side length of a cube face.
pub type SkyKey = (u64, u32);

/// Entries with distinct keys.
pub open spec fn sky_keys_distinct<V>(s: Seq<(SkyKey, V)>) -> bool {
    forall|i: int, j: int| 0 <= i < j < s.len() ==> #[trigger] s[i].0 != #[trigger] s[j].0
}

pub open spec fn sky_has_key<V>(s: Seq<(SkyKey, V)>, k: SkyKey) -> bool {
    exists|i: int| 0 <= i < s.len() && #[trigger] s[i].0 == k
}

pub open spec fn sky_entries_map<V>(s: Seq<(SkyKey, V)>) -> Map<SkyKey, V> {
    Map::new(
        |k: SkyKey| sky_has_key(s, k),
        |k: SkyKey| s[choose|i: int| 0 <= i < s.len() && #[trigger] s[i].0 == k].1,
    )
}

proof fn lemma_sky_entry_in_map<V>(s: Seq<(SkyKey, V)>, i: int)
    requires
        sky_keys_distinct(s),
        0 <= i < s.len(),
    ensures
        sky_entries_map(s).contains_key(s[i].0),
        sky_entries_map(s)[s[i].0] == s[i].1,
{
    let k = s[i].0;
    assert(sky_has_key(s, k));
    let c = choose|c: int| 0 <= c < s.len() && #[trigger] s[c].0 == k;
    if c != i {
        if c < i {
            assert(s[c].0 != s[i].0);
        } else {
            assert(s[i].0 != s[c].0);
        }
    }
}

/// Cube-mapped skyboxes already made: one per source image and face size.
pub struct SkyboxCache<V> {
    entries: Vec<(SkyKey, V)>,
}

impl<V> View for SkyboxCache<V> {
    type V = Map<SkyKey, V>;

    closed spec fn view(&self) -> Map<SkyKey, V> {
        sky_entries_map(self.entries@)
    }
}

/// The key of a source image at a texture quality.
pub open spec fn sky_key(source: u64, quality: TextureQuality) -> SkyKey {
    (source, face_side(quality))
}

impl<V> SkyboxCache<V> {
    #[verifier::type_invariant]
    closed spec fn inv(self) -> bool {
        sky_keys_distinct(self.entries@)
    }

    /// Nothing cached.
    pub fn new() -> (c: Self)
        ensures
            c@ == Map::<SkyKey, V>::empty(),
    {
        let c = SkyboxCache { entries: Vec::new() };
        assert(c@ =~= Map::<SkyKey, V>::empty());
        c
    }

    fn find(&self, key: SkyKey) -> (r: Option<usize>)
        ensures
            match r {
                Some(i) => i < self.entries@.len() && self.entries@[i as int].0 == key,
                None => !sky_has_key(self.entries@, key),
            },
    {
        let mut i: usize = 0;
        while i < self.entries.len()
            invariant
                i <= self.entries@.len(),
                forall|j: int| 0 <= j < i ==> self.entries@[j].0 != key,
            decreases self.entries@.len() - i,
        {
            let k = self.entries[i].0;
            if k.0 == key.0 && k.1 == key.1 {
                return Some(i);
            }
            i = i + 1;
        }
        None
    }

    /// The skybox made from `source` at `quality`, if there is one.
    pub fn lookup(&self, source: u64, quality: TextureQuality) -> (r: Option<&V>)
        ensures
            r is Some <==> self@.contains_key(sky_key(source, quality)),
            r matches Some(v) ==> *v == self@[sky_key(source, quality)],
    {
        proof {
            use_type_invariant(self);
        }
        let key = (source, side_resolution(quality));
        match self.find(key) {
            Some(i) => {
                proof {
                    lemma_sky_entry_in_map(self.entries@, i as int);
                }
                Some(&self.entries[i].1)
            },
            None => None,
        }
    }

    /// Remember the skybox made from `source` at `quality` (in place of any
    /// earlier one for the same key).
    pub fn remember(&mut self, source: u64, quality: TextureQuality, skybox: V)
        ensures
            final(self)@ == old(self)@.insert(sky_key(source, quality), skybox),
    {
        proof {
            use_type_invariant(&*self);
        }
        let key = (source, side_resolution(quality));
        let found = self.find(key);
        let mut entries: Vec<(SkyKey, V)> = Vec::new();
        std::mem::swap(&mut entries, &mut self.entries);
        let ghost s0 = entries@;
        let ghost pair = (key, skybox);
        match found {
            Some(i) => {
                entries.set(i, (key, skybox));
            },
            None => {
                entries.push((key, skybox));
            },
        }
        let ghost s1 = entries@;
        let ghost p: int = match found {
            Some(i) => i as int,
            None => s0.len() as int,
        };
        assert(s1[p] == pair);
        assert forall|j: int| 0 <= j < s1.len() && j != p implies #[trigger] s1[j] == s0[j] by {}
        assert(sky_keys_distinct(s1)) by {
            assert forall|a: int, b: int| 0 <= a < b < s1.len() implies #[trigger] s1[a].0
                != #[trigger] s1[b].0 by {
                if a != p && b != p {
                    assert(s1[a] == s0[a] && s1[b] == s0[b]);
                } else if a == p {
                    assert(s1[b] == s0[b]);
                    if found is Some {
                        assert(s0[a].0 != s0[b].0);
                    }
                } else {
                    assert(s1[a] == s0[a]);
                    if found is Some {
                        assert(s0[a].0 != s0[b].0);
                    } else {
                        assert(!sky_has_key(s0, key));
                    }
                }
            }
        }
        assert(sky_entries_map(s1) =~= sky_entries_map(s0).insert(key, pair.1)) by {
            assert forall|k: SkyKey| #[trigger] sky_entries_map(s1).contains_key(k)
                <==> sky_entries_map(s0).insert(key, pair.1).contains_key(k) by {
                if sky_has_key(s1, k) && k != key {
                    let j = choose|j: int| 0 <= j < s1.len() && #[trigger] s1[j].0 == k;
                    assert(s1[j] == s0[j]);
                    assert(sky_has_key(s0, k));
                }
                if sky_has_key(s0, k) && k != key {
                    let j = choose|j: int| 0 <= j < s0.len() && #[trigger] s0[j].0 == k;
                    assert(j != p);
                    assert(s1[j] == s0[j]);
                    assert(sky_has_key(s1, k));
                }
                if k == key {
                    assert(s1[p].0 == key);
                    assert(sky_has_key(s1, k));
                }
            }
            assert forall|k: SkyKey| #[trigger] sky_entries_map(s1).contains_key(k) implies sky_entries_map(
                s1,
            )[k] == sky_entries_map(s0).insert(key, pair.1)[k] by {
                let j = choose|j: int| 0 <= j < s1.len() && #[trigger] s1[j].0 == k;
                lemma_sky_entry_in_map(s1, j);
                if k == key {
                    lemma_sky_entry_in_map(s1, p);
                } else {
                    assert(j != p);
                    assert(s1[j] == s0[j]);
                    lemma_sky_entry_in_map(s0, j);
                }
            }
        }
        self.entries = entries;
    }
}

} // verus!
