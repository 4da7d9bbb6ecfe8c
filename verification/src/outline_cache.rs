//! The bounded glyph-outline cache shared by the renderers.
//!
//! Keys carry the raw-font generation, the collection face and the glyph, so
//! two different fonts installed under one [`FontId`] never share outlines.
//! Computing an outline is the caller's work (handed in as a closure); the
//! cache decides what is reused and what is kept.

use std::sync::Arc;
use vstd::prelude::*;

use crate::font_id::FontId;
use crate::font_loader::OutlineSourceId;
use crate::parsed_font::{font_face_index, font_face_index_spec, SystemFaces};
use crate::unicode_font::share_arc;

verus! {

/// Entry limit of the outline cache; a full cache is cleared before an insert.
pub const OUTLINE_CACHE_CAP: usize = 16384;

/// One glyph of one face of one loaded font generation.
#[derive(Clone, Copy, Debug, PartialEq, Eq, Hash, Structural)]
pub struct OutlineCacheKey {
    pub source: OutlineSourceId,
    pub font_id: FontId,
    pub face_index: u32,
    pub glyph_id: u16,
}

/// The key of glyph `glyph_id` of `font_id` loaded as generation `source`.
pub fn outline_cache_key(source: OutlineSourceId, font_id: FontId, glyph_id: u16, faces: &SystemFaces) -> (r: OutlineCacheKey)
    ensures
        r == (OutlineCacheKey { source, font_id, face_index: font_face_index_spec(font_id, *faces), glyph_id }),
{
    OutlineCacheKey { source, font_id, face_index: font_face_index(font_id, faces), glyph_id }
}

/// Cached outlines by key; each key occurs once.
#[derive(Debug)]
pub struct OutlineCache<V> {
    entries: Vec<(OutlineCacheKey, Arc<V>)>,
}

impl<V> OutlineCache<V> {
    /// The cached outlines by key.
    pub closed spec fn view_map(self) -> Map<OutlineCacheKey, V> {
        Map::new(
            |k: OutlineCacheKey| exists|i: int| 0 <= i < self.entries@.len() && (#[trigger] self.entries@[i]).0 == k,
            |k: OutlineCacheKey| *self.entries@[choose|i: int| 0 <= i < self.entries@.len() && (#[trigger] self.entries@[i]).0 == k].1,
        )
    }

    /// Number of cached outlines.
    pub closed spec fn entry_count(self) -> nat {
        self.entries@.len()
    }

    /// Keys are unique.
    pub closed spec fn wf(self) -> bool {
        forall|i: int, j: int| 0 <= i < j < self.entries@.len() ==> (#[trigger] self.entries@[i]).0 != (#[trigger] self.entries@[j]).0
    }

    pub fn new() -> (r: Self)
        ensures
            r.wf(),
            r.view_map() == Map::<OutlineCacheKey, V>::empty(),
            r.entry_count() == 0,
    {
        let r = OutlineCache { entries: Vec::new() };
        assert(r.view_map() =~= Map::<OutlineCacheKey, V>::empty());
        r
    }

    /// Number of cached outlines.
    pub fn len(&self) -> (r: usize)
        ensures
            r == self.entry_count(),
    {
        self.entries.len()
    }

    pub fn contains_key(&self, key: &OutlineCacheKey) -> (r: bool)
        requires
            self.wf(),
        ensures
            r == self.view_map().contains_key(*key),
    {
        self.find(key).is_some()
    }

    /// Position of `key`, if cached.
    fn find(&self, key: &OutlineCacheKey) -> (r: Option<usize>)
        requires
            self.wf(),
        ensures
            r is Some <==> self.view_map().contains_key(*key),
            r matches Some(i) ==> i < self.entries@.len() && self.entries@[i as int].0 == *key
                && self.view_map()[*key] == *self.entries@[i as int].1,
    {
        let n = self.entries.len();
        let mut i: usize = 0;
        while i < n
            invariant
                n == self.entries@.len(),
                i <= n,
                self.wf(),
                forall|j: int| 0 <= j < i ==> (#[trigger] self.entries@[j]).0 != *key,
            decreases n - i,
        {
            if self.entries[i].0 == *key {
                assert(self.view_map().contains_key(*key));
                let ghost k = choose|k: int| 0 <= k < self.entries@.len() && (#[trigger] self.entries@[k]).0 == *key;
                assert(k == i) by {
                    if k != i {
                        if k < i {
                            assert(self.entries@[k].0 != self.entries@[i as int].0);
                        } else {
                            assert(self.entries@[i as int].0 != self.entries@[k].0);
                        }
                    }
                }
                return Some(i);
            }
            i = i + 1;
        }
        None
    }

    /// The cached outline of `key`, if any.
    pub fn get(&self, key: &OutlineCacheKey) -> (r: Option<Arc<V>>)
        requires
            self.wf(),
        ensures
            r is Some <==> self.view_map().contains_key(*key),
            r matches Some(v) ==> *v == self.view_map()[*key],
    {
        match self.find(key) {
            Some(i) => Some(share_arc(&self.entries[i].1)),
            None => None,
        }
    }
}

/// Store a computed outline. When another outline for the key is already
/// cached, that one is kept and returned; otherwise the cache is cleared
/// first if it holds `cap` outlines, and the new outline is stored and returned.
pub fn insert_outline<V>(cache: &mut OutlineCache<V>, key: OutlineCacheKey, curves: Arc<V>, cap: usize) -> (r: Arc<V>)
    requires
        old(cache).wf(),
    ensures
        final(cache).wf(),
        old(cache).view_map().contains_key(key) ==> *r == old(cache).view_map()[key] && final(cache).view_map() == old(cache).view_map(),
        !old(cache).view_map().contains_key(key) ==> *r == *curves && final(cache).view_map() == if old(cache).entry_count() >= cap {
            Map::<OutlineCacheKey, V>::empty().insert(key, *curves)
        } else {
            old(cache).view_map().insert(key, *curves)
        },
        !old(cache).view_map().contains_key(key) ==> final(cache).entry_count() == if old(cache).entry_count() >= cap {
            1
        } else {
            old(cache).entry_count() + 1
        },
{
    match cache.find(&key) {
        Some(i) => {
            return share_arc(&cache.entries[i].1);
        },
        None => {},
    }
    if cache.entries.len() >= cap {
        cache.entries = Vec::new();
        assert(cache.view_map() =~= Map::<OutlineCacheKey, V>::empty());
    }
    let ghost before = cache.entries@;
    let ghost prior = cache.view_map();
    let result = share_arc(&curves);
    cache.entries.push((key, curves));
    assert forall|a: int, b: int| 0 <= a < b < cache.entries@.len() implies (#[trigger] cache.entries@[a]).0 != (#[trigger] cache.entries@[b]).0 by {
        assert(cache.entries@[a] == before[a]);
        if b < before.len() {
            assert(cache.entries@[b] == before[b]);
        } else {
            if before[a].0 == key {
                assert(prior.contains_key(key));
            }
        }
    }
    assert(cache.view_map() =~= prior.insert(key, *result)) by {
        let last = cache.entries@.len() - 1;
        assert(cache.entries@[last].0 == key);
        assert forall|x: OutlineCacheKey| #[trigger] cache.view_map().contains_key(x) == prior.insert(key, *result).contains_key(x) by {
            if cache.view_map().contains_key(x) && x != key {
                let j = choose|j: int| 0 <= j < cache.entries@.len() && (#[trigger] cache.entries@[j]).0 == x;
                assert(j != last);
                assert(cache.entries@[j] == before[j]);
            }
            if prior.contains_key(x) {
                let j = choose|j: int| 0 <= j < before.len() && (#[trigger] before[j]).0 == x;
                assert(cache.entries@[j] == before[j]);
            }
        }
        assert forall|x: OutlineCacheKey| #[trigger] cache.view_map().contains_key(x) implies cache.view_map()[x] == prior.insert(key, *result)[x] by {
            let j = choose|j: int| 0 <= j < cache.entries@.len() && (#[trigger] cache.entries@[j]).0 == x;
            if x == key {
                assert(j == last) by {
                    if j != last {
                        assert(cache.entries@[j].0 != cache.entries@[last].0);
                    }
                }
            } else {
                assert(j != last);
                assert(cache.entries@[j] == before[j]);
                let j3 = choose|j3: int| 0 <= j3 < before.len() && (#[trigger] before[j3]).0 == x;
                assert(j3 == j) by {
                    if j3 != j {
                        if j3 < j {
                            assert(before[j3].0 != before[j].0);
                        } else {
                            assert(before[j].0 != before[j3].0);
                        }
                    }
                }
            }
        }
    }
    result
}

/// What a lookup gives back of a store: after [`insert_outline`] the key
/// holds the outline the call returned, the earlier one if there was one.
pub proof fn law_outline_read_after_write<V>(before: Map<OutlineCacheKey, V>, after: Map<OutlineCacheKey, V>, key: OutlineCacheKey, stored: V, returned: V, cleared: bool)
    requires
        before.contains_key(key) ==> returned == before[key] && after == before,
        !before.contains_key(key) ==> returned == stored && after == if cleared {
            Map::<OutlineCacheKey, V>::empty().insert(key, stored)
        } else {
            before.insert(key, stored)
        },
    ensures
        after.contains_key(key),
        after[key] == returned,
{
}

/// The outline of `key`: the cached one, or one computed by `compute` (no
/// outline when it computes none) and then stored with [`insert_outline`]
/// under [`OUTLINE_CACHE_CAP`].
pub fn get_or_compute_outline<V, F>(cache: &mut OutlineCache<V>, key: OutlineCacheKey, compute: F) -> (r: Option<Arc<V>>)
    where F: FnOnce() -> Option<Arc<V>>,
    requires
        old(cache).wf(),
        compute.requires(()),
    ensures
        final(cache).wf(),
        old(cache).view_map().contains_key(key) ==> (r matches Some(v) && *v == old(cache).view_map()[key]),
        old(cache).view_map().contains_key(key) ==> final(cache).view_map() == old(cache).view_map(),
        !old(cache).view_map().contains_key(key) ==> {
            &&& r is None ==> final(cache).view_map() == old(cache).view_map()
            &&& r matches Some(v) ==> exists|c: Option<Arc<V>>| #[trigger] compute.ensures((), c) && (c matches Some(cv) && *cv == *v)
            &&& r matches Some(v) ==> final(cache).view_map() == if old(cache).entry_count() >= OUTLINE_CACHE_CAP {
                Map::<OutlineCacheKey, V>::empty().insert(key, *v)
            } else {
                old(cache).view_map().insert(key, *v)
            }
        },
{
    match cache.get(&key) {
        Some(v) => {
            return Some(v);
        },
        None => {},
    }
    let computed = compute();
    match computed {
        Some(curves) => {
            let ghost c = computed;
            let v = insert_outline(cache, key, curves, OUTLINE_CACHE_CAP);
            assert(compute.ensures((), c));
            Some(v)
        },
        None => None,
    }
}

} // verus!
