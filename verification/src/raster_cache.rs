//! Bounded caches of rasterized pixels used by the PNG renderer: decoded
//! colour-emoji strikes and anti-aliased glyph masks. Both are limited by an
//! entry count and by the pixel bytes they retain, and both keep an entry
//! that is already cached rather than replacing a hot value.

use std::sync::Arc;
use vstd::prelude::*;

use crate::font_id::FontId;
use crate::font_loader::OutlineSourceId;
use crate::unicode_font::share_arc;

verus! {

/// Keys compared field by field.
pub trait ExactKey: Sized + Copy {
    fn same(&self, other: &Self) -> (r: bool)
        ensures
            r == (*self == *other),
    ;
}

/// One decoded strike of a colour-emoji glyph. The font is identified by the
/// address and length of its process-lifetime byte buffer.
#[derive(Clone, Copy, Debug, PartialEq, Eq, Hash, Structural)]
pub struct EmojiRasterCacheKey {
    pub font_ptr: usize,
    pub font_len: usize,
    pub face_index: u32,
    pub glyph_id: u16,
    pub pixels_per_em: u16,
}

impl ExactKey for EmojiRasterCacheKey {
    fn same(&self, other: &Self) -> (r: bool) {
        *self == *other
    }
}

/// One rasterized glyph mask: the glyph of one loaded font generation at an
/// exact size and sub-pixel phase (float bit patterns) in one paint colour.
#[derive(Clone, Copy, Debug, PartialEq, Eq, Hash, Structural)]
pub struct GlyphMaskKey {
    pub source: OutlineSourceId,
    pub font_id: FontId,
    pub glyph_id: u16,
    pub size_bits: u32,
    pub frac_x: u32,
    pub frac_y: u32,
    pub color: u32,
}

impl ExactKey for GlyphMaskKey {
    fn same(&self, other: &Self) -> (r: bool) {
        *self == *other
    }
}

/// Entry limit of the emoji strike cache.
pub const EMOJI_RASTER_CACHE_CAP: usize = 4096;

/// Byte budget of the emoji strike cache (decoded RGBA bytes): 64 MiB.
pub const EMOJI_RASTER_CACHE_BYTE_CAP: usize = 67108864;

/// Entry limit of the glyph mask cache.
pub const GLYPH_MASK_CACHE_CAP: usize = 8192;

/// Byte budget of the glyph mask cache: 64 MiB.
pub const GLYPH_MASK_CACHE_BYTE_CAP: usize = 67108864;

/// A paint colour's RGBA8 bytes packed into one word, red in the top byte.
pub open spec fn packed_rgba(rgba: [u8; 4]) -> int {
    rgba[0] as int * 0x1000000 + rgba[1] as int * 0x10000 + rgba[2] as int * 0x100 + rgba[3] as int
}

pub fn pack_rgba8(rgba: [u8; 4]) -> (r: u32)
    ensures
        r as int == packed_rgba(rgba),
{
    let r0 = rgba[0] as u32;
    let g = rgba[1] as u32;
    let b = rgba[2] as u32;
    let a = rgba[3] as u32;
    let out = (r0 << 24) | (g << 16) | (b << 8) | a;
    assert(out == r0 * 0x1000000 + g * 0x10000 + b * 0x100 + a) by (bit_vector)
        requires
            r0 < 256,
            g < 256,
            b < 256,
            a < 256,
            out == (r0 << 24) | (g << 16) | (b << 8) | a,
    ;
    out
}

/// Cached values by key, each with the pixel bytes it retains.
#[derive(Debug)]
pub struct RasterCache<K, V> {
    entries: Vec<(K, Arc<V>, usize)>,
    bytes: usize,
}

pub open spec fn raster_bytes<K, V>(s: Seq<(K, Arc<V>, usize)>) -> nat
    decreases s.len(),
{
    if s.len() == 0 {
        0
    } else {
        raster_bytes(s.drop_last()) + s.last().2 as nat
    }
}

proof fn lemma_raster_bytes_push<K, V>(s: Seq<(K, Arc<V>, usize)>, e: (K, Arc<V>, usize))
    ensures
        raster_bytes(s.push(e)) == raster_bytes(s) + e.2,
{
    assert(s.push(e).drop_last() =~= s);
}

impl<K: ExactKey, V> RasterCache<K, V> {
    /// The cached values by key, with the bytes each retains.
    pub closed spec fn view_map(self) -> Map<K, (V, nat)> {
        Map::new(
            |k: K| exists|i: int| 0 <= i < self.entries@.len() && (#[trigger] self.entries@[i]).0 == k,
            |k: K| {
                let e = self.entries@[choose|i: int| 0 <= i < self.entries@.len() && (#[trigger] self.entries@[i]).0 == k];
                (*e.1, e.2 as nat)
            },
        )
    }

    pub closed spec fn entry_count(self) -> nat {
        self.entries@.len()
    }

    pub closed spec fn byte_count(self) -> nat {
        self.bytes as nat
    }

    /// Keys are unique and the byte count is the sum of the entries' bytes.
    pub closed spec fn wf(self) -> bool {
        &&& forall|i: int, j: int| 0 <= i < j < self.entries@.len() ==> (#[trigger] self.entries@[i]).0 != (#[trigger] self.entries@[j]).0
        &&& self.bytes == raster_bytes(self.entries@)
    }

    pub fn new() -> (r: Self)
        ensures
            r.wf(),
            r.view_map() == Map::<K, (V, nat)>::empty(),
            r.entry_count() == 0,
            r.byte_count() == 0,
    {
        let r = RasterCache { entries: Vec::new(), bytes: 0 };
        assert(r.view_map() =~= Map::<K, (V, nat)>::empty());
        r
    }

    pub fn len(&self) -> (r: usize)
        ensures
            r == self.entry_count(),
    {
        self.entries.len()
    }

    pub fn bytes(&self) -> (r: usize)
        ensures
            r == self.byte_count(),
    {
        self.bytes
    }

    /// Drop every entry.
    pub fn clear(&mut self)
        ensures
            final(self).wf(),
            final(self).view_map() == Map::<K, (V, nat)>::empty(),
            final(self).entry_count() == 0,
            final(self).byte_count() == 0,
    {
        self.entries = Vec::new();
        self.bytes = 0;
        assert(self.view_map() =~= Map::<K, (V, nat)>::empty());
    }

    fn find(&self, key: &K) -> (r: Option<usize>)
        requires
            self.wf(),
        ensures
            r is Some <==> self.view_map().contains_key(*key),
            r matches Some(i) ==> i < self.entries@.len() && self.entries@[i as int].0 == *key
                && self.view_map()[*key] == (*self.entries@[i as int].1, self.entries@[i as int].2 as nat),
    {
        let n = self.entries.len();
        let mut i: usize = 0;
        while i < n
            invariant
                n == self.entries@.len(),
                i <= n,
                self.wf(),
                forall|j: int| 0 <= j < i ==> (#[trigger] self.entries@[j]).0 != *key,
            decreases n - i,
        {
            if self.entries[i].0.same(key) {
                assert(self.view_map().contains_key(*key));
                let ghost k = choose|k: int| 0 <= k < self.entries@.len() && (#[trigger] self.entries@[k]).0 == *key;
                assert(k == i) by {
                    if k != i {
                        if k < i {
                            assert(self.entries@[k].0 != self.entries@[i as int].0);
                        } else {
                            assert(self.entries@[i as int].0 != self.entries@[k].0);
                        }
                    }
                }
                return Some(i);
            }
            i = i + 1;
        }
        None
    }

    /// The cached value of `key`, if any.
    pub fn get(&self, key: &K) -> (r: Option<Arc<V>>)
        requires
            self.wf(),
        ensures
            r is Some <==> self.view_map().contains_key(*key),
            r matches Some(v) ==> *v == self.view_map()[*key].0,
    {
        match self.find(key) {
            Some(i) => Some(share_arc(&self.entries[i].1)),
            None => None,
        }
    }

    pub fn contains_key(&self, key: &K) -> (r: bool)
        requires
            self.wf(),
        ensures
            r == self.view_map().contains_key(*key),
    {
        self.find(key).is_some()
    }

    /// Cache a value that retains `entry_bytes` pixel bytes. A key that is
    /// already cached keeps its value; a value larger than the whole budget is
    /// not cached; otherwise the cache is cleared first when it holds
    /// `entry_cap` entries or the bytes would exceed `byte_cap`.
    pub fn insert_with_limits(&mut self, key: K, entry: Arc<V>, entry_bytes: usize, entry_cap: usize, byte_cap: usize)
        requires
            old(self).wf(),
        ensures
            final(self).wf(),
            old(self).view_map().contains_key(key) || entry_bytes > byte_cap ==> final(self).view_map() == old(self).view_map()
                && final(self).byte_count() == old(self).byte_count() && final(self).entry_count() == old(self).entry_count(),
            !old(self).view_map().contains_key(key) && entry_bytes <= byte_cap ==> {
                let clears = old(self).entry_count() >= entry_cap || old(self).byte_count() + entry_bytes > byte_cap;
                &&& final(self).view_map() == if clears {
                    Map::<K, (V, nat)>::empty().insert(key, (*entry, entry_bytes as nat))
                } else {
                    old(self).view_map().insert(key, (*entry, entry_bytes as nat))
                }
                &&& final(self).byte_count() == if clears { entry_bytes as nat } else { old(self).byte_count() + entry_bytes as nat }
                &&& final(self).byte_count() <= byte_cap
            },
    {
        if self.contains_key(&key) {
            return;
        }
        if entry_bytes > byte_cap {
            return;
        }
        let over_budget = match self.bytes.checked_add(entry_bytes) {
            Some(total) => total > byte_cap,
            None => true,
        };
        if self.entries.len() >= entry_cap || over_budget {
            self.clear();
        }
        let ghost before = self.entries@;
        let ghost prior = self.view_map();
        let probe = share_arc(&entry);
        proof {
            lemma_raster_bytes_push(before, (key, entry, entry_bytes));
        }
        self.entries.push((key, entry, entry_bytes));
        self.bytes = self.bytes + entry_bytes;
        assert forall|a: int, b: int| 0 <= a < b < self.entries@.len() implies (#[trigger] self.entries@[a]).0 != (#[trigger] self.entries@[b]).0 by {
            assert(self.entries@[a] == before[a]);
            if b < before.len() {
                assert(self.entries@[b] == before[b]);
            } else {
                if before[a].0 == key {
                    assert(prior.contains_key(key));
                }
            }
        }
        assert(self.view_map() =~= prior.insert(key, (*probe, entry_bytes as nat))) by {
            let last = self.entries@.len() - 1;
            assert(self.entries@[last].0 == key);
            assert forall|x: K| #[trigger] self.view_map().contains_key(x) == prior.insert(key, (*probe, entry_bytes as nat)).contains_key(x) by {
                if self.view_map().contains_key(x) && x != key {
                    let j = choose|j: int| 0 <= j < self.entries@.len() && (#[trigger] self.entries@[j]).0 == x;
                    assert(j != last);
                    assert(self.entries@[j] == before[j]);
                }
                if prior.contains_key(x) {
                    let j = choose|j: int| 0 <= j < before.len() && (#[trigger] before[j]).0 == x;
                    assert(self.entries@[j] == before[j]);
                }
            }
            assert forall|x: K| #[trigger] self.view_map().contains_key(x) implies self.view_map()[x] == prior.insert(key, (*probe, entry_bytes as nat))[x] by {
                let j = choose|j: int| 0 <= j < self.entries@.len() && (#[trigger] self.entries@[j]).0 == x;
                if x == key {
                    assert(j == last) by {
                        if j != last {
                            assert(self.entries@[j].0 != self.entries@[last].0);
                        }
                    }
                } else {
                    assert(j != last);
                    assert(self.entries@[j] == before[j]);
                    let j3 = choose|j3: int| 0 <= j3 < before.len() && (#[trigger] before[j3]).0 == x;
                    assert(j3 == j) by {
                        if j3 != j {
                            if j3 < j {
                                assert(before[j3].0 != before[j].0);
                            } else {
                                assert(before[j].0 != before[j3].0);
                            }
                        }
                    }
                }
            }
        }
    }
}

} // verus!
