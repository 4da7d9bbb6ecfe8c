//! The parsed-font layer over the raw font cache: small KaTeX faces are parsed
//! once into an owned `ab_glyph::FontVec` and cached per raw-font generation,
//! while system and oversized faces stay shared raw bytes.

use std::sync::Arc;
use vstd::prelude::*;

use ab_glyph::{FontRef, FontVec, InvalidFont};

use crate::font_id::{font_id_at, font_id_index, font_id_name, lemma_font_id_at, lemma_font_id_index, FontId, FONT_ID_COUNT};
use crate::font_loader::{
    all_cached, cache_key, cache_key_spec, cached_font, font_origin, font_unavailable, is_system_font_id, load_never_fails, load_succeeds,
    is_system_font_id_spec, law_fresh_ids_never_repeat, load_fonts_for_plan, missing_font_error, missing_font_message, CacheKey,
    CacheKeyView, FontCache, FontIdSet, FontLoadPlan, FontSet, FontSourceKey, FontSourceKeyView,
    FontStorage, LoadedFont, LoadedFontView, OutlineSourceId, OutlineSourceIds, PlanItem,
    planned_required,
};
use crate::unicode_font::{share_arc, FontData};

verus! {

#[verifier::external_type_specification]
#[verifier::external_body]
pub struct ExFontVec(FontVec);

#[verifier::external_type_specification]
#[verifier::external_body]
pub struct ExInvalidFont(InvalidFont);

#[verifier::external_type_specification]
#[verifier::external_body]
pub struct ExFontRef<'a>(FontRef<'a>);

/// Whether face `index` of `bytes` parses as a font.
pub uninterp spec fn font_parses(bytes: Seq<u8>, index: u32) -> bool;

/// `ab_glyph::FontVec::try_from_vec_and_index`: parses face `index` of the
/// owned bytes. Whether it succeeds depends on the bytes and the index alone;
/// that is all that is claimed of it.
#[verifier::external_body]
fn font_vec_from_bytes(bytes: Vec<u8>, index: u32) -> (r: Result<FontVec, InvalidFont>)
    ensures
        r is Ok <==> font_parses(bytes@, index),
{
    FontVec::try_from_vec_and_index(bytes, index)
}

/// `ab_glyph::FontRef::try_from_slice_and_index`: parses face `index` of
/// borrowed bytes. It runs the same `ttf_parser` face parse as
/// [`font_vec_from_bytes`], so it succeeds exactly when that one does; that is
/// all that is claimed of it.
#[verifier::external_body]
fn font_ref_from_slice<'a>(bytes: &'a [u8], index: u32) -> (r: Result<FontRef<'a>, InvalidFont>)
    ensures
        r is Ok <==> font_parses(bytes@, index),
{
    FontRef::try_from_slice_and_index(bytes, index)
}

// ---------------------------------------------------------------------------
// Which fonts are parsed
// ---------------------------------------------------------------------------

/// Fonts larger than this (4 MiB) are never copied into a `FontVec`.
pub const PARSED_FONT_MAX_BYTES: usize = 4194304;

/// Entry limit of the parsed-font cache.
pub const PARSED_FONT_CACHE_CAP: usize = 4096;

/// Byte budget of the parsed-font cache: 32 MiB.
pub const PARSED_FONT_CACHE_BYTE_CAP: usize = 33554432;

/// Whether a loaded font is parsed into an owned face or kept as raw bytes.
#[derive(Clone, Copy, Debug, PartialEq, Eq, Structural)]
pub enum ParsedFontPolicy {
    Parsed,
    RawOnly,
}

pub open spec fn parsed_font_policy_spec(id: FontId, byte_len: nat) -> ParsedFontPolicy {
    if is_system_font_id_spec(id) || byte_len > PARSED_FONT_MAX_BYTES {
        ParsedFontPolicy::RawOnly
    } else {
        ParsedFontPolicy::Parsed
    }
}

/// System faces and faces over [`PARSED_FONT_MAX_BYTES`] stay raw.
pub fn parsed_font_policy(font_id: FontId, byte_len: usize) -> (r: ParsedFontPolicy)
    ensures
        r == parsed_font_policy_spec(font_id, byte_len as nat),
{
    if is_system_font_id(font_id) || byte_len > PARSED_FONT_MAX_BYTES {
        ParsedFontPolicy::RawOnly
    } else {
        ParsedFontPolicy::Parsed
    }
}

// ---------------------------------------------------------------------------
// Parsed fonts and their cache entries
// ---------------------------------------------------------------------------

/// A parsed face, the raw-font generation it was parsed from, the number of
/// bytes the face owns, and the collection face index it was parsed with.
#[derive(Debug)]
pub struct ParsedFont {
    pub font: Arc<FontVec>,
    pub source_id: OutlineSourceId,
    pub byte_len: usize,
    pub face_index: u32,
}

/// `(generation, owned bytes, face index, face)`.
pub type ParsedFontView = (OutlineSourceId, nat, u32, FontVec);

impl View for ParsedFont {
    type V = ParsedFontView;

    open spec fn view(&self) -> ParsedFontView {
        (self.source_id, self.byte_len as nat, self.face_index, *self.font)
    }
}

impl ParsedFont {
    /// A second handle to the same parsed face.
    pub fn duplicate(&self) -> (r: ParsedFont)
        ensures
            r@ == self@,
            r.font == self.font,
    {
        ParsedFont { font: share_arc(&self.font), source_id: self.source_id, byte_len: self.byte_len, face_index: self.face_index }
    }
}

/// A parsed-cache entry: a parsed face, or a font known to be unavailable.
#[derive(Debug)]
pub enum ParsedFontCacheEntry {
    Parsed(ParsedFont),
    Missing,
}

impl View for ParsedFontCacheEntry {
    type V = Option<ParsedFontView>;

    open spec fn view(&self) -> Option<ParsedFontView> {
        match self {
            ParsedFontCacheEntry::Parsed(p) => Some(p@),
            ParsedFontCacheEntry::Missing => None,
        }
    }
}

/// Bytes an entry retains: a parsed face's bytes, nothing for a missing font.
pub open spec fn parsed_entry_len(e: Option<ParsedFontView>) -> nat {
    match e {
        Some(p) => p.1,
        None => 0,
    }
}

impl ParsedFontCacheEntry {
    pub fn byte_len(&self) -> (r: usize)
        ensures
            r == parsed_entry_len(self@),
    {
        match self {
            ParsedFontCacheEntry::Parsed(p) => p.byte_len,
            ParsedFontCacheEntry::Missing => 0,
        }
    }

    pub fn duplicate(&self) -> (r: ParsedFontCacheEntry)
        ensures
            r@ == self@,
    {
        match self {
            ParsedFontCacheEntry::Parsed(p) => ParsedFontCacheEntry::Parsed(p.duplicate()),
            ParsedFontCacheEntry::Missing => ParsedFontCacheEntry::Missing,
        }
    }
}

/// Whether a parsed-cache entry belongs to the raw font as it is loaded now:
/// a face parsed from the same generation, or a missing marker for a font
/// that is still missing.
pub open spec fn parsed_entry_matches_raw_spec(entry: Option<ParsedFontView>, raw: Option<LoadedFontView>) -> bool {
    match (entry, raw) {
        (Some(p), Some(l)) => p.0 == l.1,
        (None, None) => true,
        _ => false,
    }
}

pub fn parsed_entry_matches_raw(entry: &ParsedFontCacheEntry, raw: Option<&LoadedFont>) -> (r: bool)
    ensures
        r == parsed_entry_matches_raw_spec(entry@, match raw { Some(l) => Some(l@), None => None }),
{
    match (entry, raw) {
        (ParsedFontCacheEntry::Parsed(parsed), Some(loaded)) => parsed.source_id == loaded.source_id,
        (ParsedFontCacheEntry::Missing, None) => true,
        _ => false,
    }
}

/// A parse cached for one raw generation never serves the font once it is
/// read again: the new read gets a later generation, and a cached parse
/// matches only the generation it was made from.
pub proof fn law_reloaded_font_misses_old_parse(
    entry: Option<ParsedFontView>,
    first: LoadedFontView,
    reloaded: LoadedFontView,
    next_after_first: u64,
)
    requires
        parsed_entry_matches_raw_spec(entry, Some(first)),
        first.1.value() < next_after_first,
        reloaded.1.value() >= next_after_first,
    ensures
        !parsed_entry_matches_raw_spec(entry, Some(reloaded)),
{
    law_fresh_ids_never_repeat(first.1, reloaded.1, next_after_first);
}

// ---------------------------------------------------------------------------
// The parsed-font cache
// ---------------------------------------------------------------------------

/// Parsed faces by source and identifier; `bytes` counts the bytes retained.
#[derive(Debug)]
pub struct ParsedFontCache {
    entries: Vec<(CacheKey, ParsedFontCacheEntry)>,
    bytes: usize,
}

pub open spec fn parsed_pair_len(e: (CacheKey, ParsedFontCacheEntry)) -> nat {
    parsed_entry_len(e.1@)
}

/// Bytes retained by a list of parsed-cache entries.
pub open spec fn parsed_entries_bytes(s: Seq<(CacheKey, ParsedFontCacheEntry)>) -> nat
    decreases s.len(),
{
    if s.len() == 0 {
        0
    } else {
        parsed_entries_bytes(s.drop_last()) + parsed_pair_len(s.last())
    }
}

proof fn lemma_parsed_bytes_push(s: Seq<(CacheKey, ParsedFontCacheEntry)>, e: (CacheKey, ParsedFontCacheEntry))
    ensures
        parsed_entries_bytes(s.push(e)) == parsed_entries_bytes(s) + parsed_pair_len(e),
{
    assert(s.push(e).drop_last() =~= s);
}

proof fn lemma_parsed_bytes_remove(s: Seq<(CacheKey, ParsedFontCacheEntry)>, i: int)
    requires
        0 <= i < s.len(),
    ensures
        parsed_entries_bytes(s.remove(i)) + parsed_pair_len(s[i]) == parsed_entries_bytes(s),
    decreases s.len(),
{
    if i == s.len() - 1 {
        assert(s.remove(i) =~= s.drop_last());
    } else {
        lemma_parsed_bytes_remove(s.drop_last(), i);
        assert(s.remove(i) =~= s.drop_last().remove(i).push(s.last()));
        lemma_parsed_bytes_push(s.drop_last().remove(i), s.last());
    }
}

impl ParsedFontCache {
    /// The cached entries by key.
    pub closed spec fn view_map(self) -> Map<CacheKeyView, Option<ParsedFontView>> {
        Map::new(
            |k: CacheKeyView| exists|i: int| 0 <= i < self.entries@.len() && (#[trigger] self.entries@[i]).0@ == k,
            |k: CacheKeyView| self.entries@[choose|i: int| 0 <= i < self.entries@.len() && (#[trigger] self.entries@[i]).0@ == k].1@,
        )
    }

    /// Number of entries.
    pub closed spec fn entry_count(self) -> nat {
        self.entries@.len()
    }

    /// Bytes retained.
    pub closed spec fn byte_count(self) -> nat {
        self.bytes as nat
    }

    /// Keys are unique and the byte count is the sum of the entries' bytes.
    pub closed spec fn wf(self) -> bool {
        &&& forall|i: int, j: int| 0 <= i < j < self.entries@.len() ==> (#[trigger] self.entries@[i]).0@ != (#[trigger] self.entries@[j]).0@
        &&& self.bytes == parsed_entries_bytes(self.entries@)
    }

    pub fn new() -> (r: Self)
        ensures
            r.wf(),
            r.view_map() == Map::<CacheKeyView, Option<ParsedFontView>>::empty(),
            r.entry_count() == 0,
            r.byte_count() == 0,
    {
        let r = ParsedFontCache { entries: Vec::new(), bytes: 0 };
        assert(r.view_map() =~= Map::<CacheKeyView, Option<ParsedFontView>>::empty());
        r
    }

    /// Number of entries.
    pub fn len(&self) -> (r: usize)
        ensures
            r == self.entry_count(),
    {
        self.entries.len()
    }

    /// Bytes retained.
    pub fn bytes(&self) -> (r: usize)
        ensures
            r == self.byte_count(),
    {
        self.bytes
    }

    /// Position of `key`, if cached.
    fn find(&self, key: &CacheKey) -> (r: Option<usize>)
        requires
            self.wf(),
        ensures
            r is Some <==> self.view_map().contains_key(key@),
            r matches Some(i) ==> i < self.entries@.len() && self.entries@[i as int].0@ == key@
                && self.view_map()[key@] == self.entries@[i as int].1@,
    {
        let n = self.entries.len();
        let mut i: usize = 0;
        while i < n
            invariant
                n == self.entries@.len(),
                i <= n,
                self.wf(),
                forall|j: int| 0 <= j < i ==> (#[trigger] self.entries@[j]).0@ != key@,
            decreases n - i,
        {
            if self.entries[i].0.same_as(key) {
                assert(self.view_map().contains_key(key@));
                let ghost k = choose|k: int| 0 <= k < self.entries@.len() && (#[trigger] self.entries@[k]).0@ == key@;
                assert(k == i) by {
                    if k != i {
                        if k < i {
                            assert(self.entries@[k].0@ != self.entries@[i as int].0@);
                        } else {
                            assert(self.entries@[i as int].0@ != self.entries@[k].0@);
                        }
                    }
                }
                return Some(i);
            }
            i = i + 1;
        }
        None
    }

    /// The cached entry for `key`: `None` when the key is not cached.
    pub fn get(&self, key: &CacheKey) -> (r: Option<ParsedFontCacheEntry>)
        requires
            self.wf(),
        ensures
            r is Some <==> self.view_map().contains_key(key@),
            r matches Some(e) ==> e@ == self.view_map()[key@],
    {
        match self.find(key) {
            Some(i) => Some(self.entries[i].1.duplicate()),
            None => None,
        }
    }

    pub fn contains_key(&self, key: &CacheKey) -> (r: bool)
        requires
            self.wf(),
        ensures
            r == self.view_map().contains_key(key@),
    {
        self.find(key).is_some()
    }

    /// Drop the entry for `key`, if any, releasing its bytes.
    pub fn remove(&mut self, key: &CacheKey)
        requires
            old(self).wf(),
        ensures
            final(self).wf(),
            final(self).view_map() == old(self).view_map().remove(key@),
            final(self).entry_count() == old(self).entry_count() - if old(self).view_map().contains_key(key@) { 1int } else { 0int },
            final(self).byte_count() == old(self).byte_count() - if old(self).view_map().contains_key(key@) { parsed_entry_len(old(self).view_map()[key@]) as int } else { 0int },
    {
        match self.find(key) {
            Some(i) => {
                let ghost before = self.entries@;
                proof {
                    lemma_parsed_bytes_remove(before, i as int);
                }
                let removed = self.entries.remove(i);
                self.bytes = self.bytes - removed.1.byte_len();
                assert(self.entries@ =~= before.remove(i as int));
                assert forall|a: int, b: int| 0 <= a < b < self.entries@.len() implies (#[trigger] self.entries@[a]).0@ != (#[trigger] self.entries@[b]).0@ by {
                    let a2 = if a < i { a } else { a + 1 };
                    let b2 = if b < i { b } else { b + 1 };
                    assert(self.entries@[a] == before[a2]);
                    assert(self.entries@[b] == before[b2]);
                }
                assert(self.view_map() =~= old(self).view_map().remove(key@)) by {
                    assert forall|k: CacheKeyView| #[trigger] self.view_map().contains_key(k) == old(self).view_map().remove(key@).contains_key(k) by {
                        if self.view_map().contains_key(k) {
                            let j = choose|j: int| 0 <= j < self.entries@.len() && (#[trigger] self.entries@[j]).0@ == k;
                            let j2 = if j < i { j } else { j + 1 };
                            assert(self.entries@[j] == before[j2]);
                        }
                        if old(self).view_map().remove(key@).contains_key(k) {
                            let j = choose|j: int| 0 <= j < before.len() && (#[trigger] before[j]).0@ == k;
                            assert(j != i);
                            let j2 = if j < i { j } else { j - 1 };
                            assert(self.entries@[j2] == before[j]);
                        }
                    }
                    assert forall|k: CacheKeyView| #[trigger] self.view_map().contains_key(k) implies self.view_map()[k] == old(self).view_map().remove(key@)[k] by {
                        let j = choose|j: int| 0 <= j < self.entries@.len() && (#[trigger] self.entries@[j]).0@ == k;
                        let j2 = if j < i { j } else { j + 1 };
                        assert(self.entries@[j] == before[j2]);
                        let j3 = choose|j3: int| 0 <= j3 < before.len() && (#[trigger] before[j3]).0@ == k;
                        assert(j3 == j2) by {
                            if j3 != j2 {
                                if j3 < j2 {
                                    assert(before[j3].0@ != before[j2].0@);
                                } else {
                                    assert(before[j2].0@ != before[j3].0@);
                                }
                            }
                        }
                    }
                }
            },
            None => {
                assert(self.view_map() =~= old(self).view_map().remove(key@));
            },
        }
    }

    fn clear(&mut self)
        ensures
            final(self).wf(),
            final(self).view_map() == Map::<CacheKeyView, Option<ParsedFontView>>::empty(),
            final(self).entry_count() == 0,
            final(self).byte_count() == 0,
    {
        self.entries = Vec::new();
        self.bytes = 0;
        assert(self.view_map() =~= Map::<CacheKeyView, Option<ParsedFontView>>::empty());
    }

    /// Append an entry for a key that is not cached.
    fn push_new(&mut self, key: CacheKey, entry: ParsedFontCacheEntry)
        requires
            old(self).wf(),
            !old(self).view_map().contains_key(key@),
            old(self).bytes + parsed_entry_len(entry@) <= usize::MAX,
        ensures
            final(self).wf(),
            final(self).view_map() == old(self).view_map().insert(key@, entry@),
            final(self).entry_count() == old(self).entry_count() + 1,
            final(self).byte_count() == old(self).byte_count() + parsed_entry_len(entry@),
    {
        let ghost before = self.entries@;
        let ghost k = key@;
        let ghost ev = entry@;
        let n = entry.byte_len();
        proof {
            lemma_parsed_bytes_push(before, (key, entry));
        }
        self.entries.push((key, entry));
        self.bytes = self.bytes + n;
        assert forall|a: int, b: int| 0 <= a < b < self.entries@.len() implies (#[trigger] self.entries@[a]).0@ != (#[trigger] self.entries@[b]).0@ by {
            assert(self.entries@[a] == before[a]);
            if b < before.len() {
                assert(self.entries@[b] == before[b]);
            } else {
                if before[a].0@ == k {
                    assert(old(self).view_map().contains_key(k));
                }
            }
        }
        assert(self.view_map() =~= old(self).view_map().insert(k, ev)) by {
            let last = self.entries@.len() - 1;
            assert(self.entries@[last].0@ == k);
            assert forall|x: CacheKeyView| #[trigger] self.view_map().contains_key(x) == old(self).view_map().insert(k, ev).contains_key(x) by {
                if self.view_map().contains_key(x) && x != k {
                    let j = choose|j: int| 0 <= j < self.entries@.len() && (#[trigger] self.entries@[j]).0@ == x;
                    assert(j != last);
                    assert(self.entries@[j] == before[j]);
                }
                if old(self).view_map().contains_key(x) {
                    let j = choose|j: int| 0 <= j < before.len() && (#[trigger] before[j]).0@ == x;
                    assert(self.entries@[j] == before[j]);
                }
            }
            assert forall|x: CacheKeyView| #[trigger] self.view_map().contains_key(x) implies self.view_map()[x] == old(self).view_map().insert(k, ev)[x] by {
                let j = choose|j: int| 0 <= j < self.entries@.len() && (#[trigger] self.entries@[j]).0@ == x;
                if x == k {
                    assert(j == last) by {
                        if j != last {
                            assert(self.entries@[j].0@ != self.entries@[last].0@);
                        }
                    }
                } else {
                    assert(j != last);
                    assert(self.entries@[j] == before[j]);
                    let j3 = choose|j3: int| 0 <= j3 < before.len() && (#[trigger] before[j3]).0@ == x;
                    assert(j3 == j) by {
                        if j3 != j {
                            if j3 < j {
                                assert(before[j3].0@ != before[j].0@);
                            } else {
                                assert(before[j].0@ != before[j3].0@);
                            }
                        }
                    }
                }
            }
        }
    }
}

/// Whether storing an entry of `entry_bytes` bytes clears the parsed cache
/// first: it does when, after dropping the key's previous entry, the cache
/// holds `entry_cap` entries or the bytes would exceed `byte_cap`.
pub open spec fn parsed_insert_clears(
    cache: ParsedFontCache,
    key: CacheKeyView,
    entry_bytes: nat,
    entry_cap: nat,
    byte_cap: nat,
) -> bool {
    let had = cache.view_map().contains_key(key);
    let count = cache.entry_count() - if had { 1int } else { 0int };
    let bytes = cache.byte_count() - if had { parsed_entry_len(cache.view_map()[key]) as int } else { 0int };
    count >= entry_cap || bytes + entry_bytes > byte_cap
}

/// Store a parsed-cache entry while enforcing both limits. An entry larger
/// than the whole byte budget is not stored at all; otherwise the key's
/// previous entry is replaced, and the cache is cleared first when the entry
/// or byte limit would be exceeded.
pub fn insert_parsed_cache_entry_with_limits(
    cache: &mut ParsedFontCache,
    key: CacheKey,
    entry: ParsedFontCacheEntry,
    entry_cap: usize,
    byte_cap: usize,
)
    requires
        old(cache).wf(),
    ensures
        final(cache).wf(),
        parsed_entry_len(entry@) > byte_cap ==> final(cache).view_map() == old(cache).view_map()
            && final(cache).byte_count() == old(cache).byte_count() && final(cache).entry_count() == old(cache).entry_count(),
        parsed_entry_len(entry@) <= byte_cap ==> {
            &&& final(cache).view_map() == if parsed_insert_clears(*old(cache), key@, parsed_entry_len(entry@), entry_cap as nat, byte_cap as nat) {
                Map::<CacheKeyView, Option<ParsedFontView>>::empty().insert(key@, entry@)
            } else {
                old(cache).view_map().insert(key@, entry@)
            }
            &&& final(cache).byte_count() <= byte_cap
            &&& final(cache).byte_count() == if parsed_insert_clears(*old(cache), key@, parsed_entry_len(entry@), entry_cap as nat, byte_cap as nat) {
                parsed_entry_len(entry@) as int
            } else {
                old(cache).byte_count() - (if old(cache).view_map().contains_key(key@) { parsed_entry_len(old(cache).view_map()[key@]) as int } else { 0int })
                    + parsed_entry_len(entry@)
            }
            &&& final(cache).entry_count() == if parsed_insert_clears(*old(cache), key@, parsed_entry_len(entry@), entry_cap as nat, byte_cap as nat) {
                1int
            } else {
                old(cache).entry_count() - (if old(cache).view_map().contains_key(key@) { 1int } else { 0int }) + 1
            }
            &&& entry_cap >= 1 ==> final(cache).entry_count() <= entry_cap
        },
{
    let entry_bytes = entry.byte_len();
    if entry_bytes > byte_cap {
        return;
    }
    let ghost k = key@;
    let ghost ev = entry@;
    cache.remove(&key);
    assert(cache.entries@.len() == cache.entry_count());
    let over_budget = match cache.bytes.checked_add(entry_bytes) {
        Some(total) => total > byte_cap,
        None => true,
    };
    if cache.entries.len() >= entry_cap || over_budget {
        cache.clear();
    }
    assert(cache.view_map().remove(k) =~= cache.view_map());
    cache.push_new(key, entry);
    assert(old(cache).view_map().remove(k).insert(k, ev) =~= old(cache).view_map().insert(k, ev));
    assert(Map::<CacheKeyView, Option<ParsedFontView>>::empty().remove(k).insert(k, ev) =~= Map::<CacheKeyView, Option<ParsedFontView>>::empty().insert(k, ev));
}

/// [`insert_parsed_cache_entry_with_limits`] with the parsed cache's own limits.
pub fn insert_parsed_cache_entry(cache: &mut ParsedFontCache, key: CacheKey, entry: ParsedFontCacheEntry)
    requires
        old(cache).wf(),
    ensures
        final(cache).wf(),
        parsed_entry_len(entry@) > PARSED_FONT_CACHE_BYTE_CAP ==> final(cache).view_map() == old(cache).view_map()
            && final(cache).byte_count() == old(cache).byte_count() && final(cache).entry_count() == old(cache).entry_count(),
        parsed_entry_len(entry@) <= PARSED_FONT_CACHE_BYTE_CAP ==> {
            &&& final(cache).view_map() == if parsed_insert_clears(*old(cache), key@, parsed_entry_len(entry@), PARSED_FONT_CACHE_CAP as nat, PARSED_FONT_CACHE_BYTE_CAP as nat) {
                Map::<CacheKeyView, Option<ParsedFontView>>::empty().insert(key@, entry@)
            } else {
                old(cache).view_map().insert(key@, entry@)
            }
            &&& final(cache).byte_count() <= PARSED_FONT_CACHE_BYTE_CAP
            &&& final(cache).byte_count() == if parsed_insert_clears(*old(cache), key@, parsed_entry_len(entry@), PARSED_FONT_CACHE_CAP as nat, PARSED_FONT_CACHE_BYTE_CAP as nat) {
                parsed_entry_len(entry@) as int
            } else {
                old(cache).byte_count() - (if old(cache).view_map().contains_key(key@) { parsed_entry_len(old(cache).view_map()[key@]) as int } else { 0int })
                    + parsed_entry_len(entry@)
            }
            &&& final(cache).entry_count() == if parsed_insert_clears(*old(cache), key@, parsed_entry_len(entry@), PARSED_FONT_CACHE_CAP as nat, PARSED_FONT_CACHE_BYTE_CAP as nat) {
                1int
            } else {
                old(cache).entry_count() - (if old(cache).view_map().contains_key(key@) { 1int } else { 0int }) + 1
            }
            &&& final(cache).entry_count() <= PARSED_FONT_CACHE_CAP
        },
{
    insert_parsed_cache_entry_with_limits(cache, key, entry, PARSED_FONT_CACHE_CAP, PARSED_FONT_CACHE_BYTE_CAP);
}

/// Drop the parsed-cache entry of `key`, if any.
pub fn remove_parsed_cache_entry(cache: &mut ParsedFontCache, key: &CacheKey)
    requires
        old(cache).wf(),
    ensures
        final(cache).wf(),
        final(cache).view_map() == old(cache).view_map().remove(key@),
        final(cache).entry_count() <= old(cache).entry_count(),
        final(cache).byte_count() <= old(cache).byte_count(),
{
    cache.remove(key);
}

// ---------------------------------------------------------------------------
// Face indices
// ---------------------------------------------------------------------------

/// The collection face indices that discovery reported for the system fonts
/// (`None` where discovery reported none).
#[derive(Clone, Copy, Debug)]
pub struct SystemFaces {
    pub unicode: Option<u32>,
    pub fallback: Option<u32>,
    pub emoji: Option<u32>,
}

pub open spec fn face_or_zero(face: Option<u32>) -> u32 {
    match face {
        Some(i) => i,
        None => 0,
    }
}

pub open spec fn font_face_index_spec(id: FontId, faces: SystemFaces) -> u32 {
    match id {
        FontId::EmojiFallback => face_or_zero(faces.emoji),
        FontId::CjkRegular => face_or_zero(faces.unicode),
        FontId::CjkFallback => face_or_zero(faces.fallback),
        _ => 0,
    }
}

/// The collection face to parse for `font_id`: the discovered face for the
/// system fonts, face 0 for everything else.
pub fn font_face_index(font_id: FontId, faces: &SystemFaces) -> (r: u32)
    ensures
        r == font_face_index_spec(font_id, *faces),
{
    match font_id {
        FontId::EmojiFallback => match faces.emoji {
            Some(i) => i,
            None => 0,
        },
        FontId::CjkRegular => match faces.unicode {
            Some(i) => i,
            None => 0,
        },
        FontId::CjkFallback => match faces.fallback {
            Some(i) => i,
            None => 0,
        },
        _ => 0,
    }
}

// ---------------------------------------------------------------------------
// Parsing
// ---------------------------------------------------------------------------

/// The error text for a font whose bytes do not parse.
pub open spec fn parse_failure_message(id: FontId) -> Seq<char> {
    "Failed to parse font "@ + font_id_name(id) + ": InvalidFont"@
}

/// Parse `bytes` as the face of `font_id`.
pub fn parse_font_vec(font_id: FontId, bytes: Vec<u8>, faces: &SystemFaces) -> (r: Result<Arc<FontVec>, String>)
    ensures
        r is Ok <==> font_parses(bytes@, font_face_index_spec(font_id, *faces)),
        r matches Err(m) ==> m@ == parse_failure_message(font_id),
{
    let face_index = font_face_index(font_id, faces);
    match font_vec_from_bytes(bytes, face_index) {
        Ok(font) => Ok(Arc::new(font)),
        Err(_) => {
            let mut m = String::new();
            m.append("Failed to parse font ");
            m.append(font_id.as_str());
            m.append(": InvalidFont");
            Err(m)
        },
    }
}

/// Whether the parsed cache holds a face of exactly this raw generation.
pub open spec fn cached_parse_of(cache: Map<CacheKeyView, Option<ParsedFontView>>, key: CacheKeyView, source: OutlineSourceId) -> bool {
    cache.contains_key(key) && cache[key] is Some && (cache[key]->0).0 == source
}

/// The cached face of `key` when it was parsed from `loaded`'s generation.
pub fn cached_parsed_for_generation(cache: &ParsedFontCache, key: &CacheKey, loaded: &LoadedFont) -> (r: Option<ParsedFont>)
    requires
        cache.wf(),
    ensures
        r is Some <==> cached_parse_of(cache.view_map(), key@, loaded.source_id),
        r matches Some(p) ==> p@ == cache.view_map()[key@]->0,
{
    match cache.get(key) {
        Some(entry) => {
            if parsed_entry_matches_raw(&entry, Some(loaded)) {
                match entry {
                    ParsedFontCacheEntry::Parsed(p) => Some(p),
                    ParsedFontCacheEntry::Missing => None,
                }
            } else {
                None
            }
        },
        None => None,
    }
}

/// The parsed face of `loaded`: from the cache when it holds one of this
/// generation, otherwise parsed now from a copy of the bytes and stored in
/// the cache.
pub fn get_or_parse_cached(
    cache: &mut ParsedFontCache,
    font_id: FontId,
    key: CacheKey,
    loaded: &LoadedFont,
    faces: &SystemFaces,
) -> (r: Result<ParsedFont, String>)
    requires
        old(cache).wf(),
    ensures
        final(cache).wf(),
        cached_parse_of(old(cache).view_map(), key@, loaded.source_id) ==> r is Ok && r->Ok_0@ == old(cache).view_map()[key@]->0
            && final(cache).view_map() == old(cache).view_map()
            && final(cache).entry_count() == old(cache).entry_count() && final(cache).byte_count() == old(cache).byte_count(),
        !cached_parse_of(old(cache).view_map(), key@, loaded.source_id) ==> {
            &&& r is Ok <==> font_parses(loaded.bytes@.1, font_face_index_spec(font_id, *faces))
            &&& r matches Ok(p) ==> p@.0 == loaded.source_id && p@.1 == loaded.bytes@.1.len()
                && p@.2 == font_face_index_spec(font_id, *faces)
                && final(cache).view_map() == if p@.1 > PARSED_FONT_CACHE_BYTE_CAP {
                    old(cache).view_map()
                } else if parsed_insert_clears(*old(cache), key@, p@.1, PARSED_FONT_CACHE_CAP as nat, PARSED_FONT_CACHE_BYTE_CAP as nat) {
                    Map::<CacheKeyView, Option<ParsedFontView>>::empty().insert(key@, Some(p@))
                } else {
                    old(cache).view_map().insert(key@, Some(p@))
                }
            &&& r is Ok && !parsed_insert_clears(*old(cache), key@, r->Ok_0@.1, PARSED_FONT_CACHE_CAP as nat, PARSED_FONT_CACHE_BYTE_CAP as nat)
                ==> final(cache).entry_count() <= old(cache).entry_count() + 1 && final(cache).byte_count() <= old(cache).byte_count() + r->Ok_0@.1
            &&& r matches Err(m) ==> m@ == parse_failure_message(font_id) && final(cache).view_map() == old(cache).view_map()
        },
{
    match cached_parsed_for_generation(cache, &key, loaded) {
        Some(p) => {
            return Ok(p);
        },
        None => {},
    }
    let bytes = loaded.bytes.to_vec();
    let byte_len = bytes.len();
    let face_index = font_face_index(font_id, faces);
    let font = match parse_font_vec(font_id, bytes, faces) {
        Ok(f) => f,
        Err(m) => {
            return Err(m);
        },
    };
    let parsed = ParsedFont { font, source_id: loaded.source_id, byte_len, face_index };
    insert_parsed_cache_entry(cache, key, ParsedFontCacheEntry::Parsed(parsed.duplicate()));
    Ok(parsed)
}

// ---------------------------------------------------------------------------
// Parsed font sets
// ---------------------------------------------------------------------------

/// The fonts of one render: small faces parsed, system and oversized faces
/// kept as shared raw bytes. Each carries its raw-font generation.
#[derive(Debug)]
pub struct ParsedFontSet {
    parsed: Vec<Option<ParsedFont>>,
    raw: Vec<Option<LoadedFont>>,
}

impl ParsedFontSet {
    /// One slot per font identifier in each part.
    pub closed spec fn wf(self) -> bool {
        self.parsed@.len() == FONT_ID_COUNT && self.raw@.len() == FONT_ID_COUNT
    }

    /// The parsed faces by identifier.
    pub closed spec fn parsed_map(self) -> Map<FontId, ParsedFontView> {
        Map::new(
            |id: FontId| font_id_index(id) < self.parsed@.len() && self.parsed@[font_id_index(id)] is Some,
            |id: FontId| self.parsed@[font_id_index(id)]->0@,
        )
    }

    /// The fonts kept as raw bytes, by identifier.
    pub closed spec fn raw_map(self) -> Map<FontId, LoadedFontView> {
        Map::new(
            |id: FontId| font_id_index(id) < self.raw@.len() && self.raw@[font_id_index(id)] is Some,
            |id: FontId| self.raw@[font_id_index(id)]->0@,
        )
    }

    /// No fonts.
    pub fn new() -> (r: Self)
        ensures
            r.wf(),
            r.parsed_map() == Map::<FontId, ParsedFontView>::empty(),
            r.raw_map() == Map::<FontId, LoadedFontView>::empty(),
    {
        let mut parsed: Vec<Option<ParsedFont>> = Vec::new();
        let mut raw: Vec<Option<LoadedFont>> = Vec::new();
        let mut i: usize = 0;
        while i < FONT_ID_COUNT
            invariant
                i <= FONT_ID_COUNT,
                parsed@.len() == i,
                raw@.len() == i,
                forall|j: int| 0 <= j < i ==> parsed@[j] is None && raw@[j] is None,
            decreases FONT_ID_COUNT - i,
        {
            parsed.push(None);
            raw.push(None);
            i = i + 1;
        }
        let r = ParsedFontSet { parsed, raw };
        assert(r.parsed_map() =~= Map::<FontId, ParsedFontView>::empty()) by {
            assert forall|id: FontId| !r.parsed_map().contains_key(id) by {
                lemma_font_id_index(id);
            }
        }
        assert(r.raw_map() =~= Map::<FontId, LoadedFontView>::empty()) by {
            assert forall|id: FontId| !r.raw_map().contains_key(id) by {
                lemma_font_id_index(id);
            }
        }
        r
    }

    fn insert_parsed(&mut self, id: FontId, font: ParsedFont)
        requires
            old(self).wf(),
        ensures
            final(self).wf(),
            final(self).parsed_map() == old(self).parsed_map().insert(id, font@),
            final(self).raw_map() == old(self).raw_map(),
    {
        let ghost fv = font@;
        let idx = id.index();
        self.parsed.set(idx, Some(font));
        assert(self.parsed_map() =~= old(self).parsed_map().insert(id, fv)) by {
            assert forall|x: FontId| #[trigger] self.parsed_map().contains_key(x) == old(self).parsed_map().insert(id, fv).contains_key(x) by {
                lemma_font_id_index(x);
                lemma_font_id_index(id);
            }
            assert forall|x: FontId| #[trigger] self.parsed_map().contains_key(x) implies self.parsed_map()[x] == old(self).parsed_map().insert(id, fv)[x] by {
                lemma_font_id_index(x);
                lemma_font_id_index(id);
            }
        }
        assert(self.raw_map() =~= old(self).raw_map());
    }

    fn insert_raw(&mut self, id: FontId, font: LoadedFont)
        requires
            old(self).wf(),
        ensures
            final(self).wf(),
            final(self).raw_map() == old(self).raw_map().insert(id, font@),
            final(self).parsed_map() == old(self).parsed_map(),
    {
        let ghost fv = font@;
        let idx = id.index();
        self.raw.set(idx, Some(font));
        assert(self.raw_map() =~= old(self).raw_map().insert(id, fv)) by {
            assert forall|x: FontId| #[trigger] self.raw_map().contains_key(x) == old(self).raw_map().insert(id, fv).contains_key(x) by {
                lemma_font_id_index(x);
                lemma_font_id_index(id);
            }
            assert forall|x: FontId| #[trigger] self.raw_map().contains_key(x) implies self.raw_map()[x] == old(self).raw_map().insert(id, fv)[x] by {
                lemma_font_id_index(x);
                lemma_font_id_index(id);
            }
        }
        assert(self.parsed_map() =~= old(self).parsed_map());
    }

    /// The parsed face of `id`, if it was parsed.
    pub fn get(&self, id: &FontId) -> (r: Option<&FontVec>)
        ensures
            r is Some <==> self.parsed_map().contains_key(*id),
            r matches Some(f) ==> *f == self.parsed_map()[*id].3,
    {
        let idx = id.index();
        if idx < self.parsed.len() {
            match &self.parsed[idx] {
                Some(p) => Some(&*p.font),
                None => None,
            }
        } else {
            None
        }
    }

    /// Whether `id` was parsed.
    pub fn contains_parsed(&self, id: &FontId) -> (r: bool)
        ensures
            r == self.parsed_map().contains_key(*id),
    {
        let idx = id.index();
        idx < self.parsed.len() && self.parsed[idx].is_some()
    }

    /// Whether `id` is in the set, parsed or raw.
    pub fn contains_key(&self, id: &FontId) -> (r: bool)
        ensures
            r == (self.parsed_map().contains_key(*id) || self.raw_map().contains_key(*id)),
    {
        let idx = id.index();
        (idx < self.parsed.len() && self.parsed[idx].is_some()) || (idx < self.raw.len() && self.raw[idx].is_some())
    }

    /// The parsed faces with their generation, in identifier order.
    pub fn iter_with_source(&self) -> (r: Vec<(FontId, &FontVec, OutlineSourceId)>)
        ensures
            forall|k: int| 0 <= k < r@.len() ==> self.parsed_map().contains_key(#[trigger] r@[k].0)
                && r@[k].2 == self.parsed_map()[r@[k].0].0 && *r@[k].1 == self.parsed_map()[r@[k].0].3,
            forall|id: FontId| self.parsed_map().contains_key(id) ==> exists|k: int| 0 <= k < r@.len() && #[trigger] r@[k].0 == id,
            forall|a: int, b: int| 0 <= a < b < r@.len() ==> font_id_index(r@[a].0) < font_id_index(r@[b].0),
    {
        let mut out: Vec<(FontId, &FontVec, OutlineSourceId)> = Vec::new();
        let mut i: usize = 0;
        while i < FONT_ID_COUNT
            invariant
                i <= FONT_ID_COUNT,
                forall|k: int| 0 <= k < out@.len() ==> font_id_index(#[trigger] out@[k].0) < i,
                forall|k: int| 0 <= k < out@.len() ==> self.parsed_map().contains_key(#[trigger] out@[k].0)
                    && out@[k].2 == self.parsed_map()[out@[k].0].0 && *out@[k].1 == self.parsed_map()[out@[k].0].3,
                forall|id: FontId| font_id_index(id) < i && #[trigger] self.parsed_map().contains_key(id) ==> exists|k: int| 0 <= k < out@.len() && out@[k].0 == id,
                forall|a: int, b: int| 0 <= a < b < out@.len() ==> font_id_index(out@[a].0) < font_id_index(out@[b].0),
            decreases FONT_ID_COUNT - i,
        {
            let ghost before = out@;
            let id = FontId::from_index(i);
            proof {
                lemma_font_id_at(i as int);
            }
            if i < self.parsed.len() {
                match &self.parsed[i] {
                    Some(p) => {
                        out.push((id, &*p.font, p.source_id));
                        assert forall|x: FontId| font_id_index(x) < i + 1 && #[trigger] self.parsed_map().contains_key(x) implies exists|k: int| 0 <= k < out@.len() && out@[k].0 == x by {
                            lemma_font_id_index(x);
                            lemma_font_id_at(font_id_index(x) as int);
                            if font_id_index(x) == i {
                                assert(out@[out@.len() - 1].0 == x);
                            } else {
                                let k = choose|k: int| 0 <= k < before.len() && before[k].0 == x;
                                assert(out@[k] == before[k]);
                            }
                        }
                    },
                    None => {
                        assert forall|x: FontId| font_id_index(x) < i + 1 && #[trigger] self.parsed_map().contains_key(x) implies exists|k: int| 0 <= k < out@.len() && out@[k].0 == x by {
                            lemma_font_id_index(x);
                            lemma_font_id_at(font_id_index(x) as int);
                        }
                    },
                }
            } else {
                assert forall|x: FontId| font_id_index(x) < i + 1 && #[trigger] self.parsed_map().contains_key(x) implies exists|k: int| 0 <= k < out@.len() && out@[k].0 == x by {
                    lemma_font_id_index(x);
                }
            }
            i = i + 1;
        }
        assert forall|id: FontId| self.parsed_map().contains_key(id) implies exists|k: int| 0 <= k < out@.len() && #[trigger] out@[k].0 == id by {
            lemma_font_id_index(id);
        }
        out
    }

    /// The parsed faces, in identifier order.
    pub fn iter(&self) -> (r: Vec<(FontId, &FontVec)>)
        ensures
            forall|k: int| 0 <= k < r@.len() ==> self.parsed_map().contains_key(#[trigger] r@[k].0)
                && *r@[k].1 == self.parsed_map()[r@[k].0].3,
            forall|id: FontId| self.parsed_map().contains_key(id) ==> exists|k: int| 0 <= k < r@.len() && #[trigger] r@[k].0 == id,
            forall|a: int, b: int| 0 <= a < b < r@.len() ==> font_id_index(r@[a].0) < font_id_index(r@[b].0),
    {
        let all = self.iter_with_source();
        let mut out: Vec<(FontId, &FontVec)> = Vec::new();
        let mut i: usize = 0;
        while i < all.len()
            invariant
                i <= all@.len(),
                out@.len() == i,
                forall|k: int| 0 <= k < i ==> (#[trigger] out@[k]).0 == all@[k].0 && out@[k].1 == all@[k].1,
            decreases all@.len() - i,
        {
            out.push((all[i].0, all[i].1));
            i = i + 1;
        }
        assert forall|id: FontId| self.parsed_map().contains_key(id) implies exists|k: int| 0 <= k < out@.len() && #[trigger] out@[k].0 == id by {
            let k = choose|k: int| 0 <= k < all@.len() && #[trigger] all@[k].0 == id;
            assert(out@[k].0 == id);
        }
        out
    }

    /// The fonts kept as raw bytes, with their generation, in identifier order.
    pub fn iter_raw_with_source(&self) -> (r: Vec<(FontId, &[u8], OutlineSourceId)>)
        ensures
            forall|k: int| 0 <= k < r@.len() ==> self.raw_map().contains_key(#[trigger] r@[k].0)
                && r@[k].1@ == self.raw_map()[r@[k].0].0.1 && r@[k].2 == self.raw_map()[r@[k].0].1,
            forall|id: FontId| self.raw_map().contains_key(id) ==> exists|k: int| 0 <= k < r@.len() && #[trigger] r@[k].0 == id,
            forall|a: int, b: int| 0 <= a < b < r@.len() ==> font_id_index(r@[a].0) < font_id_index(r@[b].0),
    {
        let mut out: Vec<(FontId, &[u8], OutlineSourceId)> = Vec::new();
        let mut i: usize = 0;
        while i < FONT_ID_COUNT
            invariant
                i <= FONT_ID_COUNT,
                forall|k: int| 0 <= k < out@.len() ==> font_id_index(#[trigger] out@[k].0) < i,
                forall|k: int| 0 <= k < out@.len() ==> self.raw_map().contains_key(#[trigger] out@[k].0)
                    && out@[k].1@ == self.raw_map()[out@[k].0].0.1 && out@[k].2 == self.raw_map()[out@[k].0].1,
                forall|id: FontId| font_id_index(id) < i && #[trigger] self.raw_map().contains_key(id) ==> exists|k: int| 0 <= k < out@.len() && out@[k].0 == id,
                forall|a: int, b: int| 0 <= a < b < out@.len() ==> font_id_index(out@[a].0) < font_id_index(out@[b].0),
            decreases FONT_ID_COUNT - i,
        {
            let ghost before = out@;
            let id = FontId::from_index(i);
            proof {
                lemma_font_id_at(i as int);
            }
            if i < self.raw.len() {
                match &self.raw[i] {
                    Some(f) => {
                        out.push((id, f.bytes.as_slice(), f.source_id));
                        assert forall|x: FontId| font_id_index(x) < i + 1 && #[trigger] self.raw_map().contains_key(x) implies exists|k: int| 0 <= k < out@.len() && out@[k].0 == x by {
                            lemma_font_id_index(x);
                            lemma_font_id_at(font_id_index(x) as int);
                            if font_id_index(x) == i {
                                assert(out@[out@.len() - 1].0 == x);
                            } else {
                                let k = choose|k: int| 0 <= k < before.len() && before[k].0 == x;
                                assert(out@[k] == before[k]);
                            }
                        }
                    },
                    None => {
                        assert forall|x: FontId| font_id_index(x) < i + 1 && #[trigger] self.raw_map().contains_key(x) implies exists|k: int| 0 <= k < out@.len() && out@[k].0 == x by {
                            lemma_font_id_index(x);
                            lemma_font_id_at(font_id_index(x) as int);
                        }
                    },
                }
            } else {
                assert forall|x: FontId| font_id_index(x) < i + 1 && #[trigger] self.raw_map().contains_key(x) implies exists|k: int| 0 <= k < out@.len() && out@[k].0 == x by {
                    lemma_font_id_index(x);
                }
            }
            i = i + 1;
        }
        assert forall|id: FontId| self.raw_map().contains_key(id) implies exists|k: int| 0 <= k < out@.len() && #[trigger] out@[k].0 == id by {
            lemma_font_id_index(id);
        }
        out
    }
}

// ---------------------------------------------------------------------------
// Collecting cached parses
// ---------------------------------------------------------------------------

/// A loaded font that stays raw bytes under [`parsed_font_policy`].
pub open spec fn keeps_raw(id: FontId, f: LoadedFontView) -> bool {
    parsed_font_policy_spec(id, f.0.1.len()) == ParsedFontPolicy::RawOnly
}

pub open spec fn loaded_opt(raw: Map<FontId, LoadedFontView>, id: FontId) -> Option<LoadedFontView> {
    if raw.contains_key(id) {
        Some(raw[id])
    } else {
        None
    }
}

/// Whether the parsed cache already settles font `id` for the raw fonts
/// loaded now: a raw-only font with no stale parsed entry, a face parsed from
/// the same generation, or a missing marker for a font that is still missing.
pub open spec fn layered_known(
    src: FontSourceKeyView,
    id: FontId,
    raw: Map<FontId, LoadedFontView>,
    cached: Map<CacheKeyView, Option<ParsedFontView>>,
) -> bool {
    let key = cache_key_spec(src, id);
    if raw.contains_key(id) && keeps_raw(id, raw[id]) {
        !cached.contains_key(key)
    } else {
        cached.contains_key(key) && parsed_entry_matches_raw_spec(cached[key], loaded_opt(raw, id))
    }
}

/// A wanted font whose parse of the current generation is cached.
pub open spec fn takes_cached_parse(
    src: FontSourceKeyView,
    id: FontId,
    wanted: Set<FontId>,
    raw: Map<FontId, LoadedFontView>,
    cached: Map<CacheKeyView, Option<ParsedFontView>>,
) -> bool {
    &&& wanted.contains(id)
    &&& raw.contains_key(id)
    &&& !keeps_raw(id, raw[id])
    &&& cached_parse_of(cached, cache_key_spec(src, id), raw[id].1)
}

/// The parsed part after collecting: the cached parses of wanted fonts added.
pub open spec fn layered_parsed(
    out: Map<FontId, ParsedFontView>,
    src: FontSourceKeyView,
    wanted: Set<FontId>,
    raw: Map<FontId, LoadedFontView>,
    cached: Map<CacheKeyView, Option<ParsedFontView>>,
) -> Map<FontId, ParsedFontView> {
    Map::new(
        |id: FontId| out.contains_key(id) || takes_cached_parse(src, id, wanted, raw, cached),
        |id: FontId| if takes_cached_parse(src, id, wanted, raw, cached) {
            cached[cache_key_spec(src, id)]->0
        } else {
            out[id]
        },
    )
}

/// A wanted font that stays raw bytes.
pub open spec fn takes_raw(id: FontId, wanted: Set<FontId>, raw: Map<FontId, LoadedFontView>) -> bool {
    wanted.contains(id) && raw.contains_key(id) && keeps_raw(id, raw[id])
}

/// The raw part after collecting: the wanted raw-only fonts added.
pub open spec fn layered_raw(
    out: Map<FontId, LoadedFontView>,
    wanted: Set<FontId>,
    raw: Map<FontId, LoadedFontView>,
) -> Map<FontId, LoadedFontView> {
    Map::new(
        |id: FontId| out.contains_key(id) || takes_raw(id, wanted, raw),
        |id: FontId| if takes_raw(id, wanted, raw) {
            raw[id]
        } else {
            out[id]
        },
    )
}

/// Copy into `out` the wanted raw-only fonts and the cached parses of the
/// current generations. Returns whether the parsed cache settles every
/// wanted font (see [`layered_known`]).
pub fn collect_cached_layered(
    katex_source: &FontSourceKey,
    wanted: &FontIdSet,
    raw: &FontSet,
    cached: &ParsedFontCache,
    out: &mut ParsedFontSet,
) -> (r: bool)
    requires
        cached.wf(),
        old(out).wf(),
    ensures
        final(out).wf(),
        r == forall|id: FontId| #[trigger] wanted@.contains(id) ==> layered_known(katex_source@, id, raw.view_map(), cached.view_map()),
        final(out).parsed_map() == layered_parsed(old(out).parsed_map(), katex_source@, wanted@, raw.view_map(), cached.view_map()),
        final(out).raw_map() == layered_raw(old(out).raw_map(), wanted@, raw.view_map()),
{
    let ghost src = katex_source@;
    let ghost rv = raw.view_map();
    let ghost cv = cached.view_map();
    let list = wanted.to_vec();
    let mut all_known = true;
    let mut i: usize = 0;
    while i < list.len()
        invariant
            cached.wf(),
            out.wf(),
            src == katex_source@,
            rv == raw.view_map(),
            cv == cached.view_map(),
            i <= list@.len(),
            list@.to_set() == wanted@,
            list@.no_duplicates(),
            all_known == forall|j: int| 0 <= j < i ==> layered_known(src, #[trigger] list@[j], rv, cv),
            out.parsed_map() == layered_parsed(old(out).parsed_map(), src, list@.subrange(0, i as int).to_set(), rv, cv),
            out.raw_map() == layered_raw(old(out).raw_map(), list@.subrange(0, i as int).to_set(), rv),
        decreases list@.len() - i,
    {
        let id = list[i];
        let key = cache_key(katex_source, id);
        let ghost done = list@.subrange(0, i as int).to_set();
        let ghost next = list@.subrange(0, i + 1).to_set();
        assert(next =~= done.insert(id)) by {
            assert(list@.subrange(0, i + 1) =~= list@.subrange(0, i as int).push(id));
            list@.subrange(0, i as int).lemma_push_to_set_commute(id);
        }
        assert(!done.contains(id)) by {
            if done.contains(id) {
                let j = choose|j: int| 0 <= j < i && list@.subrange(0, i as int)[j] == id;
                assert(list@[j] == list@[i as int]);
            }
        }
        let ghost known_id = layered_known(src, id, rv, cv);
        match raw.fonts_get(id) {
            Some(loaded) => {
                if parsed_font_policy(id, loaded.bytes.len()) == ParsedFontPolicy::RawOnly {
                    let stale = cached.contains_key(&key);
                    out.insert_raw(id, loaded);
                    if stale {
                        all_known = false;
                    }
                } else {
                    match cached.get(&key) {
                        Some(ParsedFontCacheEntry::Parsed(p)) => {
                            if p.source_id == loaded.source_id {
                                out.insert_parsed(id, p);
                            } else {
                                all_known = false;
                            }
                        },
                        _ => {
                            all_known = false;
                        },
                    }
                }
            },
            None => {
                match cached.get(&key) {
                    Some(ParsedFontCacheEntry::Missing) => {},
                    _ => {
                        all_known = false;
                    },
                }
            },
        }
        assert(out.parsed_map() =~= layered_parsed(old(out).parsed_map(), src, next, rv, cv));
        assert(out.raw_map() =~= layered_raw(old(out).raw_map(), next, rv));
        assert(all_known == forall|j: int| 0 <= j < i + 1 ==> layered_known(src, #[trigger] list@[j], rv, cv)) by {
            if all_known {
                assert forall|j: int| 0 <= j < i + 1 implies layered_known(src, #[trigger] list@[j], rv, cv) by {
                    if j == i {
                        assert(known_id);
                    }
                }
            } else {
                if forall|j: int| 0 <= j < i ==> layered_known(src, #[trigger] list@[j], rv, cv) {
                    assert(!layered_known(src, list@[i as int], rv, cv));
                }
            }
        }
        i = i + 1;
    }
    assert(list@.subrange(0, list@.len() as int) =~= list@);
    proof {
        if all_known {
            assert forall|id: FontId| #[trigger] wanted@.contains(id) implies layered_known(src, id, rv, cv) by {
                assert(list@.to_set().contains(id));
                let j = choose|j: int| 0 <= j < list@.len() && list@[j] == id;
                assert(layered_known(src, list@[j], rv, cv));
            }
        } else {
            let j = choose|j: int| 0 <= j < list@.len() && !layered_known(src, #[trigger] list@[j], rv, cv);
            assert(list@.to_set().contains(list@[j]));
        }
    }
    all_known
}

/// `Ok` exactly when every required font of `plan` is in `loaded`, parsed or
/// raw; otherwise an error naming one that is not.
pub fn validate_required_layered(plan: &FontLoadPlan, loaded: &ParsedFontSet) -> (r: Result<(), String>)
    ensures
        r is Ok <==> plan.required_set().subset_of(loaded.parsed_map().dom().union(loaded.raw_map().dom())),
        r matches Err(m) ==> exists|id: FontId| plan.required_set().contains(id) && !loaded.parsed_map().contains_key(id)
            && !loaded.raw_map().contains_key(id) && m@ == missing_font_message(id),
{
    let list = plan.required().to_vec();
    let mut i: usize = 0;
    while i < list.len()
        invariant
            i <= list@.len(),
            list@.to_set() == plan.required_set(),
            forall|j: int| 0 <= j < i ==> loaded.parsed_map().contains_key(#[trigger] list@[j]) || loaded.raw_map().contains_key(list@[j]),
        decreases list@.len() - i,
    {
        let id = list[i];
        if !loaded.contains_key(&id) {
            assert(list@.to_set().contains(id));
            assert(!loaded.parsed_map().dom().union(loaded.raw_map().dom()).contains(id));
            return Err(missing_font_error(id));
        }
        i = i + 1;
    }
    assert forall|id: FontId| plan.required_set().contains(id) implies loaded.parsed_map().dom().union(loaded.raw_map().dom()).contains(id) by {
        assert(list@.to_set().contains(id));
        let j = choose|j: int| 0 <= j < list@.len() && list@[j] == id;
        assert(loaded.parsed_map().contains_key(list@[j]) || loaded.raw_map().contains_key(list@[j]));
    }
    Ok(())
}

// ---------------------------------------------------------------------------
// Loading parsed fonts
// ---------------------------------------------------------------------------

/// A parsed-font set built from the raw fonts `rv` of one load: the raw part
/// holds exactly the raw-only fonts of `rv`, and the parsed part exactly its
/// other fonts, each parsed from the same generation.
pub open spec fn parsed_set_matches(
    parsed: Map<FontId, ParsedFontView>,
    rawp: Map<FontId, LoadedFontView>,
    rv: Map<FontId, LoadedFontView>,
) -> bool {
    &&& forall|id: FontId| #[trigger] rawp.contains_key(id) <==> rv.contains_key(id) && keeps_raw(id, rv[id])
    &&& forall|id: FontId| #[trigger] rawp.contains_key(id) ==> rawp[id] == rv[id]
    &&& forall|id: FontId| #[trigger] parsed.contains_key(id) <==> rv.contains_key(id) && !keeps_raw(id, rv[id])
    &&& forall|id: FontId| #[trigger] parsed.contains_key(id) ==> parsed[id].0 == rv[id].1
}

/// Every font that a load may return for a wanted font, and that is to be
/// parsed, parses.
pub open spec fn origins_parse<L: Fn(FontId) -> Result<Option<FontStorage>, String>>(
    before: Map<CacheKeyView, Option<LoadedFontView>>,
    katex_source: FontSourceKeyView,
    wanted: Set<FontId>,
    load_bytes: L,
    next0: u64,
    faces: SystemFaces,
) -> bool {
    forall|id: FontId, f: LoadedFontView| #[trigger] font_origin(before, katex_source, id, f, load_bytes, next0)
        && wanted.contains(id) && !keeps_raw(id, f) ==> font_parses(f.0.1, font_face_index_spec(id, faces))
}

/// Bytes owned by the parsed faces of `m` among the first `k` identifiers in
/// the enumeration order of [`FontId`].
pub open spec fn parsed_bytes_upto(m: Map<FontId, ParsedFontView>, k: int) -> nat
    decreases k,
{
    if k <= 0 {
        0
    } else {
        parsed_bytes_upto(m, k - 1) + if m.contains_key(font_id_at(k - 1)) { m[font_id_at(k - 1)].1 } else { 0 }
    }
}

/// Bytes owned by all parsed faces of `m`.
pub open spec fn parsed_bytes(m: Map<FontId, ParsedFontView>) -> nat {
    parsed_bytes_upto(m, FONT_ID_COUNT as int)
}

proof fn lemma_parsed_bytes_upto_insert(m: Map<FontId, ParsedFontView>, id: FontId, p: ParsedFontView, k: int)
    requires
        !m.contains_key(id),
        0 <= k <= FONT_ID_COUNT,
    ensures
        parsed_bytes_upto(m.insert(id, p), k) == parsed_bytes_upto(m, k) + if font_id_index(id) < k { p.1 } else { 0 },
    decreases k,
{
    lemma_font_id_index(id);
    if k > 0 {
        lemma_parsed_bytes_upto_insert(m, id, p, k - 1);
        lemma_font_id_at(k - 1);
    }
}

/// Adding a face for a new identifier adds its bytes.
proof fn lemma_parsed_bytes_insert(m: Map<FontId, ParsedFontView>, id: FontId, p: ParsedFontView)
    requires
        !m.contains_key(id),
    ensures
        parsed_bytes(m.insert(id, p)) == parsed_bytes(m) + p.1,
{
    lemma_font_id_index(id);
    lemma_parsed_bytes_upto_insert(m, id, p, FONT_ID_COUNT as int);
}

/// Room in the parsed cache for one load: an entry for every identifier, and
/// `faces` more bytes.
pub open spec fn parsed_cache_has_room(cache: ParsedFontCache, faces: nat) -> bool {
    &&& cache.entry_count() + FONT_ID_COUNT <= PARSED_FONT_CACHE_CAP
    &&& cache.byte_count() + faces <= PARSED_FONT_CACHE_BYTE_CAP
}

/// The parsed cache holds no face for `key`: the key is absent or holds the
/// missing marker.
pub open spec fn no_cached_face(cache: Map<CacheKeyView, Option<ParsedFontView>>, key: CacheKeyView) -> bool {
    cache.contains_key(key) ==> cache[key] is None
}

/// The parsed-font set of the raw fonts `raw` loaded for `plan`: each small
/// KaTeX face parsed, reusing a cached parse of the same raw generation, and
/// system and oversized faces kept as raw bytes. The parsed cache records a
/// missing marker for each wanted font that `raw` lacks and drops stale
/// entries of raw-only fonts.
pub fn parse_loaded_fonts(
    parsed_cache: &mut ParsedFontCache,
    katex_source: &FontSourceKey,
    faces: &SystemFaces,
    plan: &FontLoadPlan,
    raw: &FontSet,
) -> (r: Result<ParsedFontSet, String>)
    requires
        old(parsed_cache).wf(),
        raw.view_map().dom().subset_of(plan.required_set().union(plan.optional_set())),
    ensures
        final(parsed_cache).wf(),
        plan.required_set().subset_of(raw.view_map().dom()) && (forall|id: FontId| #[trigger] raw.view_map().contains_key(id)
            && !keeps_raw(id, raw.view_map()[id]) ==> font_parses(raw.view_map()[id].0.1, font_face_index_spec(id, *faces)))
            ==> r is Ok,
        !plan.required_set().subset_of(raw.view_map().dom()) ==> r is Err,
        r matches Ok(set) ==> {
            &&& parsed_set_matches(set.parsed_map(), set.raw_map(), raw.view_map())
            &&& forall|id: FontId| #[trigger] plan.required_set().union(plan.optional_set()).contains(id)
                && !raw.view_map().contains_key(id)
                ==> no_cached_face(final(parsed_cache).view_map(), cache_key_spec(katex_source@, id))
            &&& parsed_cache_has_room(*old(parsed_cache), parsed_bytes(set.parsed_map())) ==>
                forall|id: FontId| #[trigger] plan.required_set().union(plan.optional_set()).contains(id)
                    && !raw.view_map().contains_key(id)
                    ==> final(parsed_cache).view_map().contains_key(cache_key_spec(katex_source@, id))
                        && final(parsed_cache).view_map()[cache_key_spec(katex_source@, id)] is None
        },
        r matches Err(m) ==> {
            ||| exists|id: FontId| #[trigger] plan.required_set().contains(id) && !raw.view_map().contains_key(id)
                && m@ == missing_font_message(id)
            ||| exists|id: FontId| #[trigger] raw.view_map().contains_key(id) && !keeps_raw(id, raw.view_map()[id])
                && !font_parses(raw.view_map()[id].0.1, font_face_index_spec(id, *faces)) && m@ == parse_failure_message(id)
        },
{
    let ghost src = katex_source@;
    let wanted = plan.all();
    let ghost rv = raw.view_map();
    let mut out = ParsedFontSet::new();
    if collect_cached_layered(katex_source, &wanted, &raw, parsed_cache, &mut out) {
        proof {
            let cv = parsed_cache.view_map();
            assert(parsed_set_matches(out.parsed_map(), out.raw_map(), rv)) by {
                assert forall|id: FontId| #[trigger] out.parsed_map().contains_key(id) <==> rv.contains_key(id) && !keeps_raw(id, rv[id]) by {
                    if rv.contains_key(id) && !keeps_raw(id, rv[id]) {
                        assert(wanted@.contains(id));
                        assert(layered_known(src, id, rv, cv));
                        assert(takes_cached_parse(src, id, wanted@, rv, cv));
                    }
                }
            }
            assert forall|id: FontId| #[trigger] wanted@.contains(id) && !rv.contains_key(id)
                implies no_cached_face(cv, cache_key_spec(src, id)) by {
                assert(layered_known(src, id, rv, cv));
            }
        }
        match validate_required_layered(plan, &out) {
            Ok(()) => {},
            Err(m) => {
                return Err(m);
            },
        }
        return Ok(out);
    }
    let list = wanted.to_vec();
    let mut i: usize = 0;
    while i < list.len()
        invariant
            parsed_cache.wf(),
            out.wf(),
            i <= list@.len(),
            list@.to_set() == wanted@,
            list@.no_duplicates(),
            src == katex_source@,
            rv == raw.view_map(),
            wanted@ == plan.required_set().union(plan.optional_set()),
            rv.dom().subset_of(wanted@),
            forall|id: FontId| #[trigger] out.raw_map().contains_key(id) ==> rv.contains_key(id) && keeps_raw(id, rv[id]) && out.raw_map()[id] == rv[id],
            forall|id: FontId| #[trigger] out.parsed_map().contains_key(id) ==> rv.contains_key(id) && !keeps_raw(id, rv[id]) && out.parsed_map()[id].0 == rv[id].1,
            forall|j: int| 0 <= j < i && rv.contains_key(#[trigger] list@[j]) ==> out.parsed_map().contains_key(list@[j]) || out.raw_map().contains_key(list@[j]),
            forall|j: int| 0 <= j < i && !rv.contains_key(#[trigger] list@[j]) ==> no_cached_face(parsed_cache.view_map(), cache_key_spec(src, list@[j])),
            list@.len() <= FONT_ID_COUNT,
            parsed_cache_has_room(*old(parsed_cache), parsed_bytes(out.parsed_map())) ==> {
                &&& parsed_cache.entry_count() <= old(parsed_cache).entry_count() + i
                &&& parsed_cache.byte_count() <= old(parsed_cache).byte_count() + parsed_bytes(out.parsed_map())
                &&& forall|j: int| 0 <= j < i && !rv.contains_key(#[trigger] list@[j])
                    ==> parsed_cache.view_map().contains_key(cache_key_spec(src, list@[j]))
                        && parsed_cache.view_map()[cache_key_spec(src, list@[j])] is None
            },
        decreases list@.len() - i,
    {
        let id = list[i];
        let key = cache_key(katex_source, id);
        let ghost c0 = parsed_cache.view_map();
        let ghost cache0 = *parsed_cache;
        let ghost pm0 = out.parsed_map();
        proof {
            assert forall|j: int| 0 <= j < i implies #[trigger] list@[j] != id by {
                assert(list@[j] != list@[i as int]);
            }
        }
        match raw.fonts_get(id) {
            Some(loaded) => {
                if parsed_font_policy(id, loaded.bytes.len()) == ParsedFontPolicy::RawOnly {
                    remove_parsed_cache_entry(parsed_cache, &key);
                    out.insert_raw(id, loaded);
                } else if !out.contains_parsed(&id) {
                    let ghost lv = loaded@;
                    match get_or_parse_cached(parsed_cache, id, key, &loaded, faces) {
                        Ok(parsed) => {
                            let ghost pv = parsed@;
                            out.insert_parsed(id, parsed);
                            proof {
                                lemma_parsed_bytes_insert(pm0, id, pv);
                                if parsed_cache_has_room(*old(parsed_cache), parsed_bytes(out.parsed_map())) {
                                    assert(parsed_cache_has_room(*old(parsed_cache), parsed_bytes(pm0)));
                                    assert(!parsed_insert_clears(cache0, key@, pv.1, PARSED_FONT_CACHE_CAP as nat, PARSED_FONT_CACHE_BYTE_CAP as nat));
                                }
                            }
                        },
                        Err(m) => {
                            proof {
                                assert(list@.to_set().contains(id));
                                assert(lv == rv[id]);
                            }
                            return Err(m);
                        },
                    }
                }
            },
            None => {
                insert_parsed_cache_entry(parsed_cache, key, ParsedFontCacheEntry::Missing);
                proof {
                    if parsed_cache_has_room(*old(parsed_cache), parsed_bytes(out.parsed_map())) {
                        assert(!parsed_insert_clears(cache0, key@, 0, PARSED_FONT_CACHE_CAP as nat, PARSED_FONT_CACHE_BYTE_CAP as nat));
                        assert(parsed_cache.view_map() == c0.insert(key@, None));
                    }
                }
            },
        }
        i = i + 1;
    }
    proof {
        assert forall|id: FontId| #[trigger] rv.contains_key(id) implies out.parsed_map().contains_key(id) || out.raw_map().contains_key(id) by {
            assert(wanted@.contains(id));
            assert(list@.to_set().contains(id));
            let j = choose|j: int| 0 <= j < list@.len() && list@[j] == id;
            assert(rv.contains_key(list@[j]));
        }
        assert(parsed_set_matches(out.parsed_map(), out.raw_map(), rv));
    }
    match validate_required_layered(plan, &out) {
        Ok(()) => {},
        Err(m) => {
            return Err(m);
        },
    }
    Ok(out)
}


/// Load the fonts of `plan` through the raw cache (see [`load_fonts_for_plan`]),
/// then parse each small KaTeX face, reusing a cached parse of the same raw
/// generation, and keep system and oversized faces as raw bytes. The parsed
/// cache records a missing marker for each unavailable font and drops stale
/// entries of raw-only fonts.
pub fn load_fonts_for_plan_parsed<L>(
    raw_cache: &mut FontCache,
    parsed_cache: &mut ParsedFontCache,
    ids: &mut OutlineSourceIds,
    katex_source: &FontSourceKey,
    faces: &SystemFaces,
    plan: &FontLoadPlan,
    load_bytes: L,
) -> (r: Result<ParsedFontSet, String>) where L: Fn(FontId) -> Result<Option<FontStorage>, String>
    requires
        old(raw_cache).wf(),
        old(parsed_cache).wf(),
        old(ids).next() + FONT_ID_COUNT < u64::MAX,
        forall|id: FontId| load_bytes.requires((id,)),
    ensures
        final(raw_cache).wf(),
        final(parsed_cache).wf(),
        final(ids).next() >= old(ids).next(),
        all_cached(old(raw_cache).view_map(), katex_source@, plan.required_set().union(plan.optional_set()))
            && !(forall|id: FontId| #[trigger] plan.required_set().contains(id) ==> cached_font(old(raw_cache).view_map(), katex_source@, id))
            ==> (r matches Err(m) && exists|id: FontId| #[trigger] plan.required_set().contains(id)
                && !cached_font(old(raw_cache).view_map(), katex_source@, id) && m@ == missing_font_message(id)),
        load_succeeds(old(raw_cache).view_map(), katex_source@, plan.required_set(), plan.required_set().union(plan.optional_set()), load_bytes)
            && origins_parse(old(raw_cache).view_map(), katex_source@, plan.required_set().union(plan.optional_set()), load_bytes, old(ids).next(), *faces)
            ==> r is Ok,
        load_succeeds(old(raw_cache).view_map(), katex_source@, plan.required_set(), plan.required_set().union(plan.optional_set()), load_bytes)
            && r is Err ==> exists|id: FontId, f: LoadedFontView| #[trigger] font_origin(old(raw_cache).view_map(), katex_source@, id, f, load_bytes, old(ids).next())
                && plan.required_set().union(plan.optional_set()).contains(id)
                && !keeps_raw(id, f) && !font_parses(f.0.1, font_face_index_spec(id, *faces)) && r->Err_0@ == parse_failure_message(id),
        r matches Ok(set) ==> {
            &&& plan.required_set().subset_of(set.parsed_map().dom().union(set.raw_map().dom()))
            &&& forall|id: FontId| #[trigger] plan.required_set().union(plan.optional_set()).contains(id)
                && !set.parsed_map().contains_key(id) && !set.raw_map().contains_key(id)
                ==> no_cached_face(final(parsed_cache).view_map(), cache_key_spec(katex_source@, id))
            &&& parsed_cache_has_room(*old(parsed_cache), parsed_bytes(set.parsed_map())) ==>
                forall|id: FontId| #[trigger] plan.required_set().union(plan.optional_set()).contains(id)
                    && !set.parsed_map().contains_key(id) && !set.raw_map().contains_key(id)
                    ==> final(parsed_cache).view_map().contains_key(cache_key_spec(katex_source@, id))
                        && final(parsed_cache).view_map()[cache_key_spec(katex_source@, id)] is None
            &&& set.parsed_map().dom().union(set.raw_map().dom()).subset_of(plan.required_set().union(plan.optional_set()))
            &&& set.parsed_map().dom().disjoint(set.raw_map().dom())
            &&& forall|id: FontId| #[trigger] set.raw_map().contains_key(id) ==> keeps_raw(id, set.raw_map()[id])
                && font_origin(old(raw_cache).view_map(), katex_source@, id, set.raw_map()[id], load_bytes, old(ids).next())
            &&& forall|id: FontId| #[trigger] set.parsed_map().contains_key(id) ==> exists|f: LoadedFontView|
                !keeps_raw(id, f) && f.1 == set.parsed_map()[id].0
                && #[trigger] font_origin(old(raw_cache).view_map(), katex_source@, id, f, load_bytes, old(ids).next())
            &&& forall|id: FontId| #[trigger] plan.required_set().union(plan.optional_set()).contains(id)
                && !set.parsed_map().contains_key(id) && !set.raw_map().contains_key(id)
                ==> font_unavailable(old(raw_cache).view_map(), katex_source@, id, load_bytes)
        },
        r matches Err(m) ==> {
            ||| exists|id: FontId| #[trigger] load_bytes.ensures((id,), Err(m))
            ||| exists|id: FontId| #[trigger] plan.required_set().contains(id) && m@ == missing_font_message(id)
                && font_unavailable(old(raw_cache).view_map(), katex_source@, id, load_bytes)
            ||| exists|id: FontId, f: LoadedFontView| #[trigger] font_origin(old(raw_cache).view_map(), katex_source@, id, f, load_bytes, old(ids).next())
                && plan.required_set().union(plan.optional_set()).contains(id)
                && !keeps_raw(id, f) && !font_parses(f.0.1, font_face_index_spec(id, *faces)) && m@ == parse_failure_message(id)
        },
{
    let ghost src = katex_source@;
    let ghost before = raw_cache.view_map();
    let ghost next0 = ids.next();
    let wanted = plan.all();
    let raw = match load_fonts_for_plan(raw_cache, ids, katex_source, plan, load_bytes) {
        Ok(set) => set,
        Err(m) => {
            return Err(m);
        },
    };
    let r = parse_loaded_fonts(parsed_cache, katex_source, faces, plan, &raw);
    proof {
        let rv = raw.view_map();
        if load_succeeds(before, src, plan.required_set(), wanted@, load_bytes) && origins_parse(before, src, wanted@, load_bytes, next0, *faces) {
            assert forall|id: FontId| #[trigger] rv.contains_key(id) && !keeps_raw(id, rv[id])
                implies font_parses(rv[id].0.1, font_face_index_spec(id, *faces)) by {
                assert(font_origin(before, src, id, rv[id], load_bytes, next0));
                assert(wanted@.contains(id));
            }
        }
        if r is Ok {
            let set = r->Ok_0;
            assert forall|id: FontId| #[trigger] set.parsed_map().contains_key(id) implies exists|f: LoadedFontView|
                !keeps_raw(id, f) && f.1 == set.parsed_map()[id].0
                && #[trigger] font_origin(before, src, id, f, load_bytes, next0) by {
                assert(font_origin(before, src, id, rv[id], load_bytes, next0));
            }
        }
        if r is Err {
            let m = r->Err_0;
            if exists|id: FontId| #[trigger] rv.contains_key(id) && !keeps_raw(id, rv[id])
                && !font_parses(rv[id].0.1, font_face_index_spec(id, *faces)) && m@ == parse_failure_message(id) {
                let id = choose|id: FontId| #[trigger] rv.contains_key(id) && !keeps_raw(id, rv[id])
                    && !font_parses(rv[id].0.1, font_face_index_spec(id, *faces)) && m@ == parse_failure_message(id);
                assert(font_origin(before, src, id, rv[id], load_bytes, next0));
                assert(wanted@.contains(id));
            }
        }
    }
    r
}

/// Parsed-font counterpart of the lazy item loader: the fonts that `items`
/// name, parsed where small, with no system fallback planned.
pub fn load_fonts_for_items_parsed<L>(
    raw_cache: &mut FontCache,
    parsed_cache: &mut ParsedFontCache,
    ids: &mut OutlineSourceIds,
    katex_source: &FontSourceKey,
    faces: &SystemFaces,
    items: &[PlanItem],
    load_bytes: L,
) -> (r: Result<ParsedFontSet, String>) where L: Fn(FontId) -> Result<Option<FontStorage>, String>
    requires
        old(raw_cache).wf(),
        old(parsed_cache).wf(),
        old(ids).next() + FONT_ID_COUNT < u64::MAX,
        forall|id: FontId| load_bytes.requires((id,)),
    ensures
        final(raw_cache).wf(),
        final(parsed_cache).wf(),
        final(ids).next() >= old(ids).next(),
        load_succeeds(old(raw_cache).view_map(), katex_source@, planned_required(items@), planned_required(items@), load_bytes)
            && origins_parse(old(raw_cache).view_map(), katex_source@, planned_required(items@), load_bytes, old(ids).next(), *faces)
            ==> r is Ok,
        r matches Ok(set) ==> {
            &&& set.parsed_map().dom().union(set.raw_map().dom()) == planned_required(items@)
            &&& set.parsed_map().dom().disjoint(set.raw_map().dom())
            &&& forall|id: FontId| #[trigger] set.raw_map().contains_key(id) ==> keeps_raw(id, set.raw_map()[id])
                && font_origin(old(raw_cache).view_map(), katex_source@, id, set.raw_map()[id], load_bytes, old(ids).next())
            &&& forall|id: FontId| #[trigger] set.parsed_map().contains_key(id) ==> exists|f: LoadedFontView|
                !keeps_raw(id, f) && f.1 == set.parsed_map()[id].0
                && #[trigger] font_origin(old(raw_cache).view_map(), katex_source@, id, f, load_bytes, old(ids).next())
        },
        r matches Err(m) ==> {
            ||| exists|id: FontId| #[trigger] load_bytes.ensures((id,), Err(m))
            ||| exists|id: FontId| #[trigger] planned_required(items@).contains(id) && m@ == missing_font_message(id)
                && font_unavailable(old(raw_cache).view_map(), katex_source@, id, load_bytes)
            ||| exists|id: FontId, f: LoadedFontView| #[trigger] font_origin(old(raw_cache).view_map(), katex_source@, id, f, load_bytes, old(ids).next())
                && planned_required(items@).contains(id)
                && !keeps_raw(id, f) && !font_parses(f.0.1, font_face_index_spec(id, *faces)) && m@ == parse_failure_message(id)
        },
{
    let plan = FontLoadPlan::for_display_items_lazy(items);
    assert(plan.required_set().union(plan.optional_set()) =~= plan.required_set());
    let r = load_fonts_for_plan_parsed(raw_cache, parsed_cache, ids, katex_source, faces, &plan, load_bytes);
    proof {
        if r is Ok {
            let set = r->Ok_0;
            assert(plan.required_set().union(plan.optional_set()) =~= plan.required_set());
            assert(set.parsed_map().dom().union(set.raw_map().dom()) =~= planned_required(items@));
        } else {
            assert(plan.required_set().union(plan.optional_set()) =~= plan.required_set());
        }
    }
    r
}

/// The error text for asking the system-font path for a KaTeX face.
pub open spec fn not_system_font_message(id: FontId) -> Seq<char> {
    font_id_name(id) + " is not a system fallback font"@
}

/// Parse a system fallback face from its discovered bytes, borrowing them.
/// A KaTeX face is an error; `Ok(None)` when the system font was not found;
/// otherwise the face at the discovered index, or a parse error.
pub fn parse_system_face<'a>(font_id: FontId, data: Option<&'a FontData>, faces: &SystemFaces) -> (r: Result<
    Option<FontRef<'a>>,
    String,
>)
    ensures
        !is_system_font_id_spec(font_id) ==> (r matches Err(m) && m@ == not_system_font_message(font_id)),
        is_system_font_id_spec(font_id) && data is None ==> r matches Ok(None),
        is_system_font_id_spec(font_id) && data is Some ==> {
            &&& r is Ok <==> font_parses(data->0@, font_face_index_spec(font_id, *faces))
            &&& r is Ok ==> r->Ok_0 is Some
            &&& r matches Err(m) ==> m@ == parse_failure_message(font_id)
        },
{
    if !is_system_font_id(font_id) {
        let mut m = String::new();
        m.append(font_id.as_str());
        m.append(" is not a system fallback font");
        return Err(m);
    }
    let data = match data {
        Some(d) => d,
        None => {
            return Ok(None);
        },
    };
    let index = font_face_index(font_id, faces);
    match font_ref_from_slice(data.as_slice(), index) {
        Ok(font) => Ok(Some(font)),
        Err(_) => {
            let mut m = String::new();
            m.append("Failed to parse font ");
            m.append(font_id.as_str());
            m.append(": InvalidFont");
            Err(m)
        },
    }
}

/// Load one system fallback after a glyph lookup missed. A KaTeX face is an
/// error; `Ok(None)` when the system font is unavailable; otherwise a set
/// that holds it (as raw bytes: system faces are never parsed here).
pub fn load_system_font_parsed<L>(
    font_id: FontId,
    raw_cache: &mut FontCache,
    parsed_cache: &mut ParsedFontCache,
    ids: &mut OutlineSourceIds,
    faces: &SystemFaces,
    load_bytes: L,
) -> (r: Result<Option<ParsedFontSet>, String>) where L: Fn(FontId) -> Result<Option<FontStorage>, String>
    requires
        old(raw_cache).wf(),
        old(parsed_cache).wf(),
        old(ids).next() + FONT_ID_COUNT < u64::MAX,
        forall|id: FontId| load_bytes.requires((id,)),
    ensures
        final(raw_cache).wf(),
        final(parsed_cache).wf(),
        final(ids).next() >= old(ids).next(),
        !is_system_font_id_spec(font_id) ==> (r matches Err(m) && m@ == not_system_font_message(font_id)),
        !is_system_font_id_spec(font_id) ==> final(raw_cache).view_map() == old(raw_cache).view_map(),
        is_system_font_id_spec(font_id) && r is Ok ==> {
            &&& r->Ok_0 is None ==> font_unavailable(old(raw_cache).view_map(), FontSourceKeyView::Legacy, font_id, load_bytes)
            &&& r->Ok_0 matches Some(set) ==> {
                &&& set.raw_map().dom() == set![font_id]
                &&& set.parsed_map().dom() == Set::<FontId>::empty()
                &&& font_origin(old(raw_cache).view_map(), FontSourceKeyView::Legacy, font_id, set.raw_map()[font_id], load_bytes, old(ids).next())
            }
        },
        is_system_font_id_spec(font_id) && r is Err ==> exists|id: FontId| #[trigger] load_bytes.ensures((id,), Err(r->Err_0)),
        is_system_font_id_spec(font_id) && (old(raw_cache).view_map().contains_key(cache_key_spec(FontSourceKeyView::Legacy, font_id))
            || load_never_fails(load_bytes, font_id)) ==> r is Ok,
{
    if !is_system_font_id(font_id) {
        let mut m = String::new();
        m.append(font_id.as_str());
        m.append(" is not a system fallback font");
        return Err(m);
    }
    let plan = FontLoadPlan::from_sets(FontIdSet::new(), FontIdSet::single(font_id));
    // System fonts are keyed by their discovery role; the KaTeX source is not consulted.
    let source = FontSourceKey::Legacy;
    let fonts = load_fonts_for_plan_parsed(raw_cache, parsed_cache, ids, &source, faces, &plan, load_bytes);
    match fonts {
        Ok(set) => {
            if set.contains_key(&font_id) {
                proof {
                    assert(plan.required_set().union(plan.optional_set()) =~= set![font_id]);
                    assert(!set.parsed_map().contains_key(font_id)) by {
                        if set.parsed_map().contains_key(font_id) {
                            let f = choose|f: LoadedFontView| !keeps_raw(font_id, f) && f.1 == set.parsed_map()[font_id].0
                                && #[trigger] font_origin(old(raw_cache).view_map(), FontSourceKeyView::Legacy, font_id, f, load_bytes, old(ids).next());
                        }
                    }
                    assert(set.raw_map().dom() =~= set![font_id]);
                    assert(set.parsed_map().dom() =~= Set::<FontId>::empty());
                }
                Ok(Some(set))
            } else {
                proof {
                    assert(plan.required_set().union(plan.optional_set()).contains(font_id));
                }
                Ok(None)
            }
        },
        Err(m) => {
            proof {
                let ghost src = FontSourceKeyView::Legacy;
                let ghost before = old(raw_cache).view_map();
                let ghost wanted = plan.required_set().union(plan.optional_set());
                assert(wanted =~= set![font_id]);
                assert(plan.required_set() =~= Set::<FontId>::empty());
                if before.contains_key(cache_key_spec(src, font_id)) || load_never_fails(load_bytes, font_id) {
                    assert(load_succeeds(before, src, plan.required_set(), wanted, load_bytes));
                    assert forall|id: FontId, f: LoadedFontView| #[trigger] font_origin(before, src, id, f, load_bytes, old(ids).next())
                        && wanted.contains(id) && !keeps_raw(id, f) implies font_parses(f.0.1, font_face_index_spec(id, *faces)) by {
                        assert(id == font_id);
                    }
                    assert(origins_parse(before, src, wanted, load_bytes, old(ids).next(), *faces));
                }
                if !(exists|id: FontId| #[trigger] load_bytes.ensures((id,), Err(m))) {
                    if exists|id: FontId| #[trigger] plan.required_set().contains(id) && m@ == missing_font_message(id)
                        && font_unavailable(old(raw_cache).view_map(), src, id, load_bytes) {
                        let id = choose|id: FontId| #[trigger] plan.required_set().contains(id) && m@ == missing_font_message(id)
                            && font_unavailable(old(raw_cache).view_map(), src, id, load_bytes);
                        assert(plan.required_set() =~= Set::empty());
                        assert(false);
                    } else {
                        let (id, f) = choose|id: FontId, f: LoadedFontView| #[trigger] font_origin(old(raw_cache).view_map(), src, id, f, load_bytes, old(ids).next())
                            && plan.required_set().union(plan.optional_set()).contains(id) && !keeps_raw(id, f) && !font_parses(f.0.1, font_face_index_spec(id, *faces)) && m@ == parse_failure_message(id);
                        assert(false);
                    }
                }
            }
            let r: Result<Option<ParsedFontSet>, String> = Err(m);
            assert(r->Err_0 == m);
            r
        },
    }
}

// ---------------------------------------------------------------------------
// Per-render system font resolution
// ---------------------------------------------------------------------------

/// Per-render lazy cache for the CJK and emoji fallback faces. Each face is
/// resolved (discovered and parsed, by the caller's closure) only on its
/// first request, and that outcome, success or error, is reused for the rest
/// of the render.
#[derive(Debug)]
pub struct SystemFontResolver<R> {
    cjk_regular: Option<Result<Option<R>, String>>,
    emoji: Option<Result<Option<R>, String>>,
    cjk_fallback: Option<Result<Option<R>, String>>,
}

/// The outcome a lookup hands back, read through its references.
pub open spec fn resolved_view<R>(r: Result<Option<&R>, String>) -> Result<Option<R>, String> {
    match r {
        Ok(Some(f)) => Ok(Some(*f)),
        Ok(None) => Ok(None),
        Err(e) => Err(e),
    }
}

impl<R> SystemFontResolver<R> {
    /// The recorded outcome for a system font, `None` before its first request.
    pub closed spec fn cell(self, id: FontId) -> Option<Result<Option<R>, String>> {
        match id {
            FontId::CjkRegular => self.cjk_regular,
            FontId::EmojiFallback => self.emoji,
            FontId::CjkFallback => self.cjk_fallback,
            _ => None,
        }
    }

    /// A resolver that has resolved nothing yet.
    pub fn new() -> (r: Self)
        ensures
            forall|id: FontId| r.cell(id) is None,
    {
        SystemFontResolver { cjk_regular: None, emoji: None, cjk_fallback: None }
    }

    /// The face of system font `font_id`: the outcome recorded for it, or,
    /// on its first request, the outcome of `resolve`, which is then
    /// recorded. A KaTeX face is an error and records nothing.
    pub fn get<F>(&mut self, font_id: FontId, resolve: F) -> (r: Result<Option<&R>, String>)
        where F: FnOnce(FontId) -> Result<Option<R>, String>,
        requires
            resolve.requires((font_id,)),
        ensures
            !is_system_font_id_spec(font_id) ==> (r matches Err(m) && m@ == not_system_font_message(font_id)),
            forall|id: FontId| id != font_id ==> final(self).cell(id) == old(self).cell(id),
            !is_system_font_id_spec(font_id) ==> final(self).cell(font_id) == old(self).cell(font_id),
            is_system_font_id_spec(font_id) ==> {
                &&& final(self).cell(font_id) is Some
                &&& resolved_view(r) == final(self).cell(font_id)->0
                &&& old(self).cell(font_id) is Some ==> final(self).cell(font_id) == old(self).cell(font_id)
                &&& old(self).cell(font_id) is None ==> resolve.ensures((font_id,), final(self).cell(font_id)->0)
            },
    {
        if !is_system_font_id(font_id) {
            let mut m = String::new();
            m.append(font_id.as_str());
            m.append(" is not a system fallback font");
            return Err(m);
        }
        match font_id {
            FontId::CjkRegular => {
                if self.cjk_regular.is_none() {
                    self.cjk_regular = Some(resolve(font_id));
                }
            },
            FontId::EmojiFallback => {
                if self.emoji.is_none() {
                    self.emoji = Some(resolve(font_id));
                }
            },
            _ => {
                if self.cjk_fallback.is_none() {
                    self.cjk_fallback = Some(resolve(font_id));
                }
            },
        }
        let cell = match font_id {
            FontId::CjkRegular => &self.cjk_regular,
            FontId::EmojiFallback => &self.emoji,
            _ => &self.cjk_fallback,
        };
        match cell {
            Some(Ok(Some(face))) => Ok(Some(face)),
            Some(Ok(None)) => Ok(None),
            Some(Err(e)) => Err(e.clone()),
            None => Ok(None),
        }
    }
}

} // verus!
