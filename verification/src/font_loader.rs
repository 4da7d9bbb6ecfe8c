//! Font loading policy: which fonts a display list needs, how loaded font
//! generations are identified, and the bounded raw and parsed font caches.
//!
//! Reading font files and discovering system fonts is outside work that the
//! caller hands in as closures; the caches themselves are plain values that
//! the caller keeps (typically behind one process-wide lock).

use std::sync::Arc;
use vstd::prelude::*;

use crate::font_id::{
    font_id_at, font_id_index, font_id_name, lemma_font_id_at, lemma_font_id_index,
    lemma_font_id_names_distinct, FontId,
    FONT_ID_COUNT,
};
use crate::text::str_eq;
use crate::unicode_font::{share_arc, FontData};

verus! {

/// Owned font byte buffer of the public API.
pub type FontBytes = Arc<Vec<u8>>;

// ---------------------------------------------------------------------------
// Sets of font identifiers
// ---------------------------------------------------------------------------

/// A set of font identifiers.
#[derive(Debug)]
pub struct FontIdSet {
    flags: Vec<bool>,
}

impl View for FontIdSet {
    type V = Set<FontId>;

    closed spec fn view(&self) -> Set<FontId> {
        Set::new(|id: FontId| self.flags@[font_id_index(id)])
    }
}

impl FontIdSet {
    #[verifier::type_invariant]
    spec fn wf(self) -> bool {
        self.flags@.len() == FONT_ID_COUNT
    }

    /// The empty set.
    pub fn new() -> (r: Self)
        ensures
            r@ == Set::<FontId>::empty(),
    {
        let mut flags: Vec<bool> = Vec::new();
        let mut i: usize = 0;
        while i < FONT_ID_COUNT
            invariant
                i <= FONT_ID_COUNT,
                flags@.len() == i,
                forall|j: int| 0 <= j < i ==> !flags@[j],
            decreases FONT_ID_COUNT - i,
        {
            flags.push(false);
            i = i + 1;
        }
        let r = FontIdSet { flags };
        assert(r@ =~= Set::<FontId>::empty()) by {
            assert forall|id: FontId| !r@.contains(id) by {
                lemma_font_id_index(id);
            }
        }
        r
    }

    /// The set holding exactly `id`.
    pub fn single(id: FontId) -> (r: Self)
        ensures
            r@ == Set::<FontId>::empty().insert(id),
    {
        let mut s = FontIdSet::new();
        s.insert(id);
        s
    }

    pub fn contains(&self, id: &FontId) -> (r: bool)
        ensures
            r == self@.contains(*id),
    {
        proof {
            use_type_invariant(self);
        }
        self.flags[id.index()]
    }

    /// Whether the set has no members.
    pub fn is_empty(&self) -> (r: bool)
        ensures
            r == (self@ == Set::<FontId>::empty()),
    {
        proof {
            use_type_invariant(self);
        }
        let mut i: usize = 0;
        while i < FONT_ID_COUNT
            invariant
                i <= FONT_ID_COUNT,
                self.flags@.len() == FONT_ID_COUNT,
                forall|j: int| 0 <= j < i ==> !self.flags@[j],
            decreases FONT_ID_COUNT - i,
        {
            if self.flags[i] {
                proof {
                    lemma_font_id_at(i as int);
                    assert(self@.contains(font_id_at(i as int)));
                }
                return false;
            }
            i = i + 1;
        }
        assert(self@ =~= Set::<FontId>::empty()) by {
            assert forall|id: FontId| !self@.contains(id) by {
                lemma_font_id_index(id);
            }
        }
        true
    }

    pub fn insert(&mut self, id: FontId)
        ensures
            final(self)@ == old(self)@.insert(id),
    {
        proof {
            use_type_invariant(&*self);
        }
        let i = id.index();
        let mut flags = self.flags.clone();
        assert(flags@ =~= self.flags@);
        flags.set(i, true);
        self.flags = flags;
        assert(self@ =~= old(self)@.insert(id)) by {
            assert forall|x: FontId| self@.contains(x) == old(self)@.insert(id).contains(x) by {
                lemma_font_id_index(x);
                lemma_font_id_index(id);
            }
        }
    }

    /// Members of both sets together.
    pub fn union(&self, other: &FontIdSet) -> (r: Self)
        ensures
            r@ == self@.union(other@),
    {
        proof {
            use_type_invariant(self);
            use_type_invariant(other);
        }
        let mut flags: Vec<bool> = Vec::new();
        let mut i: usize = 0;
        while i < FONT_ID_COUNT
            invariant
                i <= FONT_ID_COUNT,
                self.flags@.len() == FONT_ID_COUNT,
                other.flags@.len() == FONT_ID_COUNT,
                flags@.len() == i,
                forall|j: int| 0 <= j < i ==> flags@[j] == (self.flags@[j] || other.flags@[j]),
            decreases FONT_ID_COUNT - i,
        {
            flags.push(self.flags[i] || other.flags[i]);
            i = i + 1;
        }
        let r = FontIdSet { flags };
        assert(r@ =~= self@.union(other@)) by {
            assert forall|x: FontId| r@.contains(x) == self@.union(other@).contains(x) by {
                lemma_font_id_index(x);
            }
        }
        r
    }

    /// The members, in the enumeration order of [`FontId`].
    pub fn to_vec(&self) -> (r: Vec<FontId>)
        ensures
            r@.to_set() == self@,
            r@.no_duplicates(),
            r@.len() <= FONT_ID_COUNT,
            forall|i: int, j: int|
                0 <= i < j < r@.len() ==> font_id_index(r@[i]) < font_id_index(r@[j]),
    {
        proof {
            use_type_invariant(self);
        }
        let mut out: Vec<FontId> = Vec::new();
        let mut i: usize = 0;
        while i < FONT_ID_COUNT
            invariant
                i <= FONT_ID_COUNT,
                out@.len() <= i,
                self.flags@.len() == FONT_ID_COUNT,
                forall|k: int| 0 <= k < out@.len() ==> font_id_index(#[trigger] out@[k]) < i,
                forall|k: int| 0 <= k < out@.len() ==> self@.contains(#[trigger] out@[k]),
                forall|a: int, b: int|
                    0 <= a < b < out@.len() ==> font_id_index(out@[a]) < font_id_index(out@[b]),
                forall|id: FontId|
                    font_id_index(id) < i && #[trigger] self@.contains(id) ==> out@.contains(id),
            decreases FONT_ID_COUNT - i,
        {
            if self.flags[i] {
                let id = FontId::from_index(i);
                proof {
                    lemma_font_id_at(i as int);
                }
                let ghost old_out = out@;
                out.push(id);
                assert forall|x: FontId|
                    font_id_index(x) < i + 1 && #[trigger] self@.contains(x) implies out@.contains(
                    x,
                ) by {
                    lemma_font_id_index(x);
                    if font_id_index(x) == i {
                        assert(out@[out@.len() - 1] == x);
                    } else {
                        assert(old_out.contains(x));
                        let k = choose|k: int| 0 <= k < old_out.len() && old_out[k] == x;
                        assert(out@[k] == x);
                    }
                }
            } else {
                assert forall|x: FontId|
                    font_id_index(x) < i + 1 && #[trigger] self@.contains(x) implies out@.contains(
                    x,
                ) by {
                    lemma_font_id_index(x);
                }
            }
            i = i + 1;
        }
        assert(out@.to_set() =~= self@) by {
            assert forall|x: FontId| out@.to_set().contains(x) == self@.contains(x) by {
                lemma_font_id_index(x);
                if out@.contains(x) {
                    let k = choose|k: int| 0 <= k < out@.len() && out@[k] == x;
                    assert(self@.contains(out@[k]));
                }
            }
        }
        assert(out@.no_duplicates()) by {
            assert forall|a: int, b: int|
                0 <= a < out@.len() && 0 <= b < out@.len() && a != b implies out@[a] != out@[b] by {
                if a < b {
                    assert(font_id_index(out@[a]) < font_id_index(out@[b]));
                } else {
                    assert(font_id_index(out@[b]) < font_id_index(out@[a]));
                }
            }
        }
        out
    }
}

// ---------------------------------------------------------------------------
// Font generations
// ---------------------------------------------------------------------------

/// Identifies one loaded generation of a font's bytes. Outline caches key on
/// it, so a font file replaced and reloaded never reuses the old outlines.
#[derive(Clone, Copy, Debug, PartialEq, Eq, Hash, Structural)]
pub struct OutlineSourceId(u64);

impl OutlineSourceId {
    pub closed spec fn value(self) -> u64 {
        self.0
    }
}

/// Hands out generation identifiers in increasing order, starting at 1.
#[derive(Debug)]
pub struct OutlineSourceIds {
    next: u64,
}

impl OutlineSourceIds {
    /// The identifier the next call of [`OutlineSourceIds::fresh`] returns.
    pub closed spec fn next(self) -> u64 {
        self.next
    }

    pub fn new() -> (r: Self)
        ensures
            r.next() == 1,
    {
        OutlineSourceIds { next: 1 }
    }

    /// The identifier the next call of [`OutlineSourceIds::fresh`] returns.
    pub fn peek(&self) -> (r: u64)
        ensures
            r == self.next(),
    {
        self.next
    }

    /// A generation identifier never handed out before.
    pub fn fresh(&mut self) -> (r: OutlineSourceId)
        requires
            old(self).next() < u64::MAX,
        ensures
            r.value() == old(self).next(),
            final(self).next() == old(self).next() + 1,
    {
        let id = OutlineSourceId(self.next);
        self.next = self.next + 1;
        id
    }
}

/// Two identifiers handed out by two calls of `fresh` on one allocator differ:
/// the second call's identifier is larger than every earlier one.
pub proof fn law_fresh_ids_never_repeat(first: OutlineSourceId, second: OutlineSourceId, next_after_first: u64)
    requires
        first.value() < next_after_first,
        second.value() >= next_after_first,
    ensures
        first != second,
{
}

// ---------------------------------------------------------------------------
// Where font bytes come from
// ---------------------------------------------------------------------------

/// Where a font's bytes were read from: the embedded KaTeX fonts, a
/// (normalized) font directory, or one of the system discovery roles.
#[derive(Debug)]
pub enum FontSourceKey {
    Embedded,
    Directory(String),
    SystemUnicode,
    SystemFallback,
    SystemEmoji,
    /// Bucket for callers that give no source information.
    Legacy,
}

pub enum FontSourceKeyView {
    Embedded,
    Directory(Seq<char>),
    SystemUnicode,
    SystemFallback,
    SystemEmoji,
    Legacy,
}

impl View for FontSourceKey {
    type V = FontSourceKeyView;

    open spec fn view(&self) -> FontSourceKeyView {
        match self {
            FontSourceKey::Embedded => FontSourceKeyView::Embedded,
            FontSourceKey::Directory(d) => FontSourceKeyView::Directory(d@),
            FontSourceKey::SystemUnicode => FontSourceKeyView::SystemUnicode,
            FontSourceKey::SystemFallback => FontSourceKeyView::SystemFallback,
            FontSourceKey::SystemEmoji => FontSourceKeyView::SystemEmoji,
            FontSourceKey::Legacy => FontSourceKeyView::Legacy,
        }
    }
}

impl FontSourceKey {
    pub fn same_as(&self, other: &FontSourceKey) -> (r: bool)
        ensures
            r == (self@ == other@),
    {
        match (self, other) {
            (FontSourceKey::Embedded, FontSourceKey::Embedded) => true,
            (FontSourceKey::Directory(a), FontSourceKey::Directory(b)) => str_eq(a.as_str(), b.as_str()),
            (FontSourceKey::SystemUnicode, FontSourceKey::SystemUnicode) => true,
            (FontSourceKey::SystemFallback, FontSourceKey::SystemFallback) => true,
            (FontSourceKey::SystemEmoji, FontSourceKey::SystemEmoji) => true,
            (FontSourceKey::Legacy, FontSourceKey::Legacy) => true,
            _ => false,
        }
    }

    pub fn duplicate(&self) -> (r: FontSourceKey)
        ensures
            r@ == self@,
    {
        match self {
            FontSourceKey::Embedded => FontSourceKey::Embedded,
            FontSourceKey::Directory(d) => FontSourceKey::Directory(d.clone()),
            FontSourceKey::SystemUnicode => FontSourceKey::SystemUnicode,
            FontSourceKey::SystemFallback => FontSourceKey::SystemFallback,
            FontSourceKey::SystemEmoji => FontSourceKey::SystemEmoji,
            FontSourceKey::Legacy => FontSourceKey::Legacy,
        }
    }
}

/// The system fonts (CJK primary, CJK fallback, emoji) as opposed to the KaTeX faces.
pub open spec fn is_system_font_id_spec(id: FontId) -> bool {
    id == FontId::CjkRegular || id == FontId::CjkFallback || id == FontId::EmojiFallback
}

pub fn is_system_font_id(font_id: FontId) -> (r: bool)
    ensures
        r == is_system_font_id_spec(font_id),
{
    match font_id {
        FontId::CjkRegular | FontId::CjkFallback | FontId::EmojiFallback => true,
        _ => false,
    }
}

/// The source a font comes from: its discovery role for the system fonts,
/// `katex_source` for every KaTeX face.
pub open spec fn source_key_spec(katex_source: FontSourceKeyView, id: FontId) -> FontSourceKeyView {
    match id {
        FontId::CjkRegular => FontSourceKeyView::SystemUnicode,
        FontId::CjkFallback => FontSourceKeyView::SystemFallback,
        FontId::EmojiFallback => FontSourceKeyView::SystemEmoji,
        _ => katex_source,
    }
}

pub fn source_key(katex_source: &FontSourceKey, font_id: FontId) -> (r: FontSourceKey)
    ensures
        r@ == source_key_spec(katex_source@, font_id),
{
    match font_id {
        FontId::CjkRegular => FontSourceKey::SystemUnicode,
        FontId::CjkFallback => FontSourceKey::SystemFallback,
        FontId::EmojiFallback => FontSourceKey::SystemEmoji,
        _ => katex_source.duplicate(),
    }
}

/// A cache slot: one font of one source.
#[derive(Debug)]
pub struct CacheKey {
    pub source: FontSourceKey,
    pub font_id: FontId,
}

pub type CacheKeyView = (FontSourceKeyView, FontId);

impl View for CacheKey {
    type V = CacheKeyView;

    open spec fn view(&self) -> CacheKeyView {
        (self.source@, self.font_id)
    }
}

impl CacheKey {
    pub fn same_as(&self, other: &CacheKey) -> (r: bool)
        ensures
            r == (self@ == other@),
    {
        self.font_id == other.font_id && self.source.same_as(&other.source)
    }

    pub fn duplicate(&self) -> (r: CacheKey)
        ensures
            r@ == self@,
    {
        CacheKey { source: self.source.duplicate(), font_id: self.font_id }
    }
}

pub open spec fn cache_key_spec(katex_source: FontSourceKeyView, id: FontId) -> CacheKeyView {
    (source_key_spec(katex_source, id), id)
}

pub fn cache_key(katex_source: &FontSourceKey, font_id: FontId) -> (r: CacheKey)
    ensures
        r@ == cache_key_spec(katex_source@, font_id),
{
    CacheKey { source: source_key(katex_source, font_id), font_id }
}

/// Bounded table that gives each font source one generation identifier.
#[derive(Debug)]
pub struct OutlineSourceTable {
    entries: Vec<(FontSourceKey, OutlineSourceId)>,
}

/// Entry limit of the source table; a full table is cleared before a new insert.
pub const OUTLINE_SOURCE_CACHE_CAP: usize = 4096;

impl OutlineSourceTable {
    pub closed spec fn view_map(self) -> Map<FontSourceKeyView, OutlineSourceId> {
        Map::new(
            |k: FontSourceKeyView| exists|i: int| 0 <= i < self.entries@.len() && (#[trigger] self.entries@[i]).0@ == k,
            |k: FontSourceKeyView| self.entries@[choose|i: int| 0 <= i < self.entries@.len() && (#[trigger] self.entries@[i]).0@ == k].1,
        )
    }

    /// No source twice, at most the cap, and every identifier below `bound`.
    pub closed spec fn wf(self, bound: u64) -> bool {
        &&& self.entries@.len() <= OUTLINE_SOURCE_CACHE_CAP
        &&& forall|i: int, j: int| 0 <= i < j < self.entries@.len() ==> (#[trigger] self.entries@[i]).0@ != (#[trigger] self.entries@[j]).0@
        &&& forall|i: int| 0 <= i < self.entries@.len() ==> (#[trigger] self.entries@[i]).1.value() < bound
    }

    pub fn new() -> (r: Self)
        ensures
            r.wf(1),
            r.view_map() == Map::<FontSourceKeyView, OutlineSourceId>::empty(),
    {
        let r = OutlineSourceTable { entries: Vec::new() };
        assert(r.view_map() =~= Map::<FontSourceKeyView, OutlineSourceId>::empty());
        r
    }
}

/// The generation identifier of a font source: the one already recorded for
/// it, or a fresh one (clearing a full table first). Clearing cannot alias an
/// outline cached earlier, because identifiers are never handed out twice.
pub fn intern_outline_source(
    table: &mut OutlineSourceTable,
    ids: &mut OutlineSourceIds,
    source: FontSourceKey,
) -> (r: OutlineSourceId)
    requires
        old(table).wf(old(ids).next()),
        old(ids).next() < u64::MAX,
    ensures
        final(table).wf(final(ids).next()),
        final(table).view_map().contains_key(source@),
        final(table).view_map()[source@] == r,
        old(table).view_map().contains_key(source@) ==> r == old(table).view_map()[source@]
            && final(ids).next() == old(ids).next() && final(table).view_map() == old(table).view_map(),
        !old(table).view_map().contains_key(source@) ==> r.value() == old(ids).next()
            && final(ids).next() == old(ids).next() + 1,
{
    let n = table.entries.len();
    let mut i: usize = 0;
    while i < n
        invariant
            n == table.entries@.len(),
            i <= n,
            table.wf(ids.next()),
            forall|j: int| 0 <= j < i ==> (#[trigger] table.entries@[j]).0@ != source@,
        decreases n - i,
    {
        if table.entries[i].0.same_as(&source) {
            let id = table.entries[i].1;
            assert(table.view_map().contains_key(source@));
            let ghost k = choose|k: int| 0 <= k < table.entries@.len() && (#[trigger] table.entries@[k]).0@ == source@;
            assert(k == i) by {
                if k != i {
                    if k < i {
                        assert(table.entries@[k].0@ != table.entries@[i as int].0@);
                    } else {
                        assert(table.entries@[i as int].0@ != table.entries@[k].0@);
                    }
                }
            }
            return id;
        }
        i = i + 1;
    }
    assert(!table.view_map().contains_key(source@));
    if table.entries.len() >= OUTLINE_SOURCE_CACHE_CAP {
        table.entries = Vec::new();
    }
    let id = ids.fresh();
    let ghost before = table.entries@;
    table.entries.push((source, id));
    assert forall|a: int, b: int| 0 <= a < b < table.entries@.len() implies (#[trigger] table.entries@[a]).0@ != (#[trigger] table.entries@[b]).0@ by {
        if b == table.entries@.len() - 1 {
            if before.len() > 0 {
                assert(table.entries@[a] == before[a]);
            }
        } else {
            assert(table.entries@[a] == before[a]);
            assert(table.entries@[b] == before[b]);
        }
    }
    assert(table.view_map().contains_key(source@)) by {
        assert(table.entries@[table.entries@.len() - 1].0@ == source@);
    }
    let ghost k = choose|k: int| 0 <= k < table.entries@.len() && (#[trigger] table.entries@[k]).0@ == source@;
    assert(k == table.entries@.len() - 1) by {
        if k != table.entries@.len() - 1 {
            assert(table.entries@[k] == before[k]);
        }
    }
    id
}

/// The generation identifier of the bucket for callers that give no source.
pub fn legacy_outline_source_id(table: &mut OutlineSourceTable, ids: &mut OutlineSourceIds) -> (r: OutlineSourceId)
    requires
        old(table).wf(old(ids).next()),
        old(ids).next() < u64::MAX,
    ensures
        final(table).wf(final(ids).next()),
        final(table).view_map().contains_key(FontSourceKeyView::Legacy),
        final(table).view_map()[FontSourceKeyView::Legacy] == r,
        old(table).view_map().contains_key(FontSourceKeyView::Legacy) ==> r == old(table).view_map()[FontSourceKeyView::Legacy]
            && final(ids).next() == old(ids).next() && final(table).view_map() == old(table).view_map(),
        !old(table).view_map().contains_key(FontSourceKeyView::Legacy) ==> r.value() == old(ids).next()
            && final(ids).next() == old(ids).next() + 1,
{
    intern_outline_source(table, ids, FontSourceKey::Legacy)
}

/// The source of the KaTeX faces: the fonts built into the binary, or the
/// font directory (already normalized by the caller).
pub fn katex_source_key(embedded_fonts: bool, normalized_dir: String) -> (r: FontSourceKey)
    ensures
        embedded_fonts ==> r@ == FontSourceKeyView::Embedded,
        !embedded_fonts ==> r@ == FontSourceKeyView::Directory(normalized_dir@),
{
    if embedded_fonts {
        FontSourceKey::Embedded
    } else {
        FontSourceKey::Directory(normalized_dir)
    }
}

/// The file a KaTeX face is read from: `KaTeX_<name>.ttf`; the system fonts have none.
pub open spec fn katex_font_file_spec(id: FontId) -> Option<Seq<char>> {
    if is_system_font_id_spec(id) {
        None
    } else {
        Some("KaTeX_"@ + font_id_name(id) + ".ttf"@)
    }
}

pub fn katex_font_file(font_id: FontId) -> (r: Option<String>)
    ensures
        match r {
            Some(f) => katex_font_file_spec(font_id) == Some(f@),
            None => katex_font_file_spec(font_id) is None,
        },
{
    if is_system_font_id(font_id) {
        return None;
    }
    let mut f = String::new();
    f.append("KaTeX_");
    f.append(font_id.as_str());
    f.append(".ttf");
    Some(f)
}

// ---------------------------------------------------------------------------
// Loaded fonts
// ---------------------------------------------------------------------------

/// A font's bytes: owned by the cache, or a system font owned by discovery.
#[derive(Debug)]
pub enum FontStorage {
    Owned(Arc<Vec<u8>>),
    System(FontData),
}

/// `(owned by the cache?, bytes)`.
pub type FontStorageView = (bool, Seq<u8>);

impl View for FontStorage {
    type V = FontStorageView;

    open spec fn view(&self) -> FontStorageView {
        match self {
            FontStorage::Owned(b) => (true, b@),
            FontStorage::System(d) => (false, d@),
        }
    }
}

/// Bytes a cache entry retains itself: system fonts are owned by discovery and count 0.
pub open spec fn storage_cache_len(s: FontStorageView) -> nat {
    if s.0 {
        s.1.len()
    } else {
        0
    }
}

impl FontStorage {
    pub fn as_slice(&self) -> (r: &[u8])
        ensures
            r@ == self@.1,
    {
        match self {
            FontStorage::Owned(b) => b.as_slice(),
            FontStorage::System(d) => d.as_slice(),
        }
    }

    pub fn len(&self) -> (r: usize)
        ensures
            r == self@.1.len(),
    {
        self.as_slice().len()
    }

    pub fn to_vec(&self) -> (r: Vec<u8>)
        ensures
            r@ == self@.1,
    {
        vstd::slice::slice_to_vec(self.as_slice())
    }

    /// Bytes retained directly by the raw-font cache.
    pub fn cache_byte_len(&self) -> (r: usize)
        ensures
            r == storage_cache_len(self@),
    {
        match self {
            FontStorage::Owned(b) => b.len(),
            FontStorage::System(_) => 0,
        }
    }

    pub fn duplicate(&self) -> (r: FontStorage)
        ensures
            r@ == self@,
    {
        match self {
            FontStorage::Owned(b) => FontStorage::Owned(share_arc(b)),
            FontStorage::System(d) => FontStorage::System(d.clone()),
        }
    }
}

/// A font's bytes together with the generation they were loaded as.
#[derive(Debug)]
pub struct LoadedFont {
    pub bytes: FontStorage,
    pub source_id: OutlineSourceId,
}

pub type LoadedFontView = (FontStorageView, OutlineSourceId);

impl View for LoadedFont {
    type V = LoadedFontView;

    open spec fn view(&self) -> LoadedFontView {
        (self.bytes@, self.source_id)
    }
}

impl LoadedFont {
    /// Bytes just loaded: a fresh generation.
    pub fn new(bytes: FontStorage, ids: &mut OutlineSourceIds) -> (r: LoadedFont)
        requires
            old(ids).next() < u64::MAX,
        ensures
            r.bytes@ == bytes@,
            r.source_id.value() == old(ids).next(),
            final(ids).next() == old(ids).next() + 1,
    {
        LoadedFont { bytes, source_id: ids.fresh() }
    }

    pub fn duplicate(&self) -> (r: LoadedFont)
        ensures
            r@ == self@,
    {
        LoadedFont { bytes: self.bytes.duplicate(), source_id: self.source_id }
    }
}

pub open spec fn cached_font_len(entry: Option<LoadedFontView>) -> nat {
    match entry {
        Some(f) => storage_cache_len(f.0),
        None => 0,
    }
}

pub open spec fn loaded_view(f: Option<LoadedFont>) -> Option<LoadedFontView> {
    match f {
        Some(x) => Some(x@),
        None => None,
    }
}

pub fn cached_font_byte_len(entry: &Option<LoadedFont>) -> (r: usize)
    ensures
        r == cached_font_len(loaded_view(*entry)),
{
    match entry {
        Some(f) => f.bytes.cache_byte_len(),
        None => 0,
    }
}

// ---------------------------------------------------------------------------
// Font sets
// ---------------------------------------------------------------------------

/// The fonts loaded for one render, by identifier.
#[derive(Debug)]
pub struct FontSet {
    fonts: Vec<Option<LoadedFont>>,
}

impl FontSet {
    #[verifier::type_invariant]
    spec fn wf(self) -> bool {
        self.fonts@.len() == FONT_ID_COUNT
    }

    pub closed spec fn view_map(self) -> Map<FontId, LoadedFontView> {
        Map::new(
            |id: FontId| self.fonts@[font_id_index(id)] is Some,
            |id: FontId| self.fonts@[font_id_index(id)]->0@,
        )
    }

    /// No fonts.
    pub fn empty() -> (r: FontSet)
        ensures
            r.view_map() == Map::<FontId, LoadedFontView>::empty(),
    {
        let mut fonts: Vec<Option<LoadedFont>> = Vec::new();
        let mut i: usize = 0;
        while i < FONT_ID_COUNT
            invariant
                i <= FONT_ID_COUNT,
                fonts@.len() == i,
                forall|j: int| 0 <= j < i ==> fonts@[j] is None,
            decreases FONT_ID_COUNT - i,
        {
            fonts.push(None);
            i = i + 1;
        }
        let r = FontSet { fonts };
        assert(r.view_map() =~= Map::<FontId, LoadedFontView>::empty()) by {
            assert forall|id: FontId| !r.view_map().contains_key(id) by {
                lemma_font_id_index(id);
            }
        }
        r
    }

    /// The set with `font` stored under `id` (replacing what was there).
    pub fn insert(&mut self, id: FontId, font: LoadedFont)
        ensures
            final(self).view_map() == old(self).view_map().insert(id, font@),
    {
        proof {
            use_type_invariant(&*self);
        }
        let idx = id.index();
        let mut fonts: Vec<Option<LoadedFont>> = Vec::new();
        let mut slot = Some(font);
        let ghost font_view = font@;
        let mut i: usize = 0;
        while i < FONT_ID_COUNT
            invariant
                i <= FONT_ID_COUNT,
                idx < FONT_ID_COUNT,
                self.fonts@.len() == FONT_ID_COUNT,
                fonts@.len() == i,
                i <= idx ==> slot is Some && slot->0@ == font_view,
                forall|j: int| 0 <= j < i && j != idx ==> loaded_view(#[trigger] fonts@[j]) == loaded_view(self.fonts@[j]),
                i > idx ==> fonts@[idx as int] is Some && fonts@[idx as int]->0@ == font_view,
            decreases FONT_ID_COUNT - i,
        {
            if i == idx {
                let f = slot.take();
                fonts.push(f);
            } else {
                let copy = match &self.fonts[i] {
                    Some(f) => Some(f.duplicate()),
                    None => None,
                };
                fonts.push(copy);
            }
            i = i + 1;
        }
        let ghost before = self.view_map();
        self.fonts = fonts;
        assert(self.view_map() =~= before.insert(id, font_view)) by {
            assert forall|x: FontId| #[trigger] self.view_map().contains_key(x) == before.insert(id, font_view).contains_key(x) by {
                lemma_font_id_index(x);
                lemma_font_id_index(id);
                if font_id_index(x) != idx {
                    assert(loaded_view(self.fonts@[font_id_index(x)]) == loaded_view(old(self).fonts@[font_id_index(x)]));
                }
            }
            assert forall|x: FontId| #[trigger] self.view_map().contains_key(x) implies self.view_map()[x] == before.insert(id, font_view)[x] by {
                lemma_font_id_index(x);
                lemma_font_id_index(id);
                if font_id_index(x) != idx {
                    assert(loaded_view(self.fonts@[font_id_index(x)]) == loaded_view(old(self).fonts@[font_id_index(x)]));
                }
            }
        }
    }

    /// The bytes of font `id`, if loaded.
    pub fn get(&self, id: &FontId) -> (r: Option<&[u8]>)
        ensures
            r is Some <==> self.view_map().contains_key(*id),
            r matches Some(b) ==> b@ == self.view_map()[*id].0.1,
    {
        proof {
            use_type_invariant(self);
        }
        match &self.fonts[id.index()] {
            Some(f) => Some(f.bytes.as_slice()),
            None => None,
        }
    }

    /// The generation of font `id`, if loaded.
    pub fn source_id(&self, id: &FontId) -> (r: Option<OutlineSourceId>)
        ensures
            r is Some <==> self.view_map().contains_key(*id),
            r matches Some(s) ==> s == self.view_map()[*id].1,
    {
        proof {
            use_type_invariant(self);
        }
        match &self.fonts[id.index()] {
            Some(f) => Some(f.source_id),
            None => None,
        }
    }

    pub fn contains_key(&self, id: &FontId) -> (r: bool)
        ensures
            r == self.view_map().contains_key(*id),
    {
        proof {
            use_type_invariant(self);
        }
        self.fonts[id.index()].is_some()
    }

    /// The loaded fonts with their bytes and generation, in identifier order.
    pub fn iter_with_source(&self) -> (r: Vec<(FontId, &[u8], OutlineSourceId)>)
        ensures
            forall|k: int| 0 <= k < r@.len() ==> self.view_map().contains_key(#[trigger] r@[k].0)
                && r@[k].1@ == self.view_map()[r@[k].0].0.1 && r@[k].2 == self.view_map()[r@[k].0].1,
            forall|id: FontId| self.view_map().contains_key(id) ==> exists|k: int| 0 <= k < r@.len() && #[trigger] r@[k].0 == id,
            forall|a: int, b: int| 0 <= a < b < r@.len() ==> font_id_index(r@[a].0) < font_id_index(r@[b].0),
    {
        proof {
            use_type_invariant(self);
        }
        let mut out: Vec<(FontId, &[u8], OutlineSourceId)> = Vec::new();
        let mut i: usize = 0;
        while i < FONT_ID_COUNT
            invariant
                i <= FONT_ID_COUNT,
                self.fonts@.len() == FONT_ID_COUNT,
                forall|k: int| 0 <= k < out@.len() ==> font_id_index(#[trigger] out@[k].0) < i,
                forall|k: int| 0 <= k < out@.len() ==> self.view_map().contains_key(#[trigger] out@[k].0)
                    && out@[k].1@ == self.view_map()[out@[k].0].0.1 && out@[k].2 == self.view_map()[out@[k].0].1,
                forall|id: FontId| font_id_index(id) < i && #[trigger] self.view_map().contains_key(id) ==> exists|k: int| 0 <= k < out@.len() && out@[k].0 == id,
                forall|a: int, b: int| 0 <= a < b < out@.len() ==> font_id_index(out@[a].0) < font_id_index(out@[b].0),
            decreases FONT_ID_COUNT - i,
        {
            let ghost before = out@;
            match &self.fonts[i] {
                Some(f) => {
                    let id = FontId::from_index(i);
                    proof {
                        lemma_font_id_at(i as int);
                    }
                    out.push((id, f.bytes.as_slice(), f.source_id));
                    assert forall|x: FontId| font_id_index(x) < i + 1 && #[trigger] self.view_map().contains_key(x) implies exists|k: int| 0 <= k < out@.len() && out@[k].0 == x by {
                        lemma_font_id_index(x);
                        if font_id_index(x) == i {
                            assert(out@[out@.len() - 1].0 == x);
                        } else {
                            let k = choose|k: int| 0 <= k < before.len() && before[k].0 == x;
                            assert(out@[k] == before[k]);
                        }
                    }
                },
                None => {
                    assert forall|x: FontId| font_id_index(x) < i + 1 && #[trigger] self.view_map().contains_key(x) implies exists|k: int| 0 <= k < out@.len() && out@[k].0 == x by {
                        lemma_font_id_index(x);
                    }
                },
            }
            i = i + 1;
        }
        assert forall|id: FontId| self.view_map().contains_key(id) implies exists|k: int| 0 <= k < out@.len() && #[trigger] out@[k].0 == id by {
            lemma_font_id_index(id);
        }
        out
    }

    /// The loaded fonts with their bytes, in identifier order.
    pub fn iter(&self) -> (r: Vec<(FontId, &[u8])>)
        ensures
            forall|k: int| 0 <= k < r@.len() ==> self.view_map().contains_key(#[trigger] r@[k].0)
                && r@[k].1@ == self.view_map()[r@[k].0].0.1,
            forall|id: FontId| self.view_map().contains_key(id) ==> exists|k: int| 0 <= k < r@.len() && #[trigger] r@[k].0 == id,
            forall|a: int, b: int| 0 <= a < b < r@.len() ==> font_id_index(r@[a].0) < font_id_index(r@[b].0),
    {
        let all = self.iter_with_source();
        let mut out: Vec<(FontId, &[u8])> = Vec::new();
        let mut i: usize = 0;
        while i < all.len()
            invariant
                i <= all@.len(),
                out@.len() == i,
                forall|k: int| 0 <= k < i ==> (#[trigger] out@[k]).0 == all@[k].0 && out@[k].1 == all@[k].1,
            decreases all@.len() - i,
        {
            out.push((all[i].0, all[i].1));
            i = i + 1;
        }
        assert forall|id: FontId| self.view_map().contains_key(id) implies exists|k: int| 0 <= k < out@.len() && #[trigger] out@[k].0 == id by {
            let k = choose|k: int| 0 <= k < all@.len() && #[trigger] all@[k].0 == id;
            assert(out@[k].0 == id);
        }
        out
    }
}

// ---------------------------------------------------------------------------
// Load plans
// ---------------------------------------------------------------------------

/// What font planning reads of a display-list item.
#[derive(Debug)]
pub enum PlanItem {
    /// A glyph: the font name it names, its code point, and whether the
    /// KaTeX metric tables hold that character for that font.
    Glyph { font: String, char_code: u32, has_katex_metrics: bool },
    /// Lines, rectangles and paths, which need no font.
    Other,
}

/// The font a glyph item names, when the name is a known font.
pub open spec fn item_font(item: PlanItem) -> Option<FontId> {
    match item {
        PlanItem::Glyph { font, .. } => if exists|id: FontId| font_id_name(id) == font@ {
            Some(choose|id: FontId| font_id_name(id) == font@)
        } else {
            None
        },
        PlanItem::Other => None,
    }
}

/// A glyph of this font and code point may have to fall back to a system
/// Unicode font while rendering: it is drawn from a system font already, or
/// it is outside ASCII and the KaTeX metrics do not know it.
pub open spec fn may_need_fallback_spec(id: FontId, char_code: u32, has_katex_metrics: bool) -> bool {
    is_system_font_id_spec(id) || (char_code > 0x7f && !has_katex_metrics)
}

pub open spec fn item_needs_fallback(item: PlanItem) -> bool {
    match item {
        PlanItem::Glyph { char_code, has_katex_metrics, .. } => item_font(item) matches Some(id)
            && may_need_fallback_spec(id, char_code, has_katex_metrics),
        PlanItem::Other => false,
    }
}

/// The fonts the glyph items name, with `Main-Regular` always added.
pub open spec fn planned_required(items: Seq<PlanItem>) -> Set<FontId> {
    Set::new(|id: FontId| id == FontId::MainRegular || exists|i: int| 0 <= i < items.len() && item_font(#[trigger] items[i]) == Some(id))
}

/// The three system fallback fonts.
pub open spec fn system_fallback_set() -> Set<FontId> {
    Set::empty().insert(FontId::CjkRegular).insert(FontId::EmojiFallback).insert(FontId::CjkFallback)
}

/// When a glyph may need a system Unicode font at run time: a glyph drawn
/// from a system face (CJK-Regular, CJK-Fallback, Emoji-Fallback) always
/// may; a glyph of a KaTeX face never does when it is ASCII or the KaTeX
/// metrics know it, and does when it is neither.
pub proof fn law_runtime_fallback_need(id: FontId, char_code: u32, has_katex_metrics: bool)
    ensures
        id == FontId::CjkRegular || id == FontId::CjkFallback || id == FontId::EmojiFallback
            ==> may_need_fallback_spec(id, char_code, has_katex_metrics),
        !(id == FontId::CjkRegular || id == FontId::CjkFallback || id == FontId::EmojiFallback) ==> {
            &&& has_katex_metrics ==> !may_need_fallback_spec(id, char_code, has_katex_metrics)
            &&& char_code <= 0x7f ==> !may_need_fallback_spec(id, char_code, has_katex_metrics)
            &&& char_code > 0x7f && !has_katex_metrics ==> may_need_fallback_spec(id, char_code, has_katex_metrics)
        },
{
}

/// A display list whose glyphs all name KaTeX faces and are known to the
/// KaTeX metrics (or are ASCII) needs no system fallback: no item of it
/// needs one, so its eager plan has no optional fonts.
pub proof fn law_known_katex_glyphs_need_no_fallback(items: Seq<PlanItem>)
    requires
        forall|i: int| 0 <= i < items.len() ==> match #[trigger] items[i] {
            PlanItem::Glyph { char_code, has_katex_metrics, .. } => {
                &&& item_font(items[i]) != Some(FontId::CjkRegular)
                &&& item_font(items[i]) != Some(FontId::CjkFallback)
                &&& item_font(items[i]) != Some(FontId::EmojiFallback)
                &&& has_katex_metrics || char_code <= 0x7f
            },
            PlanItem::Other => true,
        },
    ensures
        !exists|i: int| 0 <= i < items.len() && item_needs_fallback(#[trigger] items[i]),
{
    assert forall|i: int| 0 <= i < items.len() implies !item_needs_fallback(#[trigger] items[i]) by {
        match items[i] {
            PlanItem::Glyph { char_code, has_katex_metrics, .. } => {
                if item_font(items[i]) is Some {
                    law_runtime_fallback_need(item_font(items[i])->0, char_code, has_katex_metrics);
                }
            },
            PlanItem::Other => {},
        }
    }
}

pub fn may_need_runtime_unicode_fallback(font_id: FontId, char_code: u32, has_katex_metrics: bool) -> (r: bool)
    ensures
        r == may_need_fallback_spec(font_id, char_code, has_katex_metrics),
{
    is_system_font_id(font_id) || (char_code > 0x7f && !has_katex_metrics)
}

/// Which fonts a render needs (`required`) and which it may use (`optional`).
#[derive(Debug)]
pub struct FontLoadPlan {
    required: FontIdSet,
    optional: FontIdSet,
}

impl FontLoadPlan {
    pub closed spec fn required_set(self) -> Set<FontId> {
        self.required@
    }

    pub closed spec fn optional_set(self) -> Set<FontId> {
        self.optional@
    }

    /// A plan from explicit sets.
    pub fn from_sets(required: FontIdSet, optional: FontIdSet) -> (r: FontLoadPlan)
        ensures
            r.required_set() == required@,
            r.optional_set() == optional@,
    {
        FontLoadPlan { required, optional }
    }

    /// The eager plan: every named font is required; when some glyph may fall
    /// back to a system Unicode font, the three system fonts are optional.
    pub fn for_display_items(items: &[PlanItem]) -> (r: FontLoadPlan)
        ensures
            r.required_set() == planned_required(items@),
            r.optional_set() == if exists|i: int| 0 <= i < items@.len() && item_needs_fallback(#[trigger] items@[i]) {
                system_fallback_set()
            } else {
                Set::<FontId>::empty()
            },
    {
        let mut required = FontIdSet::new();
        let mut optional = FontIdSet::new();
        let mut needs = false;
        let mut i: usize = 0;
        while i < items.len()
            invariant
                i <= items@.len(),
                required@ == Set::new(|id: FontId| exists|j: int| 0 <= j < i && item_font(#[trigger] items@[j]) == Some(id)),
                needs == exists|j: int| 0 <= j < i && item_needs_fallback(#[trigger] items@[j]),
                optional@ == Set::<FontId>::empty(),
            decreases items@.len() - i,
        {
            let ghost before = required@;
            match &items[i] {
                PlanItem::Glyph { font, char_code, has_katex_metrics } => {
                    let parsed = FontId::parse(font.as_str());
                    proof {
                        lemma_item_font_is_parse(items@[i as int], parsed);
                    }
                    match parsed {
                        Some(font_id) => {
                            required.insert(font_id);
                            if may_need_runtime_unicode_fallback(font_id, *char_code, *has_katex_metrics) {
                                needs = true;
                            }
                        },
                        None => {},
                    }
                },
                PlanItem::Other => {},
            }
            assert(required@ =~= Set::new(|id: FontId| exists|j: int| 0 <= j < i + 1 && item_font(#[trigger] items@[j]) == Some(id))) by {
                assert forall|id: FontId| required@.contains(id) == (exists|j: int| 0 <= j < i + 1 && item_font(#[trigger] items@[j]) == Some(id)) by {
                    if exists|j: int| 0 <= j < i + 1 && item_font(#[trigger] items@[j]) == Some(id) {
                        let j = choose|j: int| 0 <= j < i + 1 && item_font(#[trigger] items@[j]) == Some(id);
                        if j < i {
                            assert(before.contains(id));
                        }
                    }
                    if before.contains(id) {
                        let j = choose|j: int| 0 <= j < i && item_font(#[trigger] items@[j]) == Some(id);
                        assert(0 <= j < i + 1);
                    }
                }
            }
            assert(needs == exists|j: int| 0 <= j < i + 1 && item_needs_fallback(#[trigger] items@[j])) by {
                if exists|j: int| 0 <= j < i + 1 && item_needs_fallback(#[trigger] items@[j]) {
                    let j = choose|j: int| 0 <= j < i + 1 && item_needs_fallback(#[trigger] items@[j]);
                    if j < i {
                        assert(exists|k: int| 0 <= k < i && item_needs_fallback(#[trigger] items@[k]));
                    }
                }
            }
            i = i + 1;
        }
        required.insert(FontId::MainRegular);
        if needs {
            optional.insert(FontId::CjkRegular);
            optional.insert(FontId::EmojiFallback);
            optional.insert(FontId::CjkFallback);
        }
        assert(required@ =~= planned_required(items@));
        let r = FontLoadPlan { required, optional };
        r
    }

    /// The lazy plan of the built-in renderers: the named fonts are required
    /// and nothing is optional; system fallbacks are loaded only on a miss.
    pub fn for_display_items_lazy(items: &[PlanItem]) -> (r: FontLoadPlan)
        ensures
            r.required_set() == planned_required(items@),
            r.optional_set() == Set::<FontId>::empty(),
    {
        let eager = FontLoadPlan::for_display_items(items);
        FontLoadPlan { required: eager.required, optional: FontIdSet::new() }
    }

    pub fn required(&self) -> (r: &FontIdSet)
        ensures
            r@ == self.required_set(),
    {
        &self.required
    }

    pub fn optional(&self) -> (r: &FontIdSet)
        ensures
            r@ == self.optional_set(),
    {
        &self.optional
    }

    /// Required and optional fonts together.
    pub fn all(&self) -> (r: FontIdSet)
        ensures
            r@ == self.required_set().union(self.optional_set()),
    {
        self.required.union(&self.optional)
    }
}

proof fn lemma_item_font_is_parse(item: PlanItem, parsed: Option<FontId>)
    requires
        item matches PlanItem::Glyph { font, .. } && (parsed matches Some(id) ==> font_id_name(id) == font@) && (parsed is None ==> forall|id: FontId| font_id_name(id) != font@),
    ensures
        item_font(item) == parsed,
{
    if let PlanItem::Glyph { font, .. } = item {
        if let Some(id) = parsed {
            let c = choose|x: FontId| font_id_name(x) == font@;
            lemma_font_id_names_distinct(c, id);
        }
    }
}

// ---------------------------------------------------------------------------
// The raw font cache
// ---------------------------------------------------------------------------

/// Entry limit of the raw font cache.
pub const FONT_CACHE_CAP: usize = 4096;
/// Byte budget of the raw font cache (owned buffers only): 32 MiB.
pub const FONT_CACHE_BYTE_CAP: usize = 33554432;

/// Cached raw fonts by source and identifier; `None` records a font that
/// is known to be unavailable. `bytes` counts the owned bytes retained.
#[derive(Debug)]
pub struct FontCache {
    entries: Vec<(CacheKey, Option<LoadedFont>)>,
    bytes: usize,
}

pub open spec fn entry_len(e: (CacheKey, Option<LoadedFont>)) -> nat {
    cached_font_len(loaded_view(e.1))
}

/// Bytes retained by a list of cache entries.
pub open spec fn entries_bytes(s: Seq<(CacheKey, Option<LoadedFont>)>) -> nat
    decreases s.len(),
{
    if s.len() == 0 {
        0
    } else {
        entries_bytes(s.drop_last()) + entry_len(s.last())
    }
}

proof fn lemma_entries_bytes_push(s: Seq<(CacheKey, Option<LoadedFont>)>, e: (CacheKey, Option<LoadedFont>))
    ensures
        entries_bytes(s.push(e)) == entries_bytes(s) + entry_len(e),
{
    assert(s.push(e).drop_last() =~= s);
}

proof fn lemma_entries_bytes_remove(s: Seq<(CacheKey, Option<LoadedFont>)>, i: int)
    requires
        0 <= i < s.len(),
    ensures
        entries_bytes(s.remove(i)) + entry_len(s[i]) == entries_bytes(s),
    decreases s.len(),
{
    if i == s.len() - 1 {
        assert(s.remove(i) =~= s.drop_last());
    } else {
        lemma_entries_bytes_remove(s.drop_last(), i);
        assert(s.remove(i) =~= s.drop_last().remove(i).push(s.last()));
        lemma_entries_bytes_push(s.drop_last().remove(i), s.last());
    }
}

impl FontCache {
    /// The cached entries by key.
    pub closed spec fn view_map(self) -> Map<CacheKeyView, Option<LoadedFontView>> {
        Map::new(
            |k: CacheKeyView| exists|i: int| 0 <= i < self.entries@.len() && (#[trigger] self.entries@[i]).0@ == k,
            |k: CacheKeyView| loaded_view(self.entries@[choose|i: int| 0 <= i < self.entries@.len() && (#[trigger] self.entries@[i]).0@ == k].1),
        )
    }

    /// Number of entries.
    pub closed spec fn entry_count(self) -> nat {
        self.entries@.len()
    }

    /// Owned bytes retained.
    pub closed spec fn byte_count(self) -> nat {
        self.bytes as nat
    }

    /// Keys are unique and the byte count is the sum of the entries' owned bytes.
    pub closed spec fn wf(self) -> bool {
        &&& forall|i: int, j: int| 0 <= i < j < self.entries@.len() ==> (#[trigger] self.entries@[i]).0@ != (#[trigger] self.entries@[j]).0@
        &&& self.bytes == entries_bytes(self.entries@)
    }

    pub fn new() -> (r: Self)
        ensures
            r.wf(),
            r.view_map() == Map::<CacheKeyView, Option<LoadedFontView>>::empty(),
            r.entry_count() == 0,
            r.byte_count() == 0,
    {
        let r = FontCache { entries: Vec::new(), bytes: 0 };
        assert(r.view_map() =~= Map::<CacheKeyView, Option<LoadedFontView>>::empty());
        r
    }

    /// Number of entries.
    pub fn len(&self) -> (r: usize)
        ensures
            r == self.entry_count(),
    {
        self.entries.len()
    }

    /// Owned bytes retained.
    pub fn bytes(&self) -> (r: usize)
        ensures
            r == self.byte_count(),
    {
        self.bytes
    }

    /// Position of `key`, if cached.
    fn find(&self, key: &CacheKey) -> (r: Option<usize>)
        requires
            self.wf(),
        ensures
            r is Some <==> self.view_map().contains_key(key@),
            r matches Some(i) ==> i < self.entries@.len() && self.entries@[i as int].0@ == key@
                && self.view_map()[key@] == loaded_view(self.entries@[i as int].1),
    {
        let n = self.entries.len();
        let mut i: usize = 0;
        while i < n
            invariant
                n == self.entries@.len(),
                i <= n,
                self.wf(),
                forall|j: int| 0 <= j < i ==> (#[trigger] self.entries@[j]).0@ != key@,
            decreases n - i,
        {
            if self.entries[i].0.same_as(key) {
                assert(self.view_map().contains_key(key@));
                let ghost k = choose|k: int| 0 <= k < self.entries@.len() && (#[trigger] self.entries@[k]).0@ == key@;
                assert(k == i) by {
                    if k != i {
                        if k < i {
                            assert(self.entries@[k].0@ != self.entries@[i as int].0@);
                        } else {
                            assert(self.entries@[i as int].0@ != self.entries@[k].0@);
                        }
                    }
                }
                return Some(i);
            }
            i = i + 1;
        }
        None
    }

    /// The cached entry for `key`: `None` when the key is not cached.
    pub fn get(&self, key: &CacheKey) -> (r: Option<Option<LoadedFont>>)
        requires
            self.wf(),
        ensures
            r is Some <==> self.view_map().contains_key(key@),
            r matches Some(e) ==> loaded_view(e) == self.view_map()[key@],
    {
        match self.find(key) {
            Some(i) => Some(match &self.entries[i].1 {
                Some(f) => Some(f.duplicate()),
                None => None,
            }),
            None => None,
        }
    }

    pub fn contains_key(&self, key: &CacheKey) -> (r: bool)
        requires
            self.wf(),
        ensures
            r == self.view_map().contains_key(key@),
    {
        self.find(key).is_some()
    }

    /// Drop the entry for `key`, if any, releasing its bytes.
    pub fn remove(&mut self, key: &CacheKey)
        requires
            old(self).wf(),
        ensures
            final(self).wf(),
            final(self).view_map() == old(self).view_map().remove(key@),
            final(self).entry_count() == old(self).entry_count() - if old(self).view_map().contains_key(key@) { 1int } else { 0int },
            final(self).byte_count() == old(self).byte_count() - if old(self).view_map().contains_key(key@) { cached_font_len(old(self).view_map()[key@]) as int } else { 0int },
    {
        match self.find(key) {
            Some(i) => {
                let ghost before = self.entries@;
                proof {
                    lemma_entries_bytes_remove(before, i as int);
                }
                let removed = self.entries.remove(i);
                self.bytes = self.bytes - cached_font_byte_len(&removed.1);
                assert(self.entries@ =~= before.remove(i as int));
                assert forall|a: int, b: int| 0 <= a < b < self.entries@.len() implies (#[trigger] self.entries@[a]).0@ != (#[trigger] self.entries@[b]).0@ by {
                    let a2 = if a < i { a } else { a + 1 };
                    let b2 = if b < i { b } else { b + 1 };
                    assert(self.entries@[a] == before[a2]);
                    assert(self.entries@[b] == before[b2]);
                }
                assert(self.view_map() =~= old(self).view_map().remove(key@)) by {
                    assert forall|k: CacheKeyView| #[trigger] self.view_map().contains_key(k) == old(self).view_map().remove(key@).contains_key(k) by {
                        if self.view_map().contains_key(k) {
                            let j = choose|j: int| 0 <= j < self.entries@.len() && (#[trigger] self.entries@[j]).0@ == k;
                            let j2 = if j < i { j } else { j + 1 };
                            assert(self.entries@[j] == before[j2]);
                        }
                        if old(self).view_map().remove(key@).contains_key(k) {
                            let j = choose|j: int| 0 <= j < before.len() && (#[trigger] before[j]).0@ == k;
                            assert(j != i);
                            let j2 = if j < i { j } else { j - 1 };
                            assert(self.entries@[j2] == before[j]);
                        }
                    }
                    assert forall|k: CacheKeyView| #[trigger] self.view_map().contains_key(k) implies self.view_map()[k] == old(self).view_map().remove(key@)[k] by {
                        let j = choose|j: int| 0 <= j < self.entries@.len() && (#[trigger] self.entries@[j]).0@ == k;
                        let j2 = if j < i { j } else { j + 1 };
                        assert(self.entries@[j] == before[j2]);
                        let j3 = choose|j3: int| 0 <= j3 < before.len() && (#[trigger] before[j3]).0@ == k;
                        assert(j3 == j2) by {
                            if j3 != j2 {
                                if j3 < j2 {
                                    assert(before[j3].0@ != before[j2].0@);
                                } else {
                                    assert(before[j2].0@ != before[j3].0@);
                                }
                            }
                        }
                    }
                }
            },
            None => {
                assert(self.view_map() =~= old(self).view_map().remove(key@));
            },
        }
    }

    fn clear(&mut self)
        ensures
            final(self).wf(),
            final(self).view_map() == Map::<CacheKeyView, Option<LoadedFontView>>::empty(),
            final(self).entry_count() == 0,
            final(self).byte_count() == 0,
    {
        self.entries = Vec::new();
        self.bytes = 0;
        assert(self.view_map() =~= Map::<CacheKeyView, Option<LoadedFontView>>::empty());
    }

    /// Append an entry for a key that is not cached.
    fn push_new(&mut self, key: CacheKey, entry: Option<LoadedFont>)
        requires
            old(self).wf(),
            !old(self).view_map().contains_key(key@),
            old(self).bytes + cached_font_len(loaded_view(entry)) <= usize::MAX,
        ensures
            final(self).wf(),
            final(self).view_map() == old(self).view_map().insert(key@, loaded_view(entry)),
            final(self).entry_count() == old(self).entry_count() + 1,
            final(self).byte_count() == old(self).byte_count() + cached_font_len(loaded_view(entry)),
    {
        let ghost before = self.entries@;
        let ghost k = key@;
        let ghost ev = loaded_view(entry);
        let n = cached_font_byte_len(&entry);
        proof {
            lemma_entries_bytes_push(before, (key, entry));
        }
        self.entries.push((key, entry));
        self.bytes = self.bytes + n;
        assert forall|a: int, b: int| 0 <= a < b < self.entries@.len() implies (#[trigger] self.entries@[a]).0@ != (#[trigger] self.entries@[b]).0@ by {
            assert(self.entries@[a] == before[a]);
            if b < before.len() {
                assert(self.entries@[b] == before[b]);
            } else {
                assert(!old(self).view_map().contains_key(k));
                if before[a].0@ == k {
                    assert(old(self).view_map().contains_key(k));
                }
            }
        }
        assert(self.view_map() =~= old(self).view_map().insert(k, ev)) by {
            let last = self.entries@.len() - 1;
            assert(self.entries@[last].0@ == k);
            assert forall|x: CacheKeyView| #[trigger] self.view_map().contains_key(x) == old(self).view_map().insert(k, ev).contains_key(x) by {
                if self.view_map().contains_key(x) && x != k {
                    let j = choose|j: int| 0 <= j < self.entries@.len() && (#[trigger] self.entries@[j]).0@ == x;
                    assert(j != last);
                    assert(self.entries@[j] == before[j]);
                }
                if old(self).view_map().contains_key(x) {
                    let j = choose|j: int| 0 <= j < before.len() && (#[trigger] before[j]).0@ == x;
                    assert(self.entries@[j] == before[j]);
                }
            }
            assert forall|x: CacheKeyView| #[trigger] self.view_map().contains_key(x) implies self.view_map()[x] == old(self).view_map().insert(k, ev)[x] by {
                let j = choose|j: int| 0 <= j < self.entries@.len() && (#[trigger] self.entries@[j]).0@ == x;
                if x == k {
                    assert(j == last) by {
                        if j != last {
                            assert(self.entries@[j].0@ != self.entries@[last].0@);
                        }
                    }
                } else {
                    assert(j != last);
                    assert(self.entries@[j] == before[j]);
                    let j3 = choose|j3: int| 0 <= j3 < before.len() && (#[trigger] before[j3]).0@ == x;
                    assert(j3 == j) by {
                        if j3 != j {
                            if j3 < j {
                                assert(before[j3].0@ != before[j].0@);
                            } else {
                                assert(before[j].0@ != before[j3].0@);
                            }
                        }
                    }
                }
            }
        }
    }
}

/// Whether storing an entry of `entry_bytes` owned bytes clears the cache
/// first: it does when, after dropping the key's previous entry, the cache
/// holds `entry_cap` entries or the bytes would exceed `byte_cap`.
pub open spec fn insert_clears(
    cache: FontCache,
    key: CacheKeyView,
    entry_bytes: nat,
    entry_cap: nat,
    byte_cap: nat,
) -> bool {
    let had = cache.view_map().contains_key(key);
    let count = cache.entry_count() - if had { 1int } else { 0int };
    let bytes = cache.byte_count() - if had { cached_font_len(cache.view_map()[key]) as int } else { 0int };
    count >= entry_cap || bytes + entry_bytes > byte_cap
}

/// Store a raw font cache entry while enforcing both limits. An entry larger
/// than the whole byte budget is not stored at all (the cache is left as it
/// was); otherwise the key's previous entry is replaced, and the cache is
/// cleared first when the entry or byte limit would be exceeded.
pub fn insert_font_cache_entry_with_limits(
    cache: &mut FontCache,
    key: CacheKey,
    entry: Option<LoadedFont>,
    entry_cap: usize,
    byte_cap: usize,
)
    requires
        old(cache).wf(),
    ensures
        final(cache).wf(),
        cached_font_len(loaded_view(entry)) > byte_cap ==> final(cache).view_map() == old(cache).view_map()
            && final(cache).byte_count() == old(cache).byte_count() && final(cache).entry_count() == old(cache).entry_count(),
        cached_font_len(loaded_view(entry)) <= byte_cap ==> {
            &&& final(cache).view_map() == if insert_clears(*old(cache), key@, cached_font_len(loaded_view(entry)), entry_cap as nat, byte_cap as nat) {
                Map::<CacheKeyView, Option<LoadedFontView>>::empty().insert(key@, loaded_view(entry))
            } else {
                old(cache).view_map().insert(key@, loaded_view(entry))
            }
            &&& final(cache).byte_count() <= byte_cap
            &&& final(cache).byte_count() == if insert_clears(*old(cache), key@, cached_font_len(loaded_view(entry)), entry_cap as nat, byte_cap as nat) {
                cached_font_len(loaded_view(entry)) as int
            } else {
                old(cache).byte_count() - (if old(cache).view_map().contains_key(key@) { cached_font_len(old(cache).view_map()[key@]) as int } else { 0int })
                    + cached_font_len(loaded_view(entry))
            }
            &&& final(cache).entry_count() == if insert_clears(*old(cache), key@, cached_font_len(loaded_view(entry)), entry_cap as nat, byte_cap as nat) {
                1int
            } else {
                old(cache).entry_count() - (if old(cache).view_map().contains_key(key@) { 1int } else { 0int }) + 1
            }
            &&& entry_cap >= 1 ==> final(cache).entry_count() <= entry_cap
        },
{
    let entry_bytes = cached_font_byte_len(&entry);
    if entry_bytes > byte_cap {
        return;
    }
    let ghost k = key@;
    let ghost ev = loaded_view(entry);
    cache.remove(&key);
    assert(cache.entries@.len() == cache.entry_count());
    let over_budget = match cache.bytes.checked_add(entry_bytes) {
        Some(total) => total > byte_cap,
        None => true,
    };
    if cache.entries.len() >= entry_cap || over_budget {
        cache.clear();
    }
    assert(cache.view_map().remove(k) =~= cache.view_map());
    cache.push_new(key, entry);
    assert(old(cache).view_map().remove(k).insert(k, ev) =~= old(cache).view_map().insert(k, ev));
    assert(Map::<CacheKeyView, Option<LoadedFontView>>::empty().remove(k).insert(k, ev) =~= Map::<CacheKeyView, Option<LoadedFontView>>::empty().insert(k, ev));
}

/// What a lookup gives back of a store: once an entry within the byte
/// budget is stored, its key holds exactly that entry, and every other key
/// keeps its entry unless the store had to clear the cache.
pub proof fn law_font_cache_read_after_write(
    before: FontCache,
    after: FontCache,
    key: CacheKeyView,
    entry: Option<LoadedFontView>,
    other: CacheKeyView,
    entry_cap: nat,
    byte_cap: nat,
)
    requires
        cached_font_len(entry) <= byte_cap,
        after.view_map() == if insert_clears(before, key, cached_font_len(entry), entry_cap, byte_cap) {
            Map::<CacheKeyView, Option<LoadedFontView>>::empty().insert(key, entry)
        } else {
            before.view_map().insert(key, entry)
        },
    ensures
        after.view_map().contains_key(key),
        after.view_map()[key] == entry,
        other != key && before.view_map().contains_key(other) && !insert_clears(before, key, cached_font_len(entry), entry_cap, byte_cap)
            ==> after.view_map().contains_key(other) && after.view_map()[other] == before.view_map()[other],
{
}

/// [`insert_font_cache_entry_with_limits`] with the cache's own limits.
pub fn insert_font_cache_entry(cache: &mut FontCache, key: CacheKey, entry: Option<LoadedFont>)
    requires
        old(cache).wf(),
    ensures
        final(cache).wf(),
        cached_font_len(loaded_view(entry)) > FONT_CACHE_BYTE_CAP ==> final(cache).view_map() == old(cache).view_map()
            && final(cache).byte_count() == old(cache).byte_count() && final(cache).entry_count() == old(cache).entry_count(),
        cached_font_len(loaded_view(entry)) <= FONT_CACHE_BYTE_CAP ==> {
            &&& final(cache).view_map() == if insert_clears(*old(cache), key@, cached_font_len(loaded_view(entry)), FONT_CACHE_CAP as nat, FONT_CACHE_BYTE_CAP as nat) {
                Map::<CacheKeyView, Option<LoadedFontView>>::empty().insert(key@, loaded_view(entry))
            } else {
                old(cache).view_map().insert(key@, loaded_view(entry))
            }
            &&& final(cache).byte_count() <= FONT_CACHE_BYTE_CAP
            &&& final(cache).byte_count() == if insert_clears(*old(cache), key@, cached_font_len(loaded_view(entry)), FONT_CACHE_CAP as nat, FONT_CACHE_BYTE_CAP as nat) {
                cached_font_len(loaded_view(entry)) as int
            } else {
                old(cache).byte_count() - (if old(cache).view_map().contains_key(key@) { cached_font_len(old(cache).view_map()[key@]) as int } else { 0int })
                    + cached_font_len(loaded_view(entry))
            }
            &&& final(cache).entry_count() == if insert_clears(*old(cache), key@, cached_font_len(loaded_view(entry)), FONT_CACHE_CAP as nat, FONT_CACHE_BYTE_CAP as nat) {
                1int
            } else {
                old(cache).entry_count() - (if old(cache).view_map().contains_key(key@) { 1int } else { 0int }) + 1
            }
            &&& final(cache).entry_count() <= FONT_CACHE_CAP
        },
{
    insert_font_cache_entry_with_limits(cache, key, entry, FONT_CACHE_CAP, FONT_CACHE_BYTE_CAP);
}

/// Drop the cache entry of `key`, if any.
pub fn remove_font_cache_entry(cache: &mut FontCache, key: &CacheKey)
    requires
        old(cache).wf(),
    ensures
        final(cache).wf(),
        final(cache).view_map() == old(cache).view_map().remove(key@),
{
    cache.remove(key);
}

/// `out` after collecting the cached fonts of `wanted`: each wanted font whose
/// key holds a font in `cache` is stored; everything else is left as it was.
pub open spec fn collected(
    out: Map<FontId, LoadedFontView>,
    katex_source: FontSourceKeyView,
    wanted: Set<FontId>,
    cache: Map<CacheKeyView, Option<LoadedFontView>>,
) -> Map<FontId, LoadedFontView> {
    Map::new(
        |id: FontId| out.contains_key(id) || (wanted.contains(id) && cache.contains_key(cache_key_spec(katex_source, id)) && cache[cache_key_spec(katex_source, id)] is Some),
        |id: FontId| if wanted.contains(id) && cache.contains_key(cache_key_spec(katex_source, id)) && cache[cache_key_spec(katex_source, id)] is Some {
            cache[cache_key_spec(katex_source, id)]->0
        } else {
            out[id]
        },
    )
}

/// Copy the cached fonts of `wanted` into `out`. Returns whether every wanted
/// font is known to the cache (loaded or known to be unavailable).
pub fn collect_cached(
    katex_source: &FontSourceKey,
    wanted: &FontIdSet,
    cache: &FontCache,
    out: &mut FontSet,
) -> (r: bool)
    requires
        cache.wf(),
    ensures
        r == forall|id: FontId| wanted@.contains(id) ==> cache.view_map().contains_key(cache_key_spec(katex_source@, id)),
        final(out).view_map() == collected(old(out).view_map(), katex_source@, wanted@, cache.view_map()),
{
    let list = wanted.to_vec();
    let mut all_known = true;
    let mut i: usize = 0;
    while i < list.len()
        invariant
            cache.wf(),
            i <= list@.len(),
            list@.to_set() == wanted@,
            list@.no_duplicates(),
            all_known == forall|j: int| 0 <= j < i ==> cache.view_map().contains_key(cache_key_spec(katex_source@, #[trigger] list@[j])),
            out.view_map() == collected(old(out).view_map(), katex_source@, list@.subrange(0, i as int).to_set(), cache.view_map()),
        decreases list@.len() - i,
    {
        let id = list[i];
        let key = cache_key(katex_source, id);
        let ghost before = out.view_map();
        let ghost done = list@.subrange(0, i as int).to_set();
        let ghost next = list@.subrange(0, i + 1).to_set();
        assert(next =~= done.insert(id)) by {
            assert(list@.subrange(0, i + 1) =~= list@.subrange(0, i as int).push(id));
            list@.subrange(0, i as int).lemma_push_to_set_commute(id);
        }
        assert(!done.contains(id)) by {
            if done.contains(id) {
                let j = choose|j: int| 0 <= j < i && list@.subrange(0, i as int)[j] == id;
                assert(list@[j] == list@[i as int]);
            }
        }
        match cache.get(&key) {
            Some(Some(font)) => {
                out.insert(id, font);
            },
            Some(None) => {},
            None => {
                all_known = false;
            },
        }
        assert(out.view_map() =~= collected(old(out).view_map(), katex_source@, next, cache.view_map()));
        i = i + 1;
    }
    assert(list@.subrange(0, list@.len() as int) =~= list@);
    proof {
        if all_known {
            assert forall|id: FontId| wanted@.contains(id) implies cache.view_map().contains_key(cache_key_spec(katex_source@, id)) by {
                assert(list@.to_set().contains(id));
                let j = choose|j: int| 0 <= j < list@.len() && list@[j] == id;
                assert(cache.view_map().contains_key(cache_key_spec(katex_source@, list@[j])));
            }
        } else {
            let j = choose|j: int| 0 <= j < list@.len() && !cache.view_map().contains_key(cache_key_spec(katex_source@, #[trigger] list@[j]));
            assert(list@.to_set().contains(list@[j]));
        }
    }
    all_known
}

/// The error text for a required font that could not be loaded.
pub open spec fn missing_font_message(id: FontId) -> Seq<char> {
    "Missing required font "@ + font_id_name(id)
}

pub(crate) fn missing_font_error(id: FontId) -> (r: String)
    ensures
        r@ == missing_font_message(id),
{
    let mut m = String::new();
    m.append("Missing required font ");
    m.append(id.as_str());
    m
}

/// `Ok` exactly when every required font of `plan` is in `loaded`; otherwise
/// an error naming one that is not.
pub fn validate_required(plan: &FontLoadPlan, loaded: &FontSet) -> (r: Result<(), String>)
    ensures
        r is Ok <==> plan.required_set().subset_of(loaded.view_map().dom()),
        r matches Err(m) ==> exists|id: FontId| plan.required_set().contains(id) && !loaded.view_map().contains_key(id) && m@ == missing_font_message(id),
{
    let list = plan.required().to_vec();
    let mut i: usize = 0;
    while i < list.len()
        invariant
            i <= list@.len(),
            list@.to_set() == plan.required_set(),
            forall|j: int| 0 <= j < i ==> loaded.view_map().contains_key(#[trigger] list@[j]),
        decreases list@.len() - i,
    {
        let id = list[i];
        if !loaded.contains_key(&id) {
            assert(list@.to_set().contains(id));
            assert(!plan.required_set().subset_of(loaded.view_map().dom()));
            return Err(missing_font_error(id));
        }
        i = i + 1;
    }
    assert forall|id: FontId| plan.required_set().contains(id) implies loaded.view_map().dom().contains(id) by {
        assert(list@.to_set().contains(id));
        let j = choose|j: int| 0 <= j < list@.len() && list@[j] == id;
        assert(loaded.view_map().contains_key(list@[j]));
    }
    Ok(())
}

/// Where a font that a load returned came from: the cache as it was before
/// the load, or one call of `load_bytes` for that font made during the load,
/// tagged with a generation handed out during the load.
pub open spec fn font_origin<L: Fn(FontId) -> Result<Option<FontStorage>, String>>(
    before: Map<CacheKeyView, Option<LoadedFontView>>,
    katex_source: FontSourceKeyView,
    id: FontId,
    f: LoadedFontView,
    load_bytes: L,
    next0: u64,
) -> bool {
    ||| before.contains_key(cache_key_spec(katex_source, id)) && before[cache_key_spec(katex_source, id)] == Some(f)
    ||| exists|st: FontStorage| #[trigger] load_bytes.ensures((id,), Ok(Some(st))) && f.0 == st@ && f.1.value() >= next0
}

/// Owned bytes of the fonts of `m`, among the first `k` identifiers, whose
/// key the cache `before` did not know.
pub open spec fn new_font_bytes_upto(
    m: Map<FontId, LoadedFontView>,
    before: Map<CacheKeyView, Option<LoadedFontView>>,
    katex_source: FontSourceKeyView,
    k: int,
) -> nat
    decreases k,
{
    if k <= 0 {
        0
    } else {
        new_font_bytes_upto(m, before, katex_source, k - 1) + if m.contains_key(font_id_at(k - 1))
            && !before.contains_key(cache_key_spec(katex_source, font_id_at(k - 1))) {
            cached_font_len(Some(m[font_id_at(k - 1)]))
        } else {
            0
        }
    }
}

/// Owned bytes of the fonts of `m` whose key the cache `before` did not know.
pub open spec fn new_font_bytes(
    m: Map<FontId, LoadedFontView>,
    before: Map<CacheKeyView, Option<LoadedFontView>>,
    katex_source: FontSourceKeyView,
) -> nat {
    new_font_bytes_upto(m, before, katex_source, FONT_ID_COUNT as int)
}

proof fn lemma_new_font_bytes_upto_insert(
    m: Map<FontId, LoadedFontView>,
    before: Map<CacheKeyView, Option<LoadedFontView>>,
    katex_source: FontSourceKeyView,
    id: FontId,
    f: LoadedFontView,
    k: int,
)
    requires
        !m.contains_key(id),
        !before.contains_key(cache_key_spec(katex_source, id)),
        0 <= k <= FONT_ID_COUNT,
    ensures
        new_font_bytes_upto(m.insert(id, f), before, katex_source, k)
            == new_font_bytes_upto(m, before, katex_source, k) + if font_id_index(id) < k { cached_font_len(Some(f)) } else { 0 },
    decreases k,
{
    lemma_font_id_index(id);
    if k > 0 {
        lemma_new_font_bytes_upto_insert(m, before, katex_source, id, f, k - 1);
        lemma_font_id_at(k - 1);
    }
}

proof fn lemma_new_font_bytes_insert(
    m: Map<FontId, LoadedFontView>,
    before: Map<CacheKeyView, Option<LoadedFontView>>,
    katex_source: FontSourceKeyView,
    id: FontId,
    f: LoadedFontView,
)
    requires
        !m.contains_key(id),
        !before.contains_key(cache_key_spec(katex_source, id)),
    ensures
        new_font_bytes(m.insert(id, f), before, katex_source) == new_font_bytes(m, before, katex_source) + cached_font_len(Some(f)),
{
    lemma_font_id_index(id);
    lemma_new_font_bytes_upto_insert(m, before, katex_source, id, f, FONT_ID_COUNT as int);
}

proof fn lemma_new_font_bytes_upto_same(
    a: Map<FontId, LoadedFontView>,
    b: Map<FontId, LoadedFontView>,
    before: Map<CacheKeyView, Option<LoadedFontView>>,
    katex_source: FontSourceKeyView,
    k: int,
)
    requires
        forall|id: FontId| #![trigger a.contains_key(id)] #![trigger b.contains_key(id)]
            !before.contains_key(cache_key_spec(katex_source, id))
            ==> a.contains_key(id) == b.contains_key(id) && (a.contains_key(id) ==> a[id] == b[id]),
    ensures
        new_font_bytes_upto(a, before, katex_source, k) == new_font_bytes_upto(b, before, katex_source, k),
    decreases k,
{
    if k > 0 {
        lemma_new_font_bytes_upto_same(a, b, before, katex_source, k - 1);
        let id = font_id_at(k - 1);
        if !before.contains_key(cache_key_spec(katex_source, id)) {
            assert(a.contains_key(id) == b.contains_key(id));
        }
    }
}

proof fn lemma_new_font_bytes_upto_empty(
    before: Map<CacheKeyView, Option<LoadedFontView>>,
    katex_source: FontSourceKeyView,
    k: int,
)
    ensures
        new_font_bytes_upto(Map::empty(), before, katex_source, k) == 0,
    decreases k,
{
    if k > 0 {
        lemma_new_font_bytes_upto_empty(before, katex_source, k - 1);
    }
}

/// The new bytes of a set that holds at most font `id` are at most the
/// bytes of that font.
proof fn lemma_new_font_bytes_single(
    m: Map<FontId, LoadedFontView>,
    before: Map<CacheKeyView, Option<LoadedFontView>>,
    katex_source: FontSourceKeyView,
    id: FontId,
)
    requires
        m.dom().subset_of(set![id]),
    ensures
        new_font_bytes(m, before, katex_source) <= if m.contains_key(id) { cached_font_len(Some(m[id])) } else { 0 },
{
    lemma_new_font_bytes_upto_empty(before, katex_source, FONT_ID_COUNT as int);
    if m.contains_key(id) {
        if before.contains_key(cache_key_spec(katex_source, id)) {
            lemma_new_font_bytes_upto_same(m, Map::empty(), before, katex_source, FONT_ID_COUNT as int);
        } else {
            assert(m == Map::<FontId, LoadedFontView>::empty().insert(id, m[id]));
            lemma_new_font_bytes_insert(Map::empty(), before, katex_source, id, m[id]);
        }
    } else {
        assert(m == Map::<FontId, LoadedFontView>::empty());
    }
}

/// Room in the raw cache for one load: an entry for every identifier, and
/// `bytes` more owned bytes.
pub open spec fn font_cache_has_room(cache: FontCache, bytes: nat) -> bool {
    &&& cache.entry_count() + FONT_ID_COUNT <= FONT_CACHE_CAP
    &&& cache.byte_count() + bytes <= FONT_CACHE_BYTE_CAP
}

/// A font that a load returned for `id` was cached before under its key, or
/// carries a generation handed out before `next1`.
pub open spec fn cached_or_before(
    before: Map<CacheKeyView, Option<LoadedFontView>>,
    katex_source: FontSourceKeyView,
    id: FontId,
    f: LoadedFontView,
    next1: u64,
) -> bool {
    ||| before.contains_key(cache_key_spec(katex_source, id)) && before[cache_key_spec(katex_source, id)] == Some(f)
    ||| f.1.value() < next1
}

/// Every font cached now was cached before or was loaded during this load.
spec fn cache_origin<L: Fn(FontId) -> Result<Option<FontStorage>, String>>(
    now: Map<CacheKeyView, Option<LoadedFontView>>,
    before: Map<CacheKeyView, Option<LoadedFontView>>,
    katex_source: FontSourceKeyView,
    load_bytes: L,
    next0: u64,
) -> bool {
    forall|k: CacheKeyView| #[trigger] now.contains_key(k) && now[k] is Some ==> {
        ||| before.contains_key(k) && before[k] == now[k]
        ||| k == cache_key_spec(katex_source, k.1) && font_origin(before, katex_source, k.1, now[k]->0, load_bytes, next0)
    }
}

/// Why a wanted font is unavailable: the cache knew it to be unavailable, or
/// `load_bytes` found nothing for it.
pub open spec fn font_unavailable<L: Fn(FontId) -> Result<Option<FontStorage>, String>>(
    before: Map<CacheKeyView, Option<LoadedFontView>>,
    katex_source: FontSourceKeyView,
    id: FontId,
    load_bytes: L,
) -> bool {
    ||| before.contains_key(cache_key_spec(katex_source, id)) && before[cache_key_spec(katex_source, id)] is None
    ||| load_bytes.ensures((id,), Ok(None))
}

/// The cache holds a font (not an unavailability mark) for `id`.
pub open spec fn cached_font(cache: Map<CacheKeyView, Option<LoadedFontView>>, katex_source: FontSourceKeyView, id: FontId) -> bool {
    cache.contains_key(cache_key_spec(katex_source, id)) && cache[cache_key_spec(katex_source, id)] is Some
}

/// Every font of `wanted` is known to the cache, loaded or unavailable.
pub open spec fn all_cached(cache: Map<CacheKeyView, Option<LoadedFontView>>, katex_source: FontSourceKeyView, wanted: Set<FontId>) -> bool {
    forall|id: FontId| #[trigger] wanted.contains(id) ==> cache.contains_key(cache_key_spec(katex_source, id))
}

/// Every outcome `load_bytes` may have for `id` is `Ok`.
pub open spec fn load_never_fails<L: Fn(FontId) -> Result<Option<FontStorage>, String>>(load_bytes: L, id: FontId) -> bool {
    forall|r: Result<Option<FontStorage>, String>| #[trigger] load_bytes.ensures((id,), r) ==> r is Ok
}

/// Every outcome `load_bytes` may have for `id` is a font.
pub open spec fn load_always_finds<L: Fn(FontId) -> Result<Option<FontStorage>, String>>(load_bytes: L, id: FontId) -> bool {
    forall|r: Result<Option<FontStorage>, String>| #[trigger] load_bytes.ensures((id,), r) ==> r matches Ok(Some(_))
}

/// When a load of `wanted` succeeds whatever else happens: no read of a
/// wanted font that the cache does not know can fail, and each required font
/// is either cached or unknown to the cache and always found by `load_bytes`.
pub open spec fn load_succeeds<L: Fn(FontId) -> Result<Option<FontStorage>, String>>(
    cache: Map<CacheKeyView, Option<LoadedFontView>>,
    katex_source: FontSourceKeyView,
    required: Set<FontId>,
    wanted: Set<FontId>,
    load_bytes: L,
) -> bool {
    &&& forall|id: FontId| #[trigger] wanted.contains(id) && !cache.contains_key(cache_key_spec(katex_source, id)) ==> load_never_fails(load_bytes, id)
    &&& forall|id: FontId| #[trigger] required.contains(id) ==> cached_font(cache, katex_source, id)
        || (!cache.contains_key(cache_key_spec(katex_source, id)) && load_always_finds(load_bytes, id))
}

/// Load the fonts of `plan`, serving them from `cache` when it knows every
/// wanted font, and otherwise reading each font the cache does not know with
/// `load_bytes` (a fresh generation for each font found) and recording the
/// result in the cache. Errors from `load_bytes` are returned as they are;
/// a required font that is unavailable gives a "Missing required font" error.
pub fn load_fonts_for_plan<L>(
    cache: &mut FontCache,
    ids: &mut OutlineSourceIds,
    katex_source: &FontSourceKey,
    plan: &FontLoadPlan,
    load_bytes: L,
) -> (r: Result<FontSet, String>) where L: Fn(FontId) -> Result<Option<FontStorage>, String>
    requires
        old(cache).wf(),
        old(ids).next() + FONT_ID_COUNT < u64::MAX,
        forall|id: FontId| load_bytes.requires((id,)),
    ensures
        final(cache).wf(),
        final(ids).next() >= old(ids).next(),
        all_cached(old(cache).view_map(), katex_source@, plan.required_set().union(plan.optional_set())) ==> {
            &&& final(cache).view_map() == old(cache).view_map() && final(ids).next() == old(ids).next()
            &&& r is Ok <==> forall|id: FontId| #[trigger] plan.required_set().contains(id) ==> cached_font(old(cache).view_map(), katex_source@, id)
            &&& r matches Ok(set) ==> set.view_map() == collected(Map::empty(), katex_source@, plan.required_set().union(plan.optional_set()), old(cache).view_map())
            &&& r matches Err(m) ==> exists|id: FontId| #[trigger] plan.required_set().contains(id) && !cached_font(old(cache).view_map(), katex_source@, id)
                && m@ == missing_font_message(id)
        },
        load_succeeds(old(cache).view_map(), katex_source@, plan.required_set(), plan.required_set().union(plan.optional_set()), load_bytes) ==> r is Ok,
        r matches Ok(set) ==> {
            &&& plan.required_set().subset_of(set.view_map().dom())
            &&& set.view_map().dom().subset_of(plan.required_set().union(plan.optional_set()))
            &&& forall|id: FontId| #[trigger] set.view_map().contains_key(id) ==> font_origin(old(cache).view_map(), katex_source@, id, set.view_map()[id], load_bytes, old(ids).next())
                && cached_or_before(old(cache).view_map(), katex_source@, id, set.view_map()[id], final(ids).next())
            &&& forall|id: FontId| #[trigger] plan.required_set().union(plan.optional_set()).contains(id) && !set.view_map().contains_key(id)
                ==> font_unavailable(old(cache).view_map(), katex_source@, id, load_bytes)
            &&& font_cache_has_room(*old(cache), new_font_bytes(set.view_map(), old(cache).view_map(), katex_source@)) ==> {
                &&& all_cached(final(cache).view_map(), katex_source@, plan.required_set().union(plan.optional_set()))
                &&& forall|k: CacheKeyView| #[trigger] old(cache).view_map().contains_key(k)
                    ==> final(cache).view_map().contains_key(k) && final(cache).view_map()[k] == old(cache).view_map()[k]
            }
        },
        r matches Err(m) ==> {
            ||| exists|id: FontId| #[trigger] load_bytes.ensures((id,), Err(m))
            ||| exists|id: FontId| #[trigger] plan.required_set().contains(id) && m@ == missing_font_message(id) && font_unavailable(old(cache).view_map(), katex_source@, id, load_bytes)
        },
{
    let wanted = plan.all();
    let ghost before = cache.view_map();
    let ghost next0 = ids.next();
    let ghost src = katex_source@;
    let mut out = FontSet::empty();
    let known = collect_cached(katex_source, &wanted, cache, &mut out);
    assert(out.view_map() =~= collected(Map::empty(), src, wanted@, before));
    if known {
        let v = validate_required(plan, &out);
        match v {
            Ok(()) => {},
            Err(m) => {
                proof {
                    let id = choose|id: FontId| plan.required_set().contains(id) && !out.view_map().contains_key(id) && m@ == missing_font_message(id);
                    assert(wanted@.contains(id));
                }
                return Err(m);
            },
        }
        assert forall|id: FontId| #[trigger] out.view_map().contains_key(id) implies font_origin(before, src, id, out.view_map()[id], load_bytes, next0) by {}
        assert forall|id: FontId| #[trigger] plan.required_set().union(plan.optional_set()).contains(id) && !out.view_map().contains_key(id)
            implies font_unavailable(before, src, id, load_bytes) by {
            assert(wanted@.contains(id));
        }
        return Ok(out);
    }
    // The wanted fonts the cache does not know yet.
    let list = wanted.to_vec();
    let mut missing: Vec<FontId> = Vec::new();
    let mut i: usize = 0;
    while i < list.len()
        invariant
            cache.wf(),
            cache.view_map() == before,
            i <= list@.len(),
            list@.to_set() == wanted@,
            list@.no_duplicates(),
            src == katex_source@,
            missing@.len() <= i,
            list@.len() <= FONT_ID_COUNT,
            missing@.no_duplicates(),
            forall|k: int| 0 <= k < missing@.len() ==> wanted@.contains(#[trigger] missing@[k]) && !before.contains_key(cache_key_spec(src, missing@[k])),
            forall|j: int| 0 <= j < i && !before.contains_key(cache_key_spec(src, #[trigger] list@[j])) ==> missing@.contains(list@[j]),
            forall|k: int| 0 <= k < missing@.len() ==> exists|j: int| 0 <= j < i && list@[j] == #[trigger] missing@[k],
        decreases list@.len() - i,
    {
        let id = list[i];
        let key = cache_key(katex_source, id);
        if !cache.contains_key(&key) {
            let ghost prev = missing@;
            assert(list@.to_set().contains(id));
            assert(!prev.contains(id)) by {
                if prev.contains(id) {
                    let k = choose|k: int| 0 <= k < prev.len() && prev[k] == id;
                    let j = choose|j: int| 0 <= j < i && list@[j] == prev[k];
                    assert(list@[j] == list@[i as int]);
                }
            }
            missing.push(id);
            assert forall|k: int| 0 <= k < missing@.len() implies wanted@.contains(#[trigger] missing@[k]) && !before.contains_key(cache_key_spec(src, missing@[k])) by {
                if k < prev.len() {
                    assert(missing@[k] == prev[k]);
                }
            }
            assert forall|a: int, b: int| 0 <= a < b < missing@.len() implies missing@[a] != missing@[b] by {
                if b == missing@.len() - 1 {
                    assert(missing@[a] == prev[a]);
                    assert(prev.contains(prev[a]));
                }
            }
            assert forall|j: int| 0 <= j < i + 1 && !before.contains_key(cache_key_spec(src, #[trigger] list@[j])) implies missing@.contains(list@[j]) by {
                if j < i {
                    assert(prev.contains(list@[j]));
                    let k = choose|k: int| 0 <= k < prev.len() && prev[k] == list@[j];
                    assert(missing@[k] == prev[k]);
                } else {
                    assert(missing@[missing@.len() - 1] == list@[j]);
                }
            }
            assert forall|k: int| 0 <= k < missing@.len() implies exists|j: int| 0 <= j < i + 1 && list@[j] == #[trigger] missing@[k] by {
                if k < prev.len() {
                    assert(missing@[k] == prev[k]);
                    let j = choose|j: int| 0 <= j < i && list@[j] == prev[k];
                } else {
                    assert(list@[i as int] == missing@[k]);
                }
            }
        } else {
            assert(before.contains_key(cache_key_spec(src, id)));
        }
        i = i + 1;
    }
    let mut m: usize = 0;
    while m < missing.len()
        invariant
            cache.wf(),
            m <= missing@.len(),
            missing@.len() <= FONT_ID_COUNT,
            missing@.no_duplicates(),
            forall|k: int| 0 <= k < missing@.len() ==> wanted@.contains(#[trigger] missing@[k]) && !before.contains_key(cache_key_spec(src, missing@[k])),
            forall|j: int| 0 <= j < list@.len() && !before.contains_key(cache_key_spec(src, #[trigger] list@[j])) ==> missing@.contains(list@[j]),
            list@.to_set() == wanted@,
            src == katex_source@,
            before == old(cache).view_map(),
            next0 == old(ids).next(),
            wanted@ == plan.required_set().union(plan.optional_set()),
            !(forall|id: FontId| #[trigger] wanted@.contains(id) ==> before.contains_key(cache_key_spec(src, id))),
            next0 <= ids.next() <= next0 + m,
            next0 + FONT_ID_COUNT < u64::MAX,
            forall|id: FontId| load_bytes.requires((id,)),
            cache_origin(cache.view_map(), before, src, load_bytes, next0),
            forall|k: CacheKeyView| #[trigger] cache.view_map().contains_key(k) && cache.view_map()[k] is Some ==>
                (before.contains_key(k) && before[k] == cache.view_map()[k]) || (cache.view_map()[k]->0).1.value() < ids.next(),
            forall|id: FontId| #[trigger] out.view_map().contains_key(id) ==> cached_or_before(before, src, id, out.view_map()[id], ids.next()),
            forall|id: FontId| #[trigger] out.view_map().contains_key(id) ==> cached_font(before, src, id)
                || exists|j: int| 0 <= j < m && missing@[j] == id,
            font_cache_has_room(*old(cache), new_font_bytes(out.view_map(), before, src)) ==> {
                &&& cache.entry_count() <= old(cache).entry_count() + m
                &&& cache.byte_count() <= old(cache).byte_count() + new_font_bytes(out.view_map(), before, src)
                &&& forall|k: CacheKeyView| #[trigger] before.contains_key(k) ==> cache.view_map().contains_key(k) && cache.view_map()[k] == before[k]
                &&& forall|j: int| 0 <= j < m ==> cache.view_map().contains_key(cache_key_spec(src, #[trigger] missing@[j]))
            },
            forall|id: FontId| #[trigger] cache.view_map().contains_key(cache_key_spec(src, id)) && !before.contains_key(cache_key_spec(src, id))
                && cache.view_map()[cache_key_spec(src, id)] is Some
                ==> out.view_map().contains_key(id) && cache.view_map()[cache_key_spec(src, id)] == Some(out.view_map()[id]),
            out.view_map().dom().subset_of(wanted@),
            forall|id: FontId| #[trigger] wanted@.contains(id) && cached_font(before, src, id) ==> out.view_map().contains_key(id),
            forall|id: FontId| #[trigger] out.view_map().contains_key(id) ==> font_origin(before, src, id, out.view_map()[id], load_bytes, next0),
            forall|id: FontId| #[trigger] wanted@.contains(id) && !out.view_map().contains_key(id) ==> {
                ||| font_unavailable(before, src, id, load_bytes)
                ||| exists|k: int| m <= k < missing@.len() && missing@[k] == id
            },
        decreases missing@.len() - m,
    {
        let id = missing[m];
        let key = cache_key(katex_source, id);
        let ghost out0 = out.view_map();
        let ghost cache0 = *cache;
        proof {
            assert(!before.contains_key(cache_key_spec(src, id)));
            if out0.contains_key(id) {
                if !cached_font(before, src, id) {
                    let j = choose|j: int| 0 <= j < m && missing@[j] == id;
                    assert(missing@[j] == missing@[m as int]);
                }
            }
            assert(!out0.contains_key(id));
        }
        let loaded = match load_bytes(id) {
            Ok(Some(storage)) => {
                let f = LoadedFont::new(storage, ids);
                out.insert(id, f.duplicate());
                Some(f)
            },
            Ok(None) => None,
            Err(e) => {
                return Err(e);
            },
        };
        let ghost cache_before = cache.view_map();
        let ghost lv = loaded_view(loaded);
        proof {
            if lv is Some {
                lemma_new_font_bytes_insert(out0, before, src, id, lv->0);
                assert(out.view_map() == out0.insert(id, lv->0));
            } else {
                assert(out.view_map() == out0);
            }
        }
        insert_font_cache_entry(cache, key, loaded);
        proof {
            assert forall|x: FontId| #[trigger] cache.view_map().contains_key(cache_key_spec(src, x)) && !before.contains_key(cache_key_spec(src, x))
                && cache.view_map()[cache_key_spec(src, x)] is Some
                implies out.view_map().contains_key(x) && cache.view_map()[cache_key_spec(src, x)] == Some(out.view_map()[x]) by {
                if x != id {
                    assert(cache_key_spec(src, x) != key@);
                    assert(cache_before.contains_key(cache_key_spec(src, x)));
                    assert(cache_before[cache_key_spec(src, x)] == cache.view_map()[cache_key_spec(src, x)]);
                } else {
                    assert(cache.view_map()[key@] == lv);
                }
            }
            if font_cache_has_room(*old(cache), new_font_bytes(out.view_map(), before, src)) {
                assert(font_cache_has_room(*old(cache), new_font_bytes(out0, before, src)));
                assert(!insert_clears(cache0, key@, cached_font_len(lv), FONT_CACHE_CAP as nat, FONT_CACHE_BYTE_CAP as nat));
                assert(cache.view_map() == cache_before.insert(key@, lv));
            }
        }
        assert forall|x: FontId| #[trigger] wanted@.contains(x) && !out.view_map().contains_key(x) implies {
            ||| font_unavailable(before, src, x, load_bytes)
            ||| exists|k: int| m + 1 <= k < missing@.len() && missing@[k] == x
        } by {
            if !font_unavailable(before, src, x, load_bytes) {
                let k = choose|k: int| m <= k < missing@.len() && missing@[k] == x;
                if k == m {
                    assert(false);
                }
            }
        }
        m = m + 1;
    }
    let ghost out_mid = out.view_map();
    collect_cached(katex_source, &wanted, cache, &mut out);
    proof {
        lemma_new_font_bytes_upto_same(out.view_map(), out_mid, before, src, FONT_ID_COUNT as int);
        if font_cache_has_room(*old(cache), new_font_bytes(out.view_map(), before, src)) {
            assert forall|id: FontId| #[trigger] wanted@.contains(id) implies cache.view_map().contains_key(cache_key_spec(src, id)) by {
                if !before.contains_key(cache_key_spec(src, id)) {
                    assert(list@.to_set().contains(id));
                    let j = choose|j: int| 0 <= j < list@.len() && list@[j] == id;
                    assert(missing@.contains(list@[j]));
                    let k = choose|k: int| 0 <= k < missing@.len() && missing@[k] == id;
                    assert(cache.view_map().contains_key(cache_key_spec(src, missing@[k])));
                }
            }
        }
    }
    assert forall|id: FontId| #[trigger] out.view_map().contains_key(id) implies font_origin(before, src, id, out.view_map()[id], load_bytes, next0) by {
        if !out_mid.contains_key(id) || (wanted@.contains(id) && cache.view_map().contains_key(cache_key_spec(src, id)) && cache.view_map()[cache_key_spec(src, id)] is Some) {
            let k = cache_key_spec(src, id);
            assert(cache.view_map().contains_key(k) && cache.view_map()[k] is Some);
        }
    }
    assert forall|id: FontId| #[trigger] plan.required_set().union(plan.optional_set()).contains(id) && !out.view_map().contains_key(id)
        implies font_unavailable(before, src, id, load_bytes) by {
        assert(wanted@.contains(id));
        assert(!out_mid.contains_key(id));
        if !font_unavailable(before, src, id, load_bytes) {
            let k = choose|k: int| missing@.len() <= k < missing@.len() && missing@[k] == id;
        }
    }
    let v = validate_required(plan, &out);
    match v {
        Ok(()) => Ok(out),
        Err(e) => {
            proof {
                let id = choose|id: FontId| plan.required_set().contains(id) && !out.view_map().contains_key(id) && e@ == missing_font_message(id);
                assert(wanted@.contains(id));
                assert(!out_mid.contains_key(id));
                assert(!cached_font(before, src, id));
                if !font_unavailable(before, src, id, load_bytes) {
                    let k = choose|k: int| missing@.len() <= k < missing@.len() && missing@[k] == id;
                }
            }
            Err(e)
        },
    }
}

/// Load the fonts a display list names (the eager plan).
pub fn load_fonts_for_items<L>(
    cache: &mut FontCache,
    ids: &mut OutlineSourceIds,
    katex_source: &FontSourceKey,
    items: &[PlanItem],
    load_bytes: L,
) -> (r: Result<FontSet, String>) where L: Fn(FontId) -> Result<Option<FontStorage>, String>
    requires
        old(cache).wf(),
        old(ids).next() + FONT_ID_COUNT < u64::MAX,
        forall|id: FontId| load_bytes.requires((id,)),
    ensures
        final(cache).wf(),
        final(ids).next() >= old(ids).next(),
        load_succeeds(old(cache).view_map(), katex_source@, planned_required(items@), planned_required(items@).union(system_fallback_set()), load_bytes) ==> r is Ok,
        r matches Ok(set) ==> {
            &&& planned_required(items@).subset_of(set.view_map().dom())
            &&& forall|id: FontId| #[trigger] set.view_map().contains_key(id) ==> font_origin(old(cache).view_map(), katex_source@, id, set.view_map()[id], load_bytes, old(ids).next())
        },
        r matches Err(m) ==> {
            ||| exists|id: FontId| #[trigger] load_bytes.ensures((id,), Err(m))
            ||| exists|id: FontId| #[trigger] planned_required(items@).contains(id) && m@ == missing_font_message(id) && font_unavailable(old(cache).view_map(), katex_source@, id, load_bytes)
        },
{
    let plan = FontLoadPlan::for_display_items(items);
    let ghost wide = planned_required(items@).union(system_fallback_set());
    assert(plan.required_set().union(plan.optional_set()).subset_of(wide));
    load_fonts_for_plan(cache, ids, katex_source, &plan, load_bytes)
}

/// Load the fonts a display list names without the system fallbacks (the
/// lazy plan of the built-in renderers).
pub fn load_fonts_for_items_lazy<L>(
    cache: &mut FontCache,
    ids: &mut OutlineSourceIds,
    katex_source: &FontSourceKey,
    items: &[PlanItem],
    load_bytes: L,
) -> (r: Result<FontSet, String>) where L: Fn(FontId) -> Result<Option<FontStorage>, String>
    requires
        old(cache).wf(),
        old(ids).next() + FONT_ID_COUNT < u64::MAX,
        forall|id: FontId| load_bytes.requires((id,)),
    ensures
        final(cache).wf(),
        final(ids).next() >= old(ids).next(),
        load_succeeds(old(cache).view_map(), katex_source@, planned_required(items@), planned_required(items@), load_bytes) ==> r is Ok,
        r matches Ok(set) ==> {
            &&& planned_required(items@) == set.view_map().dom()
            &&& forall|id: FontId| #[trigger] set.view_map().contains_key(id) ==> font_origin(old(cache).view_map(), katex_source@, id, set.view_map()[id], load_bytes, old(ids).next())
        },
        r matches Err(m) ==> {
            ||| exists|id: FontId| #[trigger] load_bytes.ensures((id,), Err(m))
            ||| exists|id: FontId| #[trigger] planned_required(items@).contains(id) && m@ == missing_font_message(id) && font_unavailable(old(cache).view_map(), katex_source@, id, load_bytes)
        },
{
    let plan = FontLoadPlan::for_display_items_lazy(items);
    assert(plan.required_set().union(plan.optional_set()) =~= plan.required_set());
    let r = load_fonts_for_plan(cache, ids, katex_source, &plan, load_bytes);
    proof {
        if r is Ok {
            assert(plan.required_set().union(plan.optional_set()) =~= plan.required_set());
            assert(r->Ok_0.view_map().dom() =~= planned_required(items@));
        }
    }
    r
}

impl FontSet {
    /// Fonts given as bytes, each as a fresh generation.
    pub fn from_fonts(fonts: Vec<(FontId, Vec<u8>)>, ids: &mut OutlineSourceIds) -> (r: FontSet)
        requires
            old(ids).next() + fonts@.len() < u64::MAX,
        ensures
            final(ids).next() == old(ids).next() + fonts@.len(),
            forall|id: FontId| #[trigger] r.view_map().contains_key(id) <==> exists|k: int| 0 <= k < fonts@.len() && fonts@[k].0 == id,
            forall|id: FontId| #[trigger] r.view_map().contains_key(id) ==> r.view_map()[id].0 == (true, fonts@[last_with_id(fonts@, id)].1@)
                && old(ids).next() <= r.view_map()[id].1.value() < final(ids).next(),
    {
        let mut set = FontSet::empty();
        let n = fonts.len();
        let ghost given = fonts@;
        let mut rest = fonts;
        let mut i: usize = 0;
        while i < n
            invariant
                i <= n == given.len(),
                rest@ == given.subrange(i as int, n as int),
                ids.next() == old(ids).next() + i,
                old(ids).next() + n < u64::MAX,
                forall|id: FontId| #[trigger] set.view_map().contains_key(id) <==> exists|k: int| 0 <= k < i && given[k].0 == id,
                forall|id: FontId| #[trigger] set.view_map().contains_key(id) ==> set.view_map()[id].0 == (true, given[last_with_id(given.subrange(0, i as int), id)].1@)
                    && old(ids).next() <= set.view_map()[id].1.value() < ids.next(),
            decreases n - i,
        {
            let (id, bytes) = rest.remove(0);
            assert(given[i as int] == (id, bytes));
            let ghost bv = bytes@;
            let f = LoadedFont::new(FontStorage::Owned(Arc::new(bytes)), ids);
            let ghost before = set.view_map();
            set.insert(id, f);
            assert forall|x: FontId| #[trigger] set.view_map().contains_key(x) implies set.view_map()[x].0 == (true, given[last_with_id(given.subrange(0, i + 1), x)].1@)
                && old(ids).next() <= set.view_map()[x].1.value() < ids.next() by {
                lemma_last_with_id_push(given.subrange(0, i as int), given[i as int], x);
                assert(given.subrange(0, i + 1) =~= given.subrange(0, i as int).push(given[i as int]));
                if x != id {
                    let k = choose|k: int| 0 <= k < i + 1 && given[k].0 == x;
                    assert(k != i);
                }
            }
            assert forall|x: FontId| (exists|k: int| 0 <= k < i + 1 && given[k].0 == x) implies #[trigger] set.view_map().contains_key(x) by {
                let k = choose|k: int| 0 <= k < i + 1 && given[k].0 == x;
                if k < i {
                    assert(before.contains_key(x));
                }
            }
            assert(rest@ =~= given.subrange(i + 1, n as int));
            i = i + 1;
        }
        assert(given.subrange(0, n as int) =~= given);
        set
    }

    /// Load one system fallback into this set, when a renderer finds it is
    /// needed. `Ok(true)` when the font is (now) in the set, `Ok(false)` when
    /// it is unavailable; asking for a KaTeX font is an error.
    pub fn ensure_system_font<L>(
        &mut self,
        font_id: FontId,
        cache: &mut FontCache,
        ids: &mut OutlineSourceIds,
        load_bytes: L,
    ) -> (r: Result<bool, String>) where L: Fn(FontId) -> Result<Option<FontStorage>, String>
        requires
            old(cache).wf(),
            old(ids).next() + FONT_ID_COUNT < u64::MAX,
            forall|id: FontId| load_bytes.requires((id,)),
        ensures
            final(cache).wf(),
            final(ids).next() >= old(ids).next(),
            old(self).view_map().contains_key(font_id) ==> r == Ok::<bool, String>(true) && final(self).view_map() == old(self).view_map()
                && final(cache).view_map() == old(cache).view_map(),
            !old(self).view_map().contains_key(font_id) && !is_system_font_id_spec(font_id) ==> (r matches Err(m) && m@ == font_id_name(font_id) + " is not a system fallback font"@
                && final(self).view_map() == old(self).view_map()),
            !old(self).view_map().contains_key(font_id) && is_system_font_id_spec(font_id) && r is Ok ==> {
                &&& r->Ok_0 == final(self).view_map().contains_key(font_id)
                &&& final(self).view_map().remove(font_id) == old(self).view_map()
                &&& r->Ok_0 ==> font_origin(old(cache).view_map(), FontSourceKeyView::Legacy, font_id, final(self).view_map()[font_id], load_bytes, old(ids).next())
                &&& font_cache_has_room(*old(cache), if r->Ok_0 { cached_font_len(Some(final(self).view_map()[font_id])) } else { 0 }) ==> {
                    &&& final(cache).view_map().contains_key(cache_key_spec(FontSourceKeyView::Legacy, font_id))
                    &&& forall|k: CacheKeyView| #[trigger] old(cache).view_map().contains_key(k)
                        ==> final(cache).view_map().contains_key(k) && final(cache).view_map()[k] == old(cache).view_map()[k]
                }
            },
            r is Err ==> final(self).view_map() == old(self).view_map(),
            r is Err && is_system_font_id_spec(font_id) ==> exists|id: FontId| #[trigger] load_bytes.ensures((id,), Err(r->Err_0)),
            is_system_font_id_spec(font_id) && (old(cache).view_map().contains_key(cache_key_spec(FontSourceKeyView::Legacy, font_id))
                || load_never_fails(load_bytes, font_id)) ==> r is Ok,
    {
        if self.contains_key(&font_id) {
            return Ok(true);
        }
        if !is_system_font_id(font_id) {
            let mut m = String::new();
            m.append(font_id.as_str());
            m.append(" is not a system fallback font");
            return Err(m);
        }
        let plan = FontLoadPlan::from_sets(FontIdSet::new(), FontIdSet::single(font_id));
        // System fonts are keyed by their discovery role; the KaTeX source is not consulted.
        let source = FontSourceKey::Legacy;
        let loaded = load_fonts_for_plan(cache, ids, &source, &plan, load_bytes);
        match loaded {
            Ok(set) => {
                proof {
                    assert(plan.required_set().union(plan.optional_set()) =~= set![font_id]);
                    lemma_new_font_bytes_single(set.view_map(), old(cache).view_map(), FontSourceKeyView::Legacy, font_id);
                }
                match set.fonts_get(font_id) {
                    Some(f) => {
                        assert(set.view_map().contains_key(font_id));
                        assert(font_origin(old(cache).view_map(), FontSourceKeyView::Legacy, font_id, f@, load_bytes, old(ids).next()));
                        self.insert(font_id, f);
                        assert(self.view_map()[font_id] == f@);
                        assert(self.view_map().remove(font_id) =~= old(self).view_map());
                        proof {
                            if font_cache_has_room(*old(cache), cached_font_len(Some(f@))) {
                                assert(font_cache_has_room(*old(cache), new_font_bytes(set.view_map(), old(cache).view_map(), FontSourceKeyView::Legacy)));
                                assert(plan.required_set().union(plan.optional_set()).contains(font_id));
                            }
                        }
                        Ok(true)
                    },
                    None => {
                        assert(self.view_map().remove(font_id) =~= old(self).view_map());
                        proof {
                            if font_cache_has_room(*old(cache), 0) {
                                assert(font_cache_has_room(*old(cache), new_font_bytes(set.view_map(), old(cache).view_map(), FontSourceKeyView::Legacy)));
                                assert(plan.required_set().union(plan.optional_set()).contains(font_id));
                            }
                        }
                        Ok(false)
                    },
                }
            },
            Err(m) => {
                proof {
                    let ghost wanted = plan.required_set().union(plan.optional_set());
                    assert(wanted =~= set![font_id]);
                    assert(plan.required_set() =~= Set::<FontId>::empty());
                    if old(cache).view_map().contains_key(cache_key_spec(FontSourceKeyView::Legacy, font_id)) || load_never_fails(load_bytes, font_id) {
                        assert(load_succeeds(old(cache).view_map(), FontSourceKeyView::Legacy, plan.required_set(), wanted, load_bytes));
                    }
                    if !(exists|id: FontId| #[trigger] load_bytes.ensures((id,), Err(m))) {
                        let id = choose|id: FontId| #[trigger] plan.required_set().contains(id) && m@ == missing_font_message(id) && font_unavailable(old(cache).view_map(), FontSourceKeyView::Legacy, id, load_bytes);
                        assert(plan.required_set() =~= Set::empty());
                        assert(false);
                    }
                    assert(exists|id: FontId| #[trigger] load_bytes.ensures((id,), Err(m)));
                }
                let r: Result<bool, String> = Err(m);
                assert(r->Err_0 == m);
                r
            },
        }
    }

    /// A second handle to font `id`, if loaded.
    pub(crate) fn fonts_get(&self, id: FontId) -> (r: Option<LoadedFont>)
        ensures
            r is Some <==> self.view_map().contains_key(id),
            r matches Some(f) ==> f@ == self.view_map()[id],
    {
        proof {
            use_type_invariant(self);
        }
        match &self.fonts[id.index()] {
            Some(f) => Some(f.duplicate()),
            None => None,
        }
    }
}

/// Index of the last pair naming `id` (or `-1`).
pub open spec fn last_with_id(s: Seq<(FontId, Vec<u8>)>, id: FontId) -> int
    decreases s.len(),
{
    if s.len() == 0 {
        -1
    } else if s.last().0 == id {
        s.len() - 1
    } else {
        last_with_id(s.drop_last(), id)
    }
}

proof fn lemma_last_with_id_push(s: Seq<(FontId, Vec<u8>)>, e: (FontId, Vec<u8>), id: FontId)
    ensures
        last_with_id(s.push(e), id) == if e.0 == id { s.len() as int } else { last_with_id(s, id) },
{
    assert(s.push(e).drop_last() =~= s);
}

} // verus!
