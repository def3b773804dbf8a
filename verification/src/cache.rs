//! The process-wide source-map store and the position resolver over it.
//!
//! The cache maps a generated file name to its parsed source map, or to a
//! recorded "no map available" entry. Entries are added at most once per
//! file and never change afterwards. Resolution degrades to the identity
//! triple whenever no map, no mapping group, or no covering mapping exists.

use crate::json::{json_of, parse_json};
use crate::source_map::{map_lookup, parse_map_spec, SourceMap, SourceMapV};
use vstd::prelude::*;

verus! {

/// The view of one cache entry: a parsed map, or "no map available".
pub open spec fn entry_view(e: Option<SourceMap>) -> Option<SourceMapV> {
    match e {
        Some(sm) => Some(sm@),
        None => None,
    }
}

/// The association list of a cache as a map from file name to entry.
pub open spec fn entries_map(s: Seq<(String, Option<SourceMap>)>) -> Map<
    Seq<char>,
    Option<SourceMapV>,
>
    decreases s.len(),
{
    if s.len() == 0 {
        Map::empty()
    } else {
        entries_map(s.drop_last()).insert(s.last().0@, entry_view(s.last().1))
    }
}

/// The source-map cache: one entry per generated file that has been asked
/// about, added lazily and never evicted or overwritten.
pub struct SourceMapCache {
    pub entries: Vec<(String, Option<SourceMap>)>,
}

impl View for SourceMapCache {
    type V = Map<Seq<char>, Option<SourceMapV>>;

    open spec fn view(&self) -> Map<Seq<char>, Option<SourceMapV>> {
        entries_map(self.entries@)
    }
}

impl SourceMapCache {
    /// Entries keyed by distinct file names, every parsed map well-formed.
    pub open spec fn wf(self) -> bool {
        &&& (forall|i: int, j: int|
            0 <= i < j < self.entries@.len() ==> (#[trigger] self.entries@[i]).0@ != (
            #[trigger] self.entries@[j]).0@)
        &&& (forall|i: int|
            0 <= i < self.entries@.len() ==> (match (#[trigger] self.entries@[i]).1 {
                Some(sm) => sm@.wf(),
                None => true,
            }))
    }

    /// An empty cache.
    pub fn new() -> (r: Self)
        ensures
            r@ == Map::<Seq<char>, Option<SourceMapV>>::empty(),
            r.wf(),
    {
        SourceMapCache { entries: Vec::new() }
    }
}

proof fn lemma_entries_map_index(s: Seq<(String, Option<SourceMap>)>, i: int)
    requires
        0 <= i < s.len(),
        forall|a: int, b: int| 0 <= a < b < s.len() ==> (#[trigger] s[a]).0@ != (#[trigger] s[b]).0@,
    ensures
        entries_map(s).contains_key(s[i].0@),
        entries_map(s)[s[i].0@] == entry_view(s[i].1),
    decreases s.len(),
{
    if i < s.len() - 1 {
        assert(s.drop_last()[i] == s[i]);
        assert forall|a: int, b: int| 0 <= a < b < s.drop_last().len() implies (
        #[trigger] s.drop_last()[a]).0@ != (#[trigger] s.drop_last()[b]).0@ by {
            assert(s.drop_last()[a] == s[a]);
            assert(s.drop_last()[b] == s[b]);
        }
        lemma_entries_map_index(s.drop_last(), i);
        assert(s[i].0@ != s.last().0@);
    }
}

proof fn lemma_entries_map_absent(s: Seq<(String, Option<SourceMap>)>, k: Seq<char>)
    requires
        forall|i: int| 0 <= i < s.len() ==> (#[trigger] s[i]).0@ != k,
    ensures
        !entries_map(s).contains_key(k),
    decreases s.len(),
{
    if s.len() > 0 {
        assert forall|i: int| 0 <= i < s.drop_last().len() implies (#[trigger] s.drop_last()[i]).0@
            != k by {
            assert(s.drop_last()[i] == s[i]);
        }
        lemma_entries_map_absent(s.drop_last(), k);
    }
}

impl SourceMapCache {
    /// The index of the entry for `file`, if one exists.
    fn find(&self, file: &String) -> (r: Option<usize>)
        requires
            self.wf(),
        ensures
            (match r {
                Some(i) => i < self.entries@.len() && self.entries@[i as int].0@ == file@
                    && self@.contains_key(file@) && self@[file@] == entry_view(
                    self.entries@[i as int].1,
                ),
                None => !self@.contains_key(file@),
            }),
    {
        let mut i: usize = 0;
        while i < self.entries.len()
            invariant
                0 <= i <= self.entries@.len(),
                self.wf(),
                forall|j: int| 0 <= j < i as int ==> (#[trigger] self.entries@[j]).0@ != file@,
            decreases self.entries@.len() - i,
        {
            if self.entries[i].0.eq(file) {
                proof {
                    lemma_entries_map_index(self.entries@, i as int);
                }
                return Some(i);
            }
            i = i + 1;
        }
        proof {
            lemma_entries_map_absent(self.entries@, file@);
        }
        None
    }

    /// The parsed map this cache holds for `file`: none when no entry
    /// exists yet or when the entry records "no map available".
    pub fn get_map(&self, file: &String) -> (r: Option<&SourceMap>)
        requires
            self.wf(),
        ensures
            (match r {
                Some(sm) => self@.contains_key(file@) && self@[file@] == Some(sm@) && sm@.wf(),
                None => !self@.contains_key(file@) || self@[file@] is None,
            }),
    {
        match self.find(file) {
            Some(i) => (match &self.entries[i].1 {
                Some(sm) => Some(sm),
                None => None,
            }),
            None => None,
        }
    }

    /// Whether the cache already holds an entry for `file`.
    pub fn contains(&self, file: &String) -> (b: bool)
        requires
            self.wf(),
        ensures
            b == self@.contains_key(file@),
    {
        match self.find(file) {
            Some(_) => true,
            None => false,
        }
    }
}

/// What entry installing a raw payload produces: "no map" when no payload
/// was available, when the payload is not JSON, or when the document does
/// not denote a well-formed map; the parsed map otherwise.
pub open spec fn installed_entry(raw: Option<Seq<char>>) -> Option<SourceMapV> {
    match raw {
        None => None,
        Some(text) => (match json_of(text) {
            None => None,
            Some(j) => parse_map_spec(j),
        }),
    }
}

/// The view of an optional payload text.
pub open spec fn opt_text_view(raw: Option<String>) -> Option<Seq<char>> {
    match raw {
        Some(s) => Some(s@),
        None => None,
    }
}

impl SourceMapCache {
    /// Records the outcome of one payload fetch for `file`: parses the
    /// payload into a map, or records "no map available". An existing entry
    /// is never overwritten.
    #[verifier::loop_isolation(false)]
    pub fn insert_parsed(&mut self, file: &String, raw: Option<String>)
        requires
            old(self).wf(),
        ensures
            final(self).wf(),
            old(self)@.contains_key(file@) ==> *final(self) == *old(self),
            !old(self)@.contains_key(file@) ==> final(self)@ == old(self)@.insert(
                file@,
                installed_entry(opt_text_view(raw)),
            ),
    {
        if self.contains(file) {
            return ;
        }
        let parsed: Option<SourceMap> = match raw {
            None => None,
            Some(text) => (match crate::json::parse_json(text.as_str()) {
                None => None,
                Some(j) => crate::source_map::parse_source_map(&j),
            }),
        };
        proof {
            assert(entry_view(parsed) == installed_entry(opt_text_view(raw)));
        }
        let ghost pre = self.entries@;
        self.entries.push((file.clone(), parsed));
        proof {
            assert(self.entries@.drop_last() =~= pre);
            assert(self.entries@.last().0@ == file@);
            assert(self.entries@.last().1 == parsed);
            assert(self@ == entries_map(pre).insert(file@, entry_view(parsed)));
            assert forall|i: int, j: int|
                0 <= i < j < self.entries@.len() implies (#[trigger] self.entries@[i]).0@ != (
            #[trigger] self.entries@[j]).0@ by {
                if j == self.entries@.len() - 1 {
                    assert(self.entries@[i] == pre[i]);
                    if self.entries@[i].0@ == file@ {
                        lemma_entries_map_index(pre, i);
                    }
                } else {
                    assert(self.entries@[i] == pre[i]);
                    assert(self.entries@[j] == pre[j]);
                }
            }
        }
    }
}

/// Whether `m2` keeps every entry of `m1` unchanged; entries are never
/// evicted or overwritten, so every operation of this engine grows the
/// cache this way.
pub open spec fn map_extends(
    m1: Map<Seq<char>, Option<SourceMapV>>,
    m2: Map<Seq<char>, Option<SourceMapV>>,
) -> bool {
    forall|k: Seq<char>|
        #[trigger] m1.contains_key(k) ==> m2.contains_key(k) && m2[k] == m1[k]
}

/// An extension of an extension is an extension.
pub proof fn lemma_extends_trans(
    m1: Map<Seq<char>, Option<SourceMapV>>,
    m2: Map<Seq<char>, Option<SourceMapV>>,
    m3: Map<Seq<char>, Option<SourceMapV>>,
)
    requires
        map_extends(m1, m2),
        map_extends(m2, m3),
    ensures
        map_extends(m1, m3),
{
    assert forall|k: Seq<char>| #[trigger] m1.contains_key(k) implies m3.contains_key(k) && m3[k]
        == m1[k] by {
        assert(m2.contains_key(k));
    }
}

/// What resolving (file, line, column) against given cache contents yields:
/// the original position of the nearest preceding mapping, or the identity
/// triple when no entry, no map, or no covering mapping with a valid source
/// exists.
pub open spec fn resolved(
    m: Map<Seq<char>, Option<SourceMapV>>,
    file: Seq<char>,
    line: int,
    col: int,
) -> (Seq<char>, int, int) {
    if m.contains_key(file) {
        match m[file] {
            None => (file, line, col),
            Some(sm) => (match map_lookup(sm, line, col) {
                None => (file, line, col),
                Some(t) => t,
            }),
        }
    } else {
        (file, line, col)
    }
}

/// Where no source map exists for a file — no cache entry, or an entry that
/// records "no map available" — resolution returns the identical triple.
pub proof fn lemma_resolve_identity_without_map(
    m: Map<Seq<char>, Option<SourceMapV>>,
    file: Seq<char>,
    line: int,
    col: int,
)
    requires
        !m.contains_key(file) || m[file] is None,
    ensures
        resolved(m, file, line, col) == (file, line, col),
{
}

/// Resolving the exact boundary of a mapping of a cached map yields exactly
/// that mapping's original position.
pub proof fn lemma_resolve_exact_boundary(
    m: Map<Seq<char>, Option<SourceMapV>>,
    file: Seq<char>,
    sm: SourceMapV,
    i: int,
)
    requires
        m.contains_key(file),
        m[file] == Some(sm),
        sm.wf(),
        0 <= i < sm.mappings.len(),
        sm.mappings[i].original is Some,
    ensures
        resolved(m, file, sm.mappings[i].generated_line, sm.mappings[i].generated_column) == (
            sm.file_table[sm.mappings[i].original->Some_0.source],
            sm.mappings[i].original->Some_0.line,
            sm.mappings[i].original->Some_0.column,
        ),
{
    crate::source_map::lemma_exact_boundary(sm, i);
}

/// For a requested column strictly between two consecutive mappings on the
/// same generated line, resolution selects the earlier mapping — nearest
/// preceding match, never the later one.
pub proof fn lemma_resolve_between_selects_earlier(
    m: Map<Seq<char>, Option<SourceMapV>>,
    file: Seq<char>,
    sm: SourceMapV,
    i: int,
    col: int,
)
    requires
        m.contains_key(file),
        m[file] == Some(sm),
        sm.wf(),
        0 <= i,
        i + 1 < sm.mappings.len(),
        sm.mappings[i + 1].generated_line == sm.mappings[i].generated_line,
        sm.mappings[i].generated_column < col < sm.mappings[i + 1].generated_column,
        sm.mappings[i].original is Some,
    ensures
        resolved(m, file, sm.mappings[i].generated_line, col) == (
            sm.file_table[sm.mappings[i].original->Some_0.source],
            sm.mappings[i].original->Some_0.line,
            sm.mappings[i].original->Some_0.column,
        ),
{
    crate::source_map::lemma_between_selects_earlier(sm, i, col);
}

impl SourceMapCache {
    /// Resolves a generated position against the maps this cache already
    /// holds, without fetching anything.
    pub fn resolve_in_cache(&self, file: &String, line: i64, column: i64) -> (r: (
        String,
        i64,
        i64,
    ))
        requires
            self.wf(),
        ensures
            (r.0@, r.1 as int, r.2 as int) == resolved(self@, file@, line as int, column as int),
    {
        match self.find(file) {
            None => (file.clone(), line, column),
            Some(i) => (match &self.entries[i].1 {
                None => (file.clone(), line, column),
                Some(sm) => (match crate::source_map::lookup_in_map(sm, line, column) {
                    None => (file.clone(), line, column),
                    Some(t) => t,
                }),
            }),
        }
    }
}

/// The collaborator that supplies raw source-map payloads, one per
/// generated file; the engine states nothing about what it returns.
pub trait SourceMapFetcher {
    /// The raw source-map payload for `file`, if the collaborator has one.
    fn fetch_raw_source_map(&mut self, file: &String) -> Option<String>;
}

/// Resolves a generated position to the best-matching original position.
/// On the first request for a file the raw map is fetched and parsed, and
/// the outcome is cached; afterwards the cache alone answers: a repeated
/// request for the same file leaves both the cache and the fetcher
/// untouched.
pub fn resolve_position<F: SourceMapFetcher>(
    cache: &mut SourceMapCache,
    fetcher: &mut F,
    file: &String,
    line: i64,
    column: i64,
) -> (r: (String, i64, i64))
    requires
        old(cache).wf(),
    ensures
        final(cache).wf(),
        final(cache)@.contains_key(file@),
        map_extends(old(cache)@, final(cache)@),
        forall|k: Seq<char>|
            #[trigger] final(cache)@.contains_key(k) ==> k == file@ || old(cache)@.contains_key(
                k,
            ),
        (r.0@, r.1 as int, r.2 as int) == resolved(final(cache)@, file@, line as int, column as int),
        old(cache)@.contains_key(file@) ==> *final(cache) == *old(cache) && *final(fetcher)
            == *old(fetcher),
{
    if !cache.contains(file) {
        let raw = fetcher.fetch_raw_source_map(file);
        cache.insert_parsed(file, raw);
    }
    cache.resolve_in_cache(file, line, column)
}

} // verus!
