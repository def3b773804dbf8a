//! The parsed representation of one source map, and the position lookup over
//! it: the greatest mapping on the requested generated line whose generated
//! column does not exceed the requested column.

use crate::json::{obj_get, obj_lookup, Json, JsonV};
use vstd::prelude::*;
use vstd::seq_lib::*;
use vstd::string::StringExecFns;

verus! {

/// Where a mapping points in the original source: an index into the map's
/// file table, and a line and column there.
pub struct OriginalPos {
    pub source: u32,
    pub line: u32,
    pub column: u32,
}

/// One segment of a parsed source map. A mapping with no original position
/// is a "no-source" segment: a lookup that lands on it falls back to the
/// generated position.
pub struct Mapping {
    pub generated_line: u32,
    pub generated_column: u32,
    pub original: Option<OriginalPos>,
}

/// The parsed representation of one raw source-map payload, immutable once
/// built. `mappings` is kept sorted, strictly, by (generated line, generated
/// column); `file_table` holds the original file names that mappings refer
/// to by index.
pub struct SourceMap {
    pub mappings: Vec<Mapping>,
    pub file_table: Vec<String>,
}

pub struct OriginalPosV {
    pub source: int,
    pub line: int,
    pub column: int,
}

pub struct MappingV {
    pub generated_line: int,
    pub generated_column: int,
    pub original: Option<OriginalPosV>,
}

#[verifier::ext_equal]
pub struct SourceMapV {
    pub mappings: Seq<MappingV>,
    pub file_table: Seq<Seq<char>>,
}

impl View for OriginalPos {
    type V = OriginalPosV;

    open spec fn view(&self) -> OriginalPosV {
        OriginalPosV { source: self.source as int, line: self.line as int, column: self.column as int }
    }
}

impl View for Mapping {
    type V = MappingV;

    open spec fn view(&self) -> MappingV {
        MappingV {
            generated_line: self.generated_line as int,
            generated_column: self.generated_column as int,
            original: (match self.original {
                Some(o) => Some(o@),
                None => None,
            }),
        }
    }
}

impl View for SourceMap {
    type V = SourceMapV;

    open spec fn view(&self) -> SourceMapV {
        SourceMapV {
            mappings: Seq::new(
                self.mappings@.len(),
                |i: int|
                    if 0 <= i < self.mappings@.len() {
                        self.mappings@[i]@
                    } else {
                        MappingV { generated_line: 0, generated_column: 0, original: None }
                    },
            ),
            file_table: Seq::new(
                self.file_table@.len(),
                |i: int|
                    if 0 <= i < self.file_table@.len() {
                        self.file_table@[i]@
                    } else {
                        Seq::<char>::empty()
                    },
            ),
        }
    }
}

/// Strict order of mappings: by generated line, then by generated column.
pub open spec fn mapping_lt(a: MappingV, b: MappingV) -> bool {
    a.generated_line < b.generated_line || (a.generated_line == b.generated_line
        && a.generated_column < b.generated_column)
}

impl MappingV {
    /// Components in range: positions non-negative, and any original source
    /// index within the map's file table.
    pub open spec fn wf(self, n_files: int) -> bool {
        &&& 0 <= self.generated_line
        &&& 0 <= self.generated_column
        &&& (match self.original {
            Some(o) => 0 <= o.source < n_files && 0 <= o.line && 0 <= o.column,
            None => true,
        })
    }
}

impl SourceMapV {
    /// Well-formedness of a parsed map: mappings strictly sorted by
    /// (generated line, generated column), every component in range.
    pub open spec fn wf(self) -> bool {
        &&& (forall|i: int, j: int|
            0 <= i < j < self.mappings.len() ==> mapping_lt(
                #[trigger] self.mappings[i],
                #[trigger] self.mappings[j],
            ))
        &&& (forall|i: int|
            0 <= i < self.mappings.len() ==> (#[trigger] self.mappings[i]).wf(
                self.file_table.len() as int,
            ))
    }
}

/// Whether a mapping covers the requested position: same generated line,
/// generated column not past the requested column.
pub open spec fn match_at(m: MappingV, line: int, col: int) -> bool {
    m.generated_line == line && m.generated_column <= col
}

/// The index of the last mapping in `ms` that covers (line, col), if any.
/// Over a sorted map this is the nearest-preceding match on that line.
pub open spec fn best_idx(ms: Seq<MappingV>, line: int, col: int) -> Option<int>
    decreases ms.len(),
{
    if ms.len() == 0 {
        None
    } else if match_at(ms.last(), line, col) {
        Some(ms.len() - 1)
    } else {
        best_idx(ms.drop_last(), line, col)
    }
}

/// What a lookup in one map yields: the original position of the nearest
/// preceding mapping on the requested line, or nothing when no mapping
/// covers the position, the covering mapping has no source, or its source
/// index is out of range.
pub open spec fn map_lookup(sm: SourceMapV, line: int, col: int) -> Option<(Seq<char>, int, int)> {
    match best_idx(sm.mappings, line, col) {
        None => None,
        Some(i) => (match sm.mappings[i].original {
            None => None,
            Some(o) => if 0 <= o.source < sm.file_table.len() {
                Some((sm.file_table[o.source], o.line, o.column))
            } else {
                None
            },
        }),
    }
}

/// The last covering index is `i` exactly when `i` covers the position and
/// nothing after it does.
proof fn lemma_best_idx_is(ms: Seq<MappingV>, line: int, col: int, i: int)
    requires
        0 <= i < ms.len(),
        match_at(ms[i], line, col),
        forall|j: int| i < j < ms.len() ==> !match_at(#[trigger] ms[j], line, col),
    ensures
        best_idx(ms, line, col) == Some(i),
    decreases ms.len(),
{
    if i < ms.len() - 1 {
        assert(!match_at(ms.last(), line, col));
        assert(ms.drop_last()[i] == ms[i]);
        assert forall|j: int| i < j < ms.drop_last().len() implies !match_at(
            #[trigger] ms.drop_last()[j],
            line,
            col,
        ) by {
            assert(ms.drop_last()[j] == ms[j]);
        }
        lemma_best_idx_is(ms.drop_last(), line, col, i);
    }
}

/// Looking up the exact boundary of a mapping of a well-formed map yields
/// exactly that mapping's original position.
pub proof fn lemma_exact_boundary(sm: SourceMapV, i: int)
    requires
        sm.wf(),
        0 <= i < sm.mappings.len(),
        sm.mappings[i].original is Some,
    ensures
        map_lookup(sm, sm.mappings[i].generated_line, sm.mappings[i].generated_column) == Some(
            (
                sm.file_table[sm.mappings[i].original->Some_0.source],
                sm.mappings[i].original->Some_0.line,
                sm.mappings[i].original->Some_0.column,
            ),
        ),
{
    let line = sm.mappings[i].generated_line;
    let col = sm.mappings[i].generated_column;
    assert forall|j: int| i < j < sm.mappings.len() implies !match_at(
        #[trigger] sm.mappings[j],
        line,
        col,
    ) by {
        assert(mapping_lt(sm.mappings[i], sm.mappings[j]));
    }
    lemma_best_idx_is(sm.mappings, line, col, i);
}

/// For a column strictly between two consecutive mappings on the same
/// generated line, the lookup selects the earlier mapping: nearest
/// preceding match, never the later one.
pub proof fn lemma_between_selects_earlier(sm: SourceMapV, i: int, col: int)
    requires
        sm.wf(),
        0 <= i,
        i + 1 < sm.mappings.len(),
        sm.mappings[i + 1].generated_line == sm.mappings[i].generated_line,
        sm.mappings[i].generated_column < col < sm.mappings[i + 1].generated_column,
    ensures
        best_idx(sm.mappings, sm.mappings[i].generated_line, col) == Some(i),
{
    let line = sm.mappings[i].generated_line;
    assert forall|j: int| i < j < sm.mappings.len() implies !match_at(
        #[trigger] sm.mappings[j],
        line,
        col,
    ) by {
        if j > i + 1 {
            assert(mapping_lt(sm.mappings[i + 1], sm.mappings[j]));
        }
    }
    lemma_best_idx_is(sm.mappings, line, col, i);
}

/// Finds the nearest preceding mapping for (line, column) in this map and
/// returns its original position, or nothing when the lookup comes up empty.
pub fn lookup_in_map(sm: &SourceMap, line: i64, column: i64) -> (r: Option<(String, i64, i64)>)
    ensures
        (match (r, map_lookup(sm@, line as int, column as int)) {
            (Some(t), Some(s)) => t.0@ == s.0 && t.1 as int == s.1 && t.2 as int == s.2,
            (None, None) => true,
            _ => false,
        }),
{
    let ghost ms = sm@.mappings;
    let mut i: usize = sm.mappings.len();
    proof {
        assert(ms.subrange(0, i as int) =~= ms);
    }
    while i > 0
        invariant
            0 <= i <= sm.mappings.len(),
            ms == sm@.mappings,
            ms.len() == sm.mappings@.len(),
            best_idx(ms, line as int, column as int) == best_idx(
                ms.subrange(0, i as int),
                line as int,
                column as int,
            ),
        decreases i,
    {
        let ghost pre = ms.subrange(0, i as int);
        proof {
            assert(pre.last() == ms[i - 1]);
            assert(pre.drop_last() =~= ms.subrange(0, i - 1));
        }
        let m = &sm.mappings[i - 1];
        if m.generated_line as i64 == line && m.generated_column as i64 <= column {
            proof {
                assert(match_at(ms[i - 1], line as int, column as int));
                assert(best_idx(ms, line as int, column as int) == Some(i - 1));
            }
            match &m.original {
                None => {
                    return None;
                },
                Some(o) => {
                    if (o.source as usize) < sm.file_table.len() {
                        let file = sm.file_table[o.source as usize].clone();
                        return Some((file, o.line as i64, o.column as i64));
                    } else {
                        return None;
                    }
                },
            }
        }
        proof {
            assert(!match_at(ms[i - 1], line as int, column as int));
        }
        i = i - 1;
    }
    proof {
        assert(ms.subrange(0, 0) =~= Seq::<MappingV>::empty());
    }
    None
}

/// Whether an integer fits a u32 position field.
pub open spec fn ok_u32(n: int) -> bool {
    0 <= n <= u32::MAX as int
}

/// What one entry of a payload's "mappings" array denotes: a pair
/// [generated_line, generated_column] for a no-source segment, or a
/// five-tuple [generated_line, generated_column, source, line, column];
/// anything else, or a component out of range, denotes nothing.
pub open spec fn conv_mapping(j: JsonV) -> Option<MappingV> {
    match j {
        JsonV::Arr(es) => if es.len() == 2 {
            match (es[0], es[1]) {
                (JsonV::Int(a), JsonV::Int(b)) => if ok_u32(a) && ok_u32(b) {
                    Some(MappingV { generated_line: a, generated_column: b, original: None })
                } else {
                    None
                },
                _ => None,
            }
        } else if es.len() == 5 {
            match (es[0], es[1], es[2], es[3], es[4]) {
                (
                    JsonV::Int(a),
                    JsonV::Int(b),
                    JsonV::Int(c),
                    JsonV::Int(d),
                    JsonV::Int(e),
                ) => if ok_u32(a) && ok_u32(b) && ok_u32(c) && ok_u32(d) && ok_u32(e) {
                    Some(
                        MappingV {
                            generated_line: a,
                            generated_column: b,
                            original: Some(OriginalPosV { source: c, line: d, column: e }),
                        },
                    )
                } else {
                    None
                },
                _ => None,
            }
        } else {
            None
        },
        _ => None,
    }
}

/// The mappings an array of payload entries denotes, when every entry does.
pub open spec fn conv_mappings(s: Seq<JsonV>) -> Option<Seq<MappingV>> {
    if forall|i: int| 0 <= i < s.len() ==> conv_mapping(#[trigger] s[i]) is Some {
        Some(Seq::new(s.len(), |i: int| conv_mapping(s[i]).unwrap()))
    } else {
        None
    }
}

/// The file table an array of payload entries denotes: every entry must be
/// a string.
pub open spec fn conv_sources(s: Seq<JsonV>) -> Option<Seq<Seq<char>>> {
    if forall|i: int| 0 <= i < s.len() ==> #[trigger] s[i] is Str {
        Some(Seq::new(s.len(), |i: int| s[i]->Str_0))
    } else {
        None
    }
}

/// What a raw payload document denotes: an object with a "sources" array of
/// strings and a "mappings" array of well-formed entries, sorted strictly by
/// (generated line, generated column) with every source index in range;
/// anything else denotes no map.
pub open spec fn parse_map_spec(j: JsonV) -> Option<SourceMapV> {
    match j {
        JsonV::Obj(fields) => (match (obj_get(fields, "sources"@), obj_get(fields, "mappings"@)) {
            (Some(JsonV::Arr(ss)), Some(JsonV::Arr(ms))) => (match (
                conv_sources(ss),
                conv_mappings(ms),
            ) {
                (Some(files), Some(maps)) => {
                    let sm = SourceMapV { mappings: maps, file_table: files };
                    if sm.wf() {
                        Some(sm)
                    } else {
                        None
                    }
                },
                _ => None,
            }),
            _ => None,
        }),
        _ => None,
    }
}

proof fn lemma_sorted_from_consecutive(ms: Seq<MappingV>, i: int, j: int)
    requires
        forall|k: int| 0 <= k && k + 1 < ms.len() ==> mapping_lt(#[trigger] ms[k], ms[k + 1]),
        0 <= i < j < ms.len(),
    ensures
        mapping_lt(ms[i], ms[j]),
    decreases j - i,
{
    if j > i + 1 {
        lemma_sorted_from_consecutive(ms, i, j - 1);
    }
}

/// Parses one raw payload document into a source map. Any deviation from
/// the payload shape yields nothing: the store treats a broken payload as
/// "no map available".
#[verifier::loop_isolation(false)]
pub fn parse_source_map(j: &Json) -> (r: Option<SourceMap>)
    ensures
        (match r {
            Some(sm) => parse_map_spec(j@) == Some(sm@) && sm@.wf(),
            None => parse_map_spec(j@) is None,
        }),
{
    let fields = match j {
        Json::Obj(fields) => fields,
        _ => {
            return None;
        },
    };
    let sources_j = match obj_lookup(fields, &String::from_str("sources")) {
        Some(x) => x,
        None => {
            return None;
        },
    };
    let mappings_j = match obj_lookup(fields, &String::from_str("mappings")) {
        Some(x) => x,
        None => {
            return None;
        },
    };
    let ss = match sources_j {
        Json::Arr(v) => v,
        _ => {
            return None;
        },
    };
    let msj = match mappings_j {
        Json::Arr(v) => v,
        _ => {
            return None;
        },
    };
    let ghost ssv = sources_j@->Arr_0;
    let ghost msv = mappings_j@->Arr_0;
    proof {
        assert(ssv.len() == ss@.len());
        assert(msv.len() == msj@.len());
    }

    let mut files: Vec<String> = Vec::new();
    let mut k: usize = 0;
    while k < ss.len()
        invariant
            0 <= k <= ss.len(),
            ss@.len() == ssv.len(),
            forall|i: int| 0 <= i < ssv.len() ==> ssv[i] == #[trigger] ss@[i]@,
            files@.len() == k,
            forall|i: int| 0 <= i < k as int ==> #[trigger] ssv[i] is Str,
            forall|i: int| 0 <= i < k as int ==> #[trigger] files@[i]@ == ssv[i]->Str_0,
        decreases ss.len() - k,
    {
        let e = &ss[k];
        proof {
            assert(ssv[k as int] == e@);
        }
        match e {
            Json::Str(s) => {
                proof {
                    assert(e@ == JsonV::Str(s@));
                }
                files.push(s.clone());
            },
            _ => {
                proof {
                    assert(!(e@ is Str));
                    assert(conv_sources(ssv) is None);
                }
                return None;
            },
        }
        k = k + 1;
    }
    proof {
        assert(conv_sources(ssv) == Some(Seq::new(ssv.len(), |i: int| ssv[i]->Str_0)));
    }

    let mut maps: Vec<Mapping> = Vec::new();
    let mut k: usize = 0;
    while k < msj.len()
        invariant
            0 <= k <= msj.len(),
            msj@.len() == msv.len(),
            forall|i: int| 0 <= i < msv.len() ==> msv[i] == #[trigger] msj@[i]@,
            maps@.len() == k,
            forall|i: int|
                0 <= i < k as int ==> conv_mapping(#[trigger] msv[i]) == Some(maps@[i]@),
        decreases msj.len() - k,
    {
        let e = &msj[k];
        proof {
            assert(msv[k as int] == e@);
        }
        let entry = match e {
            Json::Arr(es) => es,
            _ => {
                proof {
                    assert(!(e@ is Arr));
                    assert(conv_mapping(msv[k as int]) is None);
                    assert(conv_mappings(msv) is None);
                }
                return None;
            },
        };
        let ghost ev = e@->Arr_0;
        proof {
            assert(ev.len() == entry@.len());
            assert(forall|i: int| 0 <= i < ev.len() ==> ev[i] == #[trigger] entry@[i]@);
        }
        let m: Mapping;
        if entry.len() == 2 {
            let e0 = &entry[0];
            let e1 = &entry[1];
            proof {
                assert(ev[0] == e0@);
                assert(ev[1] == e1@);
            }
            match (e0, e1) {
                (Json::Int(a), Json::Int(b)) => {
                    proof {
                        assert(ev[0] == JsonV::Int(*a as int));
                        assert(ev[1] == JsonV::Int(*b as int));
                    }
                    if *a >= 0 && *a <= u32::MAX as i64 && *b >= 0 && *b <= u32::MAX as i64 {
                        m = Mapping {
                            generated_line: *a as u32,
                            generated_column: *b as u32,
                            original: None,
                        };
                        proof {
                            assert(conv_mapping(msv[k as int]) == Some(m@));
                        }
                    } else {
                        proof {
                            assert(conv_mapping(msv[k as int]) is None);
                            assert(conv_mappings(msv) is None);
                        }
                        return None;
                    }
                },
                _ => {
                    proof {
                        assert(!(ev[0] is Int) || !(ev[1] is Int));
                        assert(conv_mapping(msv[k as int]) is None);
                        assert(conv_mappings(msv) is None);
                    }
                    return None;
                },
            }
        } else if entry.len() == 5 {
            let e0 = &entry[0];
            let e1 = &entry[1];
            let e2 = &entry[2];
            let e3 = &entry[3];
            let e4 = &entry[4];
            proof {
                assert(ev[0] == e0@);
                assert(ev[1] == e1@);
                assert(ev[2] == e2@);
                assert(ev[3] == e3@);
                assert(ev[4] == e4@);
            }
            match (e0, e1, e2, e3, e4) {
                (Json::Int(a), Json::Int(b), Json::Int(c), Json::Int(d), Json::Int(e5)) => {
                    proof {
                        assert(ev[0] == JsonV::Int(*a as int));
                        assert(ev[1] == JsonV::Int(*b as int));
                        assert(ev[2] == JsonV::Int(*c as int));
                        assert(ev[3] == JsonV::Int(*d as int));
                        assert(ev[4] == JsonV::Int(*e5 as int));
                    }
                    if *a >= 0 && *a <= u32::MAX as i64 && *b >= 0 && *b <= u32::MAX as i64 && *c
                        >= 0 && *c <= u32::MAX as i64 && *d >= 0 && *d <= u32::MAX as i64 && *e5
                        >= 0 && *e5 <= u32::MAX as i64 {
                        m = Mapping {
                            generated_line: *a as u32,
                            generated_column: *b as u32,
                            original: Some(
                                OriginalPos {
                                    source: *c as u32,
                                    line: *d as u32,
                                    column: *e5 as u32,
                                },
                            ),
                        };
                        proof {
                            assert(conv_mapping(msv[k as int]) == Some(m@));
                        }
                    } else {
                        proof {
                            assert(conv_mapping(msv[k as int]) is None);
                            assert(conv_mappings(msv) is None);
                        }
                        return None;
                    }
                },
                _ => {
                    proof {
                        assert(!(ev[0] is Int) || !(ev[1] is Int) || !(ev[2] is Int) || !(ev[3]
                            is Int) || !(ev[4] is Int));
                        assert(conv_mapping(msv[k as int]) is None);
                        assert(conv_mappings(msv) is None);
                    }
                    return None;
                },
            }
        } else {
            proof {
                assert(conv_mapping(msv[k as int]) is None);
                assert(conv_mappings(msv) is None);
            }
            return None;
        }
        maps.push(m);
        k = k + 1;
    }
    proof {
        assert(conv_mappings(msv) == Some(
            Seq::new(msv.len(), |i: int| conv_mapping(msv[i]).unwrap()),
        ));
    }

    let ghost smv = SourceMapV {
        mappings: conv_mappings(msv).unwrap(),
        file_table: conv_sources(ssv).unwrap(),
    };
    proof {
        assert(smv.mappings.len() == maps@.len());
        assert(smv.file_table.len() == files@.len());
        assert forall|i: int| 0 <= i < maps@.len() implies #[trigger] smv.mappings[i]
            == maps@[i]@ by {
            assert(smv.mappings[i] == conv_mapping(msv[i]).unwrap());
        }
        assert forall|i: int| 0 <= i < files@.len() implies #[trigger] smv.file_table[i]
            == files@[i]@ by {
            assert(smv.file_table[i] == ssv[i]->Str_0);
        }
    }

    let mut k: usize = 1;
    while k < maps.len()
        invariant
            1 <= k,
            k <= maps.len() || maps.len() == 0,
            maps@.len() == smv.mappings.len(),
            forall|i: int| 0 <= i < maps@.len() ==> #[trigger] smv.mappings[i] == maps@[i]@,
            forall|i: int|
                0 <= i && i + 1 < k as int ==> mapping_lt(
                    #[trigger] smv.mappings[i],
                    smv.mappings[i + 1],
                ),
        decreases maps.len() - k,
    {
        let a = &maps[k - 1];
        let b = &maps[k];
        let sorted = a.generated_line < b.generated_line || (a.generated_line == b.generated_line
            && a.generated_column < b.generated_column);
        if !sorted {
            proof {
                assert(smv.mappings[k - 1] == maps@[k - 1]@);
                assert(smv.mappings[k as int] == maps@[k as int]@);
                assert(!mapping_lt(smv.mappings[k - 1], smv.mappings[k as int]));
                assert(!smv.wf());
            }
            return None;
        }
        k = k + 1;
    }

    let mut k: usize = 0;
    while k < maps.len()
        invariant
            0 <= k <= maps.len(),
            maps@.len() == smv.mappings.len(),
            smv.file_table.len() == files@.len(),
            forall|i: int| 0 <= i < maps@.len() ==> #[trigger] smv.mappings[i] == maps@[i]@,
            forall|i: int|
                0 <= i && i + 1 < maps@.len() ==> mapping_lt(
                    #[trigger] smv.mappings[i],
                    smv.mappings[i + 1],
                ),
            forall|i: int|
                0 <= i < k as int ==> (#[trigger] smv.mappings[i]).wf(
                    smv.file_table.len() as int,
                ),
        decreases maps.len() - k,
    {
        let mk = &maps[k];
        proof {
            assert(smv.mappings[k as int] == maps@[k as int]@);
        }
        match &mk.original {
            Some(o) => {
                proof {
                    assert(maps@[k as int]@.original == Some(o@));
                }
                if !((o.source as usize) < files.len()) {
                    proof {
                        assert(!smv.mappings[k as int].wf(smv.file_table.len() as int));
                        assert(!smv.wf());
                    }
                    return None;
                }
            },
            None => {},
        }
        k = k + 1;
    }

    let r = SourceMap { mappings: maps, file_table: files };
    proof {
        assert forall|i: int, j: int| 0 <= i < j < smv.mappings.len() implies mapping_lt(
            #[trigger] smv.mappings[i],
            #[trigger] smv.mappings[j],
        ) by {
            lemma_sorted_from_consecutive(smv.mappings, i, j);
        }
        assert(smv.wf());
        assert(smv =~~= r@);
        assert(parse_map_spec(j@) == Some(r@));
    }
    Some(r)
}

} // verus!

