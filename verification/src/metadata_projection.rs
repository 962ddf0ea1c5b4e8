//! Projecting an owner's saved metadata from its decoded object graph:
//! witnessed direct fields, fields reached through explicit pointer
//! edges, saved parameter sets and family parameter slots. Values stay
//! serialized; no slot, storage type or inheritance is guessed.
use vstd::prelude::*;

use crate::graph::GraphEdge;
use crate::metadata::{DeclaredCustomParameter, GlobalParameterAssociation, StoredParameter};
use crate::object_graph::{GraphView, ObjectGraph, ObjectView};
use crate::parameter_definitions::{
    is_family_symbol_definition_owner, spec_is_family_symbol_class, BuiltinDefinition, BuiltinView, Definition,
    DefinitionView, ResolvedFamilyParameter, ResolvedView,
};
use crate::text::{concat, str_eq, text_of};
use crate::token_tree::{
    as_i64, identifier, identifier_exec, lemma_member_from_in_bounds, lemma_value_end_after, member,
    member_exec, member_from, opt_pos, text_outcome, value_end, value_end_exec,
};
use crate::value_grammar::{tokens_view, Token, TokenView};

verus! {

/// One saved native field projected as a built-in parameter.
#[derive(Clone, Debug)]
pub struct RawFieldParameter {
    pub parameter_id: i64,
    pub source_object: usize,
    pub source_field: String,
    pub source_element_id: Option<i64>,
    pub projection_rule: &'static str,
    pub storage_type: String,
    /// The saved value's tokens; an element id as one integer token. A
    /// normalized-fraction row keeps the saved fraction: its projected
    /// value is that fraction's nearest integer percent.
    pub raw_value: Vec<Token>,
    pub value_semantics: &'static str,
}

/// A projected field as plain values.
pub struct RawFieldView {
    pub parameter_id: i64,
    pub source_object: usize,
    pub source_field: Seq<char>,
    pub source_element_id: Option<i64>,
    pub projection_rule: Seq<char>,
    pub storage_type: Seq<char>,
    pub raw_value: Seq<TokenView>,
    pub value_semantics: Seq<char>,
}

impl RawFieldParameter {
    pub open spec fn view(&self) -> RawFieldView {
        RawFieldView {
            parameter_id: self.parameter_id,
            source_object: self.source_object,
            source_field: self.source_field@,
            source_element_id: self.source_element_id,
            projection_rule: self.projection_rule@,
            storage_type: self.storage_type@,
            raw_value: tokens_view(self.raw_value@),
            value_semantics: self.value_semantics@,
        }
    }
}

/// Projected fields as plain values.
pub open spec fn rows_view(v: Seq<RawFieldParameter>) -> Seq<RawFieldView> {
    v.map_values(|r: RawFieldParameter| r@)
}

/// A list of witnessed fields: name, built-in parameter, storage type.
pub open spec fn fields_view(f: Seq<(&str, i64, &str)>) -> Seq<(Seq<char>, i64, Seq<char>)> {
    f.map_values(|x: (&str, i64, &str)| (x.0@, x.1, x.2@))
}

/// An executable result agrees with a specified sequence of rows.
pub open spec fn rows_outcome(
    r: Result<Vec<RawFieldParameter>, String>,
    s: Result<Seq<RawFieldView>, Seq<char>>,
) -> bool {
    match s {
        Ok(v) => r is Ok && rows_view(r->Ok_0@) == v,
        Err(e) => r is Err && r->Err_0@ == e,
    }
}

/// The tokens of the value that starts at `j`.
pub open spec fn value_tokens(t: Seq<TokenView>, j: int) -> Seq<TokenView> {
    match value_end(t, j) {
        Some(e) => t.subrange(j, e),
        None => Seq::empty(),
    }
}

/// A number token.
pub open spec fn is_number(v: TokenView) -> bool {
    v is UInt || v is Int || v is F32 || v is F64
}

/// A value's shape fits the storage type it is projected as.
pub open spec fn storage_fits(storage: Seq<char>, raw: Seq<TokenView>) -> bool {
    if storage == "Double"@ {
        raw.len() > 0 && is_number(raw[0])
    } else if storage == "Integer"@ || storage == "ElementId"@ {
        raw.len() > 0 && as_i64(raw[0]) is Some
    } else if storage == "String"@ {
        raw.len() > 0 && raw[0] is Text
    } else {
        false
    }
}

/// The row a stored field of the object with fields `t` projects as;
/// none when the field is absent.
pub open spec fn field_row(
    t: Seq<TokenView>,
    source: usize,
    prefix: Seq<char>,
    field: Seq<char>,
    parameter_id: i64,
    storage: Seq<char>,
) -> Option<Result<RawFieldView, Seq<char>>> {
    match member(t, 0, field) {
        None => None,
        Some(j) => {
            let raw = if storage == "ElementId"@ {
                match identifier(t, Some(j)) {
                    Ok(n) => Ok(seq![TokenView::Int(n)]),
                    Err(e) => Err(e),
                }
            } else {
                Ok(value_tokens(t, j))
            };
            match raw {
                Err(e) => Some(Err(e)),
                Ok(raw) => if storage_fits(storage, raw) {
                    Some(
                        Ok(
                            RawFieldView {
                                parameter_id,
                                source_object: source,
                                source_field: prefix + field,
                                source_element_id: None,
                                projection_rule: "direct_saved_field"@,
                                storage_type: storage,
                                raw_value: raw,
                                value_semantics: "serialized_not_evaluated"@,
                            },
                        ),
                    )
                } else {
                    Some(Err("native field storage shape mismatch"@))
                },
            }
        },
    }
}

/// The rows of the listed fields an object stores, in list order; the
/// first refused field ends the projection.
pub open spec fn append_rows(
    t: Seq<TokenView>,
    source: usize,
    prefix: Seq<char>,
    fields: Seq<(Seq<char>, i64, Seq<char>)>,
) -> Result<Seq<RawFieldView>, Seq<char>>
    decreases fields.len(),
{
    if fields.len() == 0 {
        Ok(Seq::empty())
    } else {
        match append_rows(t, source, prefix, fields.drop_last()) {
            Err(e) => Err(e),
            Ok(rows) => {
                let f = fields.last();
                match field_row(t, source, prefix, f.0, f.1, f.2) {
                    None => Ok(rows),
                    Some(Err(e)) => Err(e),
                    Some(Ok(r)) => Ok(rows.push(r)),
                }
            },
        }
    }
}

/// A copy of the tokens of the value that starts at `j`.
pub fn value_tokens_exec(t: &[Token], j: usize) -> (r: Vec<Token>)
    ensures
        tokens_view(r@) == value_tokens(tokens_view(t@), j as int),
{
    let ghost tv = tokens_view(t@);
    let len = t.len();
    proof {
        lemma_value_end_after(tv, j as int);
        assert(tv.len() == len);
    }
    let mut out: Vec<Token> = Vec::new();
    match value_end_exec(t, j) {
        None => {
            proof {
                assert(tokens_view(out@) =~= Seq::<TokenView>::empty());
            }
            out
        },
        Some(e) => {
            proof {
                assert(tv.len() == t@.len());
                assert(tokens_view(out@) =~= tv.subrange(j as int, j as int));
            }
            let mut k = j;
            while k < e
                invariant
                    j <= k <= e <= t@.len(),
                    tv == tokens_view(t@),
                    tokens_view(out@) == tv.subrange(j as int, k as int),
                decreases e - k,
            {
                let ghost before = out@;
                proof {
                    assert(tv[k as int] == t@[k as int]@);
                }
                out.push(t[k].clone_token());
                proof {
                    assert(tokens_view(out@) =~= tokens_view(before).push(t@[k as int]@));
                    assert(tokens_view(out@) =~= tv.subrange(j as int, k + 1));
                }
                k += 1;
            }
            out
        },
    }
}

/// The position of the member `key` of the object at `o`.
pub fn member_pos(t: &[Token], o: usize, key: &str) -> (r: Option<usize>)
    ensures
        opt_pos(r) == member(tokens_view(t@), o as int, key@),
        r matches Some(j) ==> o < j < t@.len(),
{
    proof {
        lemma_member_from_in_bounds(tokens_view(t@), o + 1, key@);
    }
    let pos = member_exec(t, o, key);
    let len = t.len();
    proof {
        let m = member(tokens_view(t@), o as int, key@);
        if let Some(j) = m {
            assert(m == member_from(tokens_view(t@), o + 1, key@));
            assert(o + 1 < j < len);
        }
    }
    pos
}

/// The position of the stored field `key` of the object with fields `t`.
pub fn field_pos(t: &[Token], key: &str) -> (r: Option<usize>)
    ensures
        opt_pos(r) == member(tokens_view(t@), 0, key@),
        r matches Some(j) ==> j < t@.len(),
{
    member_pos(t, 0, key)
}

/// Whether a value fits the storage type it is projected as.
fn storage_fits_exec(storage: &str, raw: &[Token]) -> (r: bool)
    ensures
        r == storage_fits(storage@, tokens_view(raw@)),
{
    if raw.len() == 0 {
        return false;
    }
    let ghost rv = tokens_view(raw@);
    proof {
        assert(rv[0] == raw@[0]@);
    }
    if str_eq(storage, "Double") {
        match &raw[0] {
            Token::UInt(_) | Token::Int(_) | Token::F32(_) | Token::F64(_) => true,
            _ => false,
        }
    } else if str_eq(storage, "Integer") || str_eq(storage, "ElementId") {
        match &raw[0] {
            Token::UInt(n) => *n <= i64::MAX as u64,
            Token::Int(_) => true,
            _ => false,
        }
    } else if str_eq(storage, "String") {
        match &raw[0] {
            Token::Text(_) => true,
            _ => false,
        }
    } else {
        false
    }
}

/// The rows of the listed fields the object with fields `t` stores.
pub fn append_fields(t: &[Token], source: usize, prefix: &str, fields: &[(&str, i64, &str)]) -> (r:
    Result<Vec<RawFieldParameter>, String>)
    ensures
        rows_outcome(r, append_rows(tokens_view(t@), source, prefix@, fields_view(fields@))),
{
    let ghost tv = tokens_view(t@);
    let ghost fv = fields_view(fields@);
    let mut rows: Vec<RawFieldParameter> = Vec::new();
    proof {
        assert(fv.take(0) =~= Seq::<(Seq<char>, i64, Seq<char>)>::empty());
        assert(rows_view(rows@) =~= Seq::<RawFieldView>::empty());
    }
    let mut i: usize = 0;
    while i < fields.len()
        invariant
            i <= fields@.len(),
            tv == tokens_view(t@),
            fv == fields_view(fields@),
            append_rows(tv, source, prefix@, fv.take(i as int)) == Ok::<
                Seq<RawFieldView>,
                Seq<char>,
            >(rows_view(rows@)),
        decreases fields@.len() - i,
    {
        proof {
            assert(fv.take(i + 1).drop_last() =~= fv.take(i as int));
            assert(fv.take(i + 1).last() == fv[i as int]);
        }
        let (field, parameter_id, storage) = fields[i];
        match field_pos(t, field) {
            None => {},
            Some(j) => {
                let raw = if str_eq(storage, "ElementId") {
                    match identifier_exec(t, Some(j)) {
                        Ok(n) => {
                            let v = vec![Token::Int(n)];
                            proof {
                                assert(tokens_view(v@) =~= seq![TokenView::Int(n)]);
                            }
                            v
                        },
                        Err(e) => {
                            proof {
                                lemma_append_rows_err(tv, source, prefix@, fv, i as int + 1);
                            }
                            return Err(e);
                        },
                    }
                } else {
                    value_tokens_exec(t, j)
                };
                if !storage_fits_exec(storage, raw.as_slice()) {
                    proof {
                        lemma_append_rows_err(tv, source, prefix@, fv, i as int + 1);
                    }
                    return Err(text_of("native field storage shape mismatch"));
                }
                let row = RawFieldParameter {
                    parameter_id,
                    source_object: source,
                    source_field: concat(text_of(prefix), field),
                    source_element_id: None,
                    projection_rule: "direct_saved_field",
                    storage_type: text_of(storage),
                    raw_value: raw,
                    value_semantics: "serialized_not_evaluated",
                };
                let ghost before = rows@;
                rows.push(row);
                proof {
                    assert(rows_view(rows@) =~= rows_view(before).push(row@));
                }
            },
        }
        i += 1;
    }
    proof {
        assert(fv.take(fields@.len() as int) =~= fv);
    }
    Ok(rows)
}

/// A refusal among the first `n` listed fields is the projection's
/// refusal.
proof fn lemma_append_rows_err(
    t: Seq<TokenView>,
    source: usize,
    prefix: Seq<char>,
    fields: Seq<(Seq<char>, i64, Seq<char>)>,
    n: int,
)
    requires
        0 <= n <= fields.len(),
        append_rows(t, source, prefix, fields.take(n)) is Err,
    ensures
        append_rows(t, source, prefix, fields) == append_rows(t, source, prefix, fields.take(n)),
    decreases fields.len() - n,
{
    if n == fields.len() {
        assert(fields.take(n) =~= fields);
    } else {
        assert(fields.take(n + 1).drop_last() =~= fields.take(n));
        lemma_append_rows_err(t, source, prefix, fields, n + 1);
    }
}


/// A non-negative integer token as an unsigned number.
pub open spec fn as_u64(v: TokenView) -> Option<u64> {
    match v {
        TokenView::UInt(n) => Some(n),
        TokenView::Int(n) => if n >= 0 {
            Some(n as u64)
        } else {
            None
        },
        _ => None,
    }
}

/// The unsigned number under `key` in the object at `j`.
pub open spec fn member_u64(t: Seq<TokenView>, j: int, key: Seq<char>) -> Option<u64> {
    match member(t, j, key) {
        Some(k) => if 0 <= k < t.len() {
            as_u64(t[k])
        } else {
            None
        },
        None => None,
    }
}

/// The first edge from index `i` on that leaves `source` at `offset`.
pub open spec fn first_edge_from(es: Seq<GraphEdge>, i: int, source: usize, offset: u64) -> Option<int>
    decreases es.len() - i,
{
    if i < 0 || i >= es.len() {
        None
    } else if es[i].source_object_index == source && es[i].pointer_offset as int == offset as int {
        Some(i)
    } else {
        first_edge_from(es, i + 1, source, offset)
    }
}

/// The messages of a failed pointer resolution: offset absent, edge
/// absent, target outside the graph, target of another class.
pub struct PointerMessages {
    pub offset_absent: Seq<char>,
    pub edge_absent: Seq<char>,
    pub outside: Seq<char>,
    pub class_mismatch: Seq<char>,
}

/// The object the pointer value at `j` of object `owner` (with fields
/// `t`) refers to through an edge of the graph; none for an unset
/// pointer. The target must be of `class`.
pub open spec fn resolve_pointer(
    g: GraphView,
    owner: usize,
    t: Seq<TokenView>,
    j: int,
    class: Seq<char>,
    m: PointerMessages,
) -> Result<Option<usize>, Seq<char>> {
    if member_u64(t, j, "pointer_token"@) == Some(0u64) {
        Ok(None)
    } else {
        match member_u64(t, j, "offset"@) {
            None => Err(m.offset_absent),
            Some(off) => match first_edge_from(g.edges, 0, owner, off) {
                None => Err(m.edge_absent),
                Some(k) => {
                    let target = g.edges[k].target_object_index;
                    if target >= g.objects.len() {
                        Err(m.outside)
                    } else if g.objects[target as int].class_name != class {
                        Err(m.class_mismatch)
                    } else {
                        Ok(Some(target))
                    }
                },
            },
        }
    }
}

/// The unsigned number under `key` in the object at `j`.
pub fn member_u64_exec(t: &[Token], j: usize, key: &str) -> (r: Option<u64>)
    ensures
        r == member_u64(tokens_view(t@), j as int, key@),
{
    let ghost tv = tokens_view(t@);
    proof {
        lemma_member_from_in_bounds(tv, j + 1, key@);
    }
    match member_exec(t, j, key) {
        Some(k) => {
            proof {
                assert(tv[k as int] == t@[k as int]@);
            }
            match &t[k] {
                Token::UInt(n) => Some(*n),
                Token::Int(n) => if *n >= 0 {
                    Some(*n as u64)
                } else {
                    None
                },
                _ => None,
            }
        },
        None => None,
    }
}

/// The index of the first edge that leaves `source` at `offset`.
pub fn first_edge(edges: &[GraphEdge], source: usize, offset: u64) -> (r: Option<usize>)
    ensures
        opt_pos(r) == first_edge_from(edges@, 0, source, offset),
        r matches Some(k) ==> k < edges@.len(),
{
    let mut i: usize = 0;
    while i < edges.len()
        invariant
            i <= edges@.len(),
            first_edge_from(edges@, 0, source, offset) == first_edge_from(edges@, i as int, source, offset),
        decreases edges@.len() - i,
    {
        if edges[i].source_object_index == source && edges[i].pointer_offset as u64 == offset {
            return Some(i);
        }
        i += 1;
    }
    None
}

/// The object a pointer value refers to through an edge of the graph.
pub fn resolve_pointer_exec(
    graph: &ObjectGraph,
    owner: usize,
    t: &[Token],
    j: usize,
    class: &str,
    offset_absent: &str,
    edge_absent: &str,
    outside: &str,
    class_mismatch: &str,
) -> (r: Result<Option<usize>, String>)
    ensures
        text_outcome(
            r,
            resolve_pointer(
                graph.view(),
                owner,
                tokens_view(t@),
                j as int,
                class@,
                PointerMessages {
                    offset_absent: offset_absent@,
                    edge_absent: edge_absent@,
                    outside: outside@,
                    class_mismatch: class_mismatch@,
                },
            ),
        ),
{
    if member_u64_exec(t, j, "pointer_token") == Some(0u64) {
        return Ok(None);
    }
    let off = match member_u64_exec(t, j, "offset") {
        Some(o) => o,
        None => return Err(text_of(offset_absent)),
    };
    let k = match first_edge(graph.edges.as_slice(), owner, off) {
        Some(k) => k,
        None => return Err(text_of(edge_absent)),
    };
    let target = graph.edges[k].target_object_index;
    if target >= graph.objects.len() {
        return Err(text_of(outside));
    }
    proof {
        assert(graph.view().objects[target as int] == graph.objects@[target as int]@);
    }
    if !str_eq(graph.objects[target].class_name.as_str(), class) {
        return Err(text_of(class_mismatch));
    }
    Ok(Some(target))
}


/// Rows of one stage, then rows of the next; the first refusal wins.
pub open spec fn then_rows(
    a: Result<Seq<RawFieldView>, Seq<char>>,
    b: Result<Seq<RawFieldView>, Seq<char>>,
) -> Result<Seq<RawFieldView>, Seq<char>> {
    match a {
        Err(e) => Err(e),
        Ok(x) => match b {
            Err(e) => Err(e),
            Ok(y) => Ok(x + y),
        },
    }
}

/// An optional row as rows.
pub open spec fn opt_rows(o: Option<Result<RawFieldView, Seq<char>>>) -> Result<
    Seq<RawFieldView>,
    Seq<char>,
> {
    match o {
        None => Ok(Seq::empty()),
        Some(Err(e)) => Err(e),
        Some(Ok(r)) => Ok(seq![r]),
    }
}

/// The element-id fields every decoded root may store directly, by class.
pub open spec fn direct_fields(class: Seq<char>) -> Seq<(Seq<char>, i64, Seq<char>)> {
    let category = if class == "FamilyInstance"@ || spec_is_family_symbol_class(class) {
        seq![("m_categoryId"@, -1140362i64, "ElementId"@), ("m_categoryId"@, -1140363i64, "ElementId"@)]
    } else {
        Seq::empty()
    };
    let phases = if class == "FamilyInstance"@ || class == "RbsPipeCurve"@ || class == "SWall"@ {
        seq![
            ("m_createdPhaseId"@, -1012100i64, "ElementId"@),
            ("m_demolishedPhaseId"@, -1012101i64, "ElementId"@),
        ]
    } else {
        Seq::empty()
    };
    let instance = if class == "FamilyInstance"@ {
        seq![
            ("m_masterSymbolId"@, -1002052i64, "ElementId"@),
            ("m_masterSymbolId"@, -1002051i64, "ElementId"@),
            ("m_masterSymbolId"@, -1002050i64, "ElementId"@),
            ("m_masterSymbolId"@, -1002000i64, "ElementId"@),
            ("m_assocLevelId"@, -1002062i64, "ElementId"@),
            ("m_assocLevelId"@, -1001352i64, "ElementId"@),
            ("m_hostId"@, -1002108i64, "ElementId"@),
        ]
    } else {
        Seq::empty()
    };
    category + seq![("m_designOptionId"@, -1013201i64, "ElementId"@)] + phases + instance
}

/// The element-id fields every decoded root may store directly, by class.
pub fn direct_fields_exec(class: &str) -> (r: Vec<(&'static str, i64, &'static str)>)
    ensures
        fields_view(r@) == direct_fields(class@),
{
    let mut v: Vec<(&'static str, i64, &'static str)> = Vec::new();
    if str_eq(class, "FamilyInstance") || is_family_symbol_definition_owner(class) {
        v.push(("m_categoryId", -1140362, "ElementId"));
        v.push(("m_categoryId", -1140363, "ElementId"));
    }
    v.push(("m_designOptionId", -1013201, "ElementId"));
    if str_eq(class, "FamilyInstance") || str_eq(class, "RbsPipeCurve") || str_eq(class, "SWall") {
        v.push(("m_createdPhaseId", -1012100, "ElementId"));
        v.push(("m_demolishedPhaseId", -1012101, "ElementId"));
    }
    if str_eq(class, "FamilyInstance") {
        v.push(("m_masterSymbolId", -1002052, "ElementId"));
        v.push(("m_masterSymbolId", -1002051, "ElementId"));
        v.push(("m_masterSymbolId", -1002050, "ElementId"));
        v.push(("m_masterSymbolId", -1002000, "ElementId"));
        v.push(("m_assocLevelId", -1002062, "ElementId"));
        v.push(("m_assocLevelId", -1001352, "ElementId"));
        v.push(("m_hostId", -1002108, "ElementId"));
    }
    proof {
        assert(fields_view(v@) =~= direct_fields(class@));
    }
    v
}

/// The row of a field whose saved shape must fit `storage`, with its own
/// refusal message.
pub open spec fn checked_row(
    t: Seq<TokenView>,
    field: Seq<char>,
    parameter_id: i64,
    storage: Seq<char>,
    msg: Seq<char>,
) -> Option<Result<RawFieldView, Seq<char>>> {
    match member(t, 0, field) {
        None => None,
        Some(j) => if storage_fits(storage, value_tokens(t, j)) {
            Some(
                Ok(
                    RawFieldView {
                        parameter_id,
                        source_object: 0,
                        source_field: field,
                        source_element_id: None,
                        projection_rule: "direct_saved_field"@,
                        storage_type: storage,
                        raw_value: value_tokens(t, j),
                        value_semantics: "serialized_not_evaluated"@,
                    },
                ),
            )
        } else {
            Some(Err(msg))
        },
    }
}

/// The element-id fields of an analytical member.
pub open spec fn analytical_ids() -> Seq<(Seq<char>, i64, Seq<char>)> {
    seq![
        ("m_lowestAssocLevel"@, -1155257i64, "ElementId"@),
        ("m_highestAssocLevel"@, -1155256i64, "ElementId"@),
        ("m_materialId"@, -1005500i64, "ElementId"@),
    ]
}

/// An analytical member's witnessed direct fields: its level and
/// material ids, its cross-section rotation and its structural role.
pub open spec fn analytical_rows(t: Seq<TokenView>) -> Result<Seq<RawFieldView>, Seq<char>> {
    then_rows(
        append_rows(t, 0, Seq::empty(), analytical_ids()),
        then_rows(
            opt_rows(
                checked_row(
                    t,
                    "m_crossSectionRotation"@,
                    -1013456i64,
                    "Double"@,
                    "cross-section rotation is not numeric"@,
                ),
            ),
            opt_rows(
                checked_row(t, "m_structuralRole"@, -1013453i64, "Integer"@, "structural role is not an integer"@),
            ),
        ),
    )
}

/// A saved fraction in `[0, 1]`; none when the value is no number.
/// Floating-point values are judged by their bits: the non-negative ones
/// order as their bits do, and negative zero lies in the range.
pub open spec fn fraction_in_range(v: TokenView) -> Option<bool> {
    match v {
        TokenView::UInt(n) => Some(n <= 1),
        TokenView::Int(n) => Some(0 <= n <= 1),
        TokenView::F64(b) => Some(b <= 0x3FF0_0000_0000_0000u64 || b == 0x8000_0000_0000_0000u64),
        TokenView::F32(b) => Some(b <= 0x3F80_0000u32 || b == 0x8000_0000u32),
        _ => None,
    }
}

/// The row of a material's normalized surface property, projected as
/// the nearest integer percent of the saved fraction.
pub open spec fn fraction_row(t: Seq<TokenView>, source: usize, field: Seq<char>, parameter_id: i64) -> Option<
    Result<RawFieldView, Seq<char>>,
> {
    match member(t, 0, field) {
        None => None,
        Some(j) => match (if 0 <= j < t.len() {
            fraction_in_range(t[j])
        } else {
            None
        }) {
            None => Some(Err("material normalized surface property is not numeric"@)),
            Some(false) => Some(Err("material normalized surface property outside range"@)),
            Some(true) => Some(
                Ok(
                    RawFieldView {
                        parameter_id,
                        source_object: source,
                        source_field: "m_pMaterial."@ + field,
                        source_element_id: None,
                        projection_rule: "normalized_fraction_to_nearest_integer_percent"@,
                        storage_type: "Integer"@,
                        raw_value: value_tokens(t, j),
                        value_semantics: "serialized_not_evaluated"@,
                    },
                ),
            ),
        },
    }
}

/// The fields of a material reached from its owner.
pub open spec fn material_fields() -> Seq<(Seq<char>, i64, Seq<char>)> {
    seq![
        ("m_name"@, -1140355i64, "String"@),
        ("m_color"@, -1002550i64, "Integer"@),
        ("m_shininess"@, -1002554i64, "Integer"@),
    ]
}

/// A material element's rows, read from the material its `m_pMaterial`
/// pointer reaches.
pub open spec fn material_rows(g: GraphView) -> Result<Seq<RawFieldView>, Seq<char>> {
    let t = g.objects[0].fields;
    match member(t, 0, "m_pMaterial"@) {
        None => Ok(Seq::empty()),
        Some(j) => match resolve_pointer(
            g,
            0,
            t,
            j,
            "Material"@,
            PointerMessages {
                offset_absent: "material pointer offset absent"@,
                edge_absent: "material edge absent"@,
                outside: "material outside graph"@,
                class_mismatch: "material target class mismatch"@,
            },
        ) {
            Err(e) => Err(e),
            Ok(None) => Ok(Seq::empty()),
            Ok(Some(m)) => {
                let tm = g.objects[m as int].fields;
                then_rows(
                    append_rows(tm, m, "m_pMaterial."@, material_fields()),
                    then_rows(
                        opt_rows(fraction_row(tm, m, "m_transparency"@, -1002551i64)),
                        opt_rows(fraction_row(tm, m, "m_smoothness"@, -1002553i64)),
                    ),
                )
            },
        },
    }
}

/// The witnessed fields of HVAC load types, analytical members and parts.
pub open spec fn typed_fields(class: Seq<char>) -> Seq<(Seq<char>, i64, Seq<char>)> {
    if class == "HVACLoadSpaceTypeElem"@ {
        seq![
            ("m_idOccupancySchedule"@, -1114349i64, "ElementId"@),
            ("m_heatingSetPoint"@, -1114708i64, "Double"@),
            ("m_coolingSetPoint"@, -1114709i64, "Double"@),
            ("m_LightingLoadDensity"@, -1114220i64, "Double"@),
            ("m_dAreaPerPerson"@, -1114175i64, "Double"@),
            ("m_PowerLoadDensity"@, -1114219i64, "Double"@),
            ("m_dLatentHeatGainPerPerson"@, -1114189i64, "Double"@),
            ("m_dOutdoorAirPerPerson"@, -1154665i64, "Double"@),
        ]
    } else if class == "HVACLoadBuildingTypeElem"@ {
        seq![
            ("m_idOccupancySchedule"@, -1114349i64, "ElementId"@),
            ("m_LightingLoadDensity"@, -1114220i64, "Double"@),
            ("m_dAreaPerPerson"@, -1114175i64, "Double"@),
            ("m_PowerLoadDensity"@, -1114219i64, "Double"@),
            ("m_strEquipmentStartTime"@, -1114355i64, "String"@),
            ("m_strEquipmentEndTime"@, -1114356i64, "String"@),
        ]
    } else if class == "AnalyticalMember"@ {
        seq![("m_sectionType"@, -1009533i64, "ElementId"@)]
    } else if class == "DPart"@ {
        seq![("m_assocLevelId"@, -1152335i64, "ElementId"@)]
    } else {
        Seq::empty()
    }
}

/// The fields of a pipe curve.
pub open spec fn pipe_fields() -> Seq<(Seq<char>, i64, Seq<char>)> {
    seq![
        ("m_dWidthOrDiameter"@, -1140225i64, "Double"@),
        ("m_assocLevelId"@, -1114000i64, "ElementId"@),
        ("m_idType"@, -1002000i64, "ElementId"@),
        ("m_dOffsetStart"@, -1114002i64, "Double"@),
        ("m_dOffsetEnd"@, -1114003i64, "Double"@),
    ]
}

/// The fields of a pipe's design property manager.
pub open spec fn pipe_manager_fields() -> Seq<(Seq<char>, i64, Seq<char>)> {
    seq![
        ("m_dFlow"@, -1140213i64, "Double"@),
        ("m_dFriction"@, -1140206i64, "Double"@),
        ("m_dFrictionFactor"@, -1140208i64, "Double"@),
        ("m_dInnerDiameter"@, -1140212i64, "Double"@),
        ("m_dOuterDiameter"@, -1140238i64, "Double"@),
        ("m_dPressureDrop"@, -1140205i64, "Double"@),
        ("m_dReynoldsNumber"@, -1140211i64, "Double"@),
        ("m_dVelocity"@, -1140207i64, "Double"@),
        ("m_dVelocityPressure"@, -1140285i64, "Double"@),
        ("m_idSystemType"@, -1140334i64, "ElementId"@),
        ("m_kFlowState"@, -1140209i64, "Integer"@),
        ("m_sOverallSize"@, -1150434i64, "String"@),
        ("m_sCalculatedSize"@, -1114240i64, "String"@),
    ]
}

/// A pipe curve's rows: its own fields, then those of the design
/// property manager its `m_pDesignPropManager` pointer reaches.
pub open spec fn pipe_rows(g: GraphView) -> Result<Seq<RawFieldView>, Seq<char>> {
    let t = g.objects[0].fields;
    then_rows(
        append_rows(t, 0, Seq::empty(), pipe_fields()),
        match member(t, 0, "m_pDesignPropManager"@) {
            None => Ok(Seq::empty()),
            Some(j) => match resolve_pointer(
                g,
                0,
                t,
                j,
                "PipeDomainDesignPropertyManager"@,
                PointerMessages {
                    offset_absent: "pipe property pointer offset absent"@,
                    edge_absent: "pipe property manager edge absent"@,
                    outside: "pipe property manager outside graph"@,
                    class_mismatch: "pipe property manager class mismatch"@,
                },
            ) {
                Err(e) => Err(e),
                Ok(None) => Ok(Seq::empty()),
                Ok(Some(m)) => append_rows(
                    g.objects[m as int].fields,
                    m,
                    "m_pDesignPropManager."@,
                    pipe_manager_fields(),
                ),
            },
        },
    )
}

/// Every row a root projects before its symbol information, in order:
/// direct fields, analytical member fields, material fields, typed
/// fields, pipe fields.
pub open spec fn field_rows(g: GraphView) -> Result<Seq<RawFieldView>, Seq<char>> {
    let c = g.objects[0].class_name;
    let t = g.objects[0].fields;
    then_rows(
        append_rows(t, 0, Seq::empty(), direct_fields(c)),
        then_rows(
            if c == "AnalyticalMember"@ {
                analytical_rows(t)
            } else {
                Ok(Seq::empty())
            },
            then_rows(
                if c == "MaterialElem"@ {
                    material_rows(g)
                } else {
                    Ok(Seq::empty())
                },
                then_rows(
                    append_rows(t, 0, Seq::empty(), typed_fields(c)),
                    if c == "RbsPipeCurve"@ {
                        pipe_rows(g)
                    } else {
                        Ok(Seq::empty())
                    },
                ),
            ),
        ),
    )
}


proof fn lemma_rows_view_add(a: Seq<RawFieldParameter>, b: Seq<RawFieldParameter>)
    ensures
        rows_view(a + b) == rows_view(a) + rows_view(b),
{
    assert(rows_view(a + b) =~= rows_view(a) + rows_view(b));
}

/// Rows of one stage followed by those of the next.
fn extend_rows(rows: &mut Vec<RawFieldParameter>, more: Vec<RawFieldParameter>)
    ensures
        rows_view(final(rows)@) == rows_view(old(rows)@) + rows_view(more@),
{
    let mut more = more;
    let ghost a = rows@;
    let ghost b = more@;
    rows.append(&mut more);
    proof {
        lemma_rows_view_add(a, b);
    }
}

/// The row of a field whose saved shape must fit `storage`.
fn checked_row_exec(t: &[Token], field: &str, parameter_id: i64, storage: &str, msg: &str) -> (r: Result<
    Vec<RawFieldParameter>,
    String,
>)
    ensures
        rows_outcome(r, opt_rows(checked_row(tokens_view(t@), field@, parameter_id, storage@, msg@))),
{
    let mut rows: Vec<RawFieldParameter> = Vec::new();
    match field_pos(t, field) {
        None => {
            proof {
                assert(rows_view(rows@) =~= Seq::<RawFieldView>::empty());
            }
            Ok(rows)
        },
        Some(j) => {
            let raw = value_tokens_exec(t, j);
            if !storage_fits_exec(storage, raw.as_slice()) {
                return Err(text_of(msg));
            }
            let row = RawFieldParameter {
                parameter_id,
                source_object: 0,
                source_field: text_of(field),
                source_element_id: None,
                projection_rule: "direct_saved_field",
                storage_type: text_of(storage),
                raw_value: raw,
                value_semantics: "serialized_not_evaluated",
            };
            rows.push(row);
            proof {
                assert(rows_view(rows@) =~= seq![row@]);
            }
            Ok(rows)
        },
    }
}

/// An analytical member's witnessed direct fields.
fn analytical_rows_exec(t: &[Token]) -> (r: Result<Vec<RawFieldParameter>, String>)
    ensures
        rows_outcome(r, analytical_rows(tokens_view(t@))),
{
    let mut ids: Vec<(&'static str, i64, &'static str)> = Vec::new();
    ids.push(("m_lowestAssocLevel", -1155257, "ElementId"));
    ids.push(("m_highestAssocLevel", -1155256, "ElementId"));
    ids.push(("m_materialId", -1005500, "ElementId"));
    proof {
        assert(fields_view(ids@) =~= analytical_ids());
        lemma_empty_text();
    }
    let mut rows = match append_fields(t, 0, "", ids.as_slice()) {
        Ok(r) => r,
        Err(e) => return Err(e),
    };
    let rotation = match checked_row_exec(
        t,
        "m_crossSectionRotation",
        -1013456,
        "Double",
        "cross-section rotation is not numeric",
    ) {
        Ok(r) => r,
        Err(e) => return Err(e),
    };
    let role = match checked_row_exec(
        t,
        "m_structuralRole",
        -1013453,
        "Integer",
        "structural role is not an integer",
    ) {
        Ok(r) => r,
        Err(e) => return Err(e),
    };
    let ghost (a, b, c) = (rows_view(rows@), rows_view(rotation@), rows_view(role@));
    extend_rows(&mut rows, rotation);
    extend_rows(&mut rows, role);
    proof {
        assert(a + b + c =~= a + (b + c));
    }
    Ok(rows)
}


/// The row of a material's normalized surface property.
fn fraction_row_exec(t: &[Token], source: usize, field: &str, parameter_id: i64) -> (r: Result<
    Vec<RawFieldParameter>,
    String,
>)
    ensures
        rows_outcome(r, opt_rows(fraction_row(tokens_view(t@), source, field@, parameter_id))),
{
    let ghost tv = tokens_view(t@);
    let mut rows: Vec<RawFieldParameter> = Vec::new();
    match field_pos(t, field) {
        None => {
            proof {
                assert(rows_view(rows@) =~= Seq::<RawFieldView>::empty());
            }
            Ok(rows)
        },
        Some(j) => {
            proof {
                assert(tv[j as int] == t@[j as int]@);
            }
            let in_range = match &t[j] {
                Token::UInt(n) => *n <= 1,
                Token::Int(n) => 0 <= *n && *n <= 1,
                Token::F64(b) => *b <= 0x3FF0_0000_0000_0000u64 || *b == 0x8000_0000_0000_0000u64,
                Token::F32(b) => *b <= 0x3F80_0000u32 || *b == 0x8000_0000u32,
                _ => {
                    return Err(text_of("material normalized surface property is not numeric"));
                },
            };
            if !in_range {
                return Err(text_of("material normalized surface property outside range"));
            }
            let row = RawFieldParameter {
                parameter_id,
                source_object: source,
                source_field: concat(text_of("m_pMaterial."), field),
                source_element_id: None,
                projection_rule: "normalized_fraction_to_nearest_integer_percent",
                storage_type: text_of("Integer"),
                raw_value: value_tokens_exec(t, j),
                value_semantics: "serialized_not_evaluated",
            };
            rows.push(row);
            proof {
                assert(rows_view(rows@) =~= seq![row@]);
            }
            Ok(rows)
        },
    }
}

/// The empty text is the empty sequence.
proof fn lemma_empty_text()
    ensures
        ""@ == Seq::<char>::empty(),
{
    reveal_strlit("");
    assert(""@ =~= Seq::<char>::empty());
}

/// A material element's rows.
fn material_rows_exec(graph: &ObjectGraph) -> (r: Result<Vec<RawFieldParameter>, String>)
    requires
        graph.objects@.len() > 0,
    ensures
        rows_outcome(r, material_rows(graph.view())),
{
    let ghost g = graph.view();
    proof {
        assert(g.objects[0] == graph.objects@[0]@);
    }
    let t = graph.objects[0].fields.as_slice();
    let empty: Vec<RawFieldParameter> = Vec::new();
    proof {
        assert(rows_view(empty@) =~= Seq::<RawFieldView>::empty());
    }
    let j = match field_pos(t, "m_pMaterial") {
        None => return Ok(empty),
        Some(j) => j,
    };
    let m = match resolve_pointer_exec(
        graph,
        0,
        t,
        j,
        "Material",
        "material pointer offset absent",
        "material edge absent",
        "material outside graph",
        "material target class mismatch",
    ) {
        Err(e) => return Err(e),
        Ok(None) => return Ok(empty),
        Ok(Some(m)) => m,
    };
    proof {
        assert(g.objects[m as int] == graph.objects@[m as int]@);
    }
    let tm = graph.objects[m].fields.as_slice();
    let mut fields: Vec<(&'static str, i64, &'static str)> = Vec::new();
    fields.push(("m_name", -1140355, "String"));
    fields.push(("m_color", -1002550, "Integer"));
    fields.push(("m_shininess", -1002554, "Integer"));
    proof {
        assert(fields_view(fields@) =~= material_fields());
    }
    let mut rows = match append_fields(tm, m, "m_pMaterial.", fields.as_slice()) {
        Ok(r) => r,
        Err(e) => return Err(e),
    };
    let transparency = match fraction_row_exec(tm, m, "m_transparency", -1002551) {
        Ok(r) => r,
        Err(e) => return Err(e),
    };
    let smoothness = match fraction_row_exec(tm, m, "m_smoothness", -1002553) {
        Ok(r) => r,
        Err(e) => return Err(e),
    };
    let ghost (a, b, c) = (rows_view(rows@), rows_view(transparency@), rows_view(smoothness@));
    extend_rows(&mut rows, transparency);
    extend_rows(&mut rows, smoothness);
    proof {
        assert(a + b + c =~= a + (b + c));
    }
    Ok(rows)
}

/// The witnessed fields of HVAC load types, analytical members and parts.
fn typed_fields_exec(class: &str) -> (r: Vec<(&'static str, i64, &'static str)>)
    ensures
        fields_view(r@) == typed_fields(class@),
{
    let mut v: Vec<(&'static str, i64, &'static str)> = Vec::new();
    if str_eq(class, "HVACLoadSpaceTypeElem") {
        v.push(("m_idOccupancySchedule", -1114349, "ElementId"));
        v.push(("m_heatingSetPoint", -1114708, "Double"));
        v.push(("m_coolingSetPoint", -1114709, "Double"));
        v.push(("m_LightingLoadDensity", -1114220, "Double"));
        v.push(("m_dAreaPerPerson", -1114175, "Double"));
        v.push(("m_PowerLoadDensity", -1114219, "Double"));
        v.push(("m_dLatentHeatGainPerPerson", -1114189, "Double"));
        v.push(("m_dOutdoorAirPerPerson", -1154665, "Double"));
    } else if str_eq(class, "HVACLoadBuildingTypeElem") {
        v.push(("m_idOccupancySchedule", -1114349, "ElementId"));
        v.push(("m_LightingLoadDensity", -1114220, "Double"));
        v.push(("m_dAreaPerPerson", -1114175, "Double"));
        v.push(("m_PowerLoadDensity", -1114219, "Double"));
        v.push(("m_strEquipmentStartTime", -1114355, "String"));
        v.push(("m_strEquipmentEndTime", -1114356, "String"));
    } else if str_eq(class, "AnalyticalMember") {
        v.push(("m_sectionType", -1009533, "ElementId"));
    } else if str_eq(class, "DPart") {
        v.push(("m_assocLevelId", -1152335, "ElementId"));
    }
    proof {
        assert(fields_view(v@) =~= typed_fields(class@));
    }
    v
}

/// A pipe curve's rows.
fn pipe_rows_exec(graph: &ObjectGraph) -> (r: Result<Vec<RawFieldParameter>, String>)
    requires
        graph.objects@.len() > 0,
    ensures
        rows_outcome(r, pipe_rows(graph.view())),
{
    let ghost g = graph.view();
    proof {
        assert(g.objects[0] == graph.objects@[0]@);
        lemma_empty_text();
    }
    let t = graph.objects[0].fields.as_slice();
    let mut own: Vec<(&'static str, i64, &'static str)> = Vec::new();
    own.push(("m_dWidthOrDiameter", -1140225, "Double"));
    own.push(("m_assocLevelId", -1114000, "ElementId"));
    own.push(("m_idType", -1002000, "ElementId"));
    own.push(("m_dOffsetStart", -1114002, "Double"));
    own.push(("m_dOffsetEnd", -1114003, "Double"));
    proof {
        assert(fields_view(own@) =~= pipe_fields());
    }
    let mut rows = match append_fields(t, 0, "", own.as_slice()) {
        Ok(r) => r,
        Err(e) => return Err(e),
    };
    let ghost a = rows_view(rows@);
    let j = match field_pos(t, "m_pDesignPropManager") {
        None => {
            proof {
                assert(a + Seq::<RawFieldView>::empty() =~= a);
            }
            return Ok(rows);
        },
        Some(j) => j,
    };
    let m = match resolve_pointer_exec(
        graph,
        0,
        t,
        j,
        "PipeDomainDesignPropertyManager",
        "pipe property pointer offset absent",
        "pipe property manager edge absent",
        "pipe property manager outside graph",
        "pipe property manager class mismatch",
    ) {
        Err(e) => return Err(e),
        Ok(None) => {
            proof {
                assert(a + Seq::<RawFieldView>::empty() =~= a);
            }
            return Ok(rows);
        },
        Ok(Some(m)) => m,
    };
    proof {
        assert(g.objects[m as int] == graph.objects@[m as int]@);
    }
    let mut manager: Vec<(&'static str, i64, &'static str)> = Vec::new();
    manager.push(("m_dFlow", -1140213, "Double"));
    manager.push(("m_dFriction", -1140206, "Double"));
    manager.push(("m_dFrictionFactor", -1140208, "Double"));
    manager.push(("m_dInnerDiameter", -1140212, "Double"));
    manager.push(("m_dOuterDiameter", -1140238, "Double"));
    manager.push(("m_dPressureDrop", -1140205, "Double"));
    manager.push(("m_dReynoldsNumber", -1140211, "Double"));
    manager.push(("m_dVelocity", -1140207, "Double"));
    manager.push(("m_dVelocityPressure", -1140285, "Double"));
    manager.push(("m_idSystemType", -1140334, "ElementId"));
    manager.push(("m_kFlowState", -1140209, "Integer"));
    manager.push(("m_sOverallSize", -1150434, "String"));
    manager.push(("m_sCalculatedSize", -1114240, "String"));
    proof {
        assert(fields_view(manager@) =~= pipe_manager_fields());
    }
    let more = match append_fields(
        graph.objects[m].fields.as_slice(),
        m,
        "m_pDesignPropManager.",
        manager.as_slice(),
    ) {
        Ok(r) => r,
        Err(e) => return Err(e),
    };
    extend_rows(&mut rows, more);
    Ok(rows)
}

/// Every row a root projects before its symbol information.
fn field_rows_exec(graph: &ObjectGraph) -> (r: Result<Vec<RawFieldParameter>, String>)
    requires
        graph.objects@.len() > 0,
    ensures
        rows_outcome(r, field_rows(graph.view())),
{
    let ghost g = graph.view();
    proof {
        assert(g.objects[0] == graph.objects@[0]@);
        lemma_empty_text();
    }
    let c = graph.objects[0].class_name.as_str();
    let t = graph.objects[0].fields.as_slice();
    let direct = direct_fields_exec(c);
    let mut rows = match append_fields(t, 0, "", direct.as_slice()) {
        Ok(r) => r,
        Err(e) => return Err(e),
    };
    let analytical = if str_eq(c, "AnalyticalMember") {
        match analytical_rows_exec(t) {
            Ok(r) => r,
            Err(e) => return Err(e),
        }
    } else {
        Vec::new()
    };
    let material = if str_eq(c, "MaterialElem") {
        match material_rows_exec(graph) {
            Ok(r) => r,
            Err(e) => return Err(e),
        }
    } else {
        Vec::new()
    };
    let typed_list = typed_fields_exec(c);
    let typed = match append_fields(t, 0, "", typed_list.as_slice()) {
        Ok(r) => r,
        Err(e) => return Err(e),
    };
    let pipe = if str_eq(c, "RbsPipeCurve") {
        match pipe_rows_exec(graph) {
            Ok(r) => r,
            Err(e) => return Err(e),
        }
    } else {
        Vec::new()
    };
    let ghost (a, b, m, ty, p) = (
        rows_view(rows@),
        rows_view(analytical@),
        rows_view(material@),
        rows_view(typed@),
        rows_view(pipe@),
    );
    proof {
        if !(c@ == "AnalyticalMember"@) {
            assert(b =~= Seq::<RawFieldView>::empty());
        }
        if !(c@ == "MaterialElem"@) {
            assert(m =~= Seq::<RawFieldView>::empty());
        }
        if !(c@ == "RbsPipeCurve"@) {
            assert(p =~= Seq::<RawFieldView>::empty());
        }
    }
    extend_rows(&mut rows, analytical);
    extend_rows(&mut rows, material);
    extend_rows(&mut rows, typed);
    extend_rows(&mut rows, pipe);
    proof {
        assert(a + b + m + ty + p =~= a + (b + (m + (ty + p))));
    }
    Ok(rows)
}


/// The root fields kept as element references, in the order they are read.
pub open spec fn reference_fields() -> Seq<Seq<char>> {
    seq![
        "m_masterSymbolId"@,
        "m_familyId"@,
        "m_assocLevelId"@,
        "m_hostId"@,
        "m_createdPhaseId"@,
        "m_demolishedPhaseId"@,
        "m_designOptionId"@,
    ]
}

/// The element references among `fields` a root stores, in order.
pub open spec fn references_from(t: Seq<TokenView>, fields: Seq<Seq<char>>) -> Result<
    Seq<(Seq<char>, i64)>,
    Seq<char>,
>
    decreases fields.len(),
{
    if fields.len() == 0 {
        Ok(Seq::empty())
    } else {
        match references_from(t, fields.drop_last()) {
            Err(e) => Err(e),
            Ok(r) => match member(t, 0, fields.last()) {
                None => Ok(r),
                Some(j) => match identifier(t, Some(j)) {
                    Err(e) => Err(e),
                    Ok(n) => Ok(r.push((fields.last(), n))),
                },
            },
        }
    }
}

/// Element references as plain values.
pub open spec fn refs_view(v: Seq<(String, i64)>) -> Seq<(Seq<char>, i64)> {
    v.map_values(|x: (String, i64)| (x.0@, x.1))
}

proof fn lemma_references_err(t: Seq<TokenView>, fields: Seq<Seq<char>>, n: int)
    requires
        0 <= n <= fields.len(),
        references_from(t, fields.take(n)) is Err,
    ensures
        references_from(t, fields) == references_from(t, fields.take(n)),
    decreases fields.len() - n,
{
    if n == fields.len() {
        assert(fields.take(n) =~= fields);
    } else {
        assert(fields.take(n + 1).drop_last() =~= fields.take(n));
        lemma_references_err(t, fields, n + 1);
    }
}

/// The element references a root stores.
fn references_exec(t: &[Token]) -> (r: Result<Vec<(String, i64)>, String>)
    ensures
        match references_from(tokens_view(t@), reference_fields()) {
            Ok(v) => r is Ok && refs_view(r->Ok_0@) == v,
            Err(e) => r is Err && r->Err_0@ == e,
        },
{
    let ghost tv = tokens_view(t@);
    let mut fields: Vec<&'static str> = Vec::new();
    fields.push("m_masterSymbolId");
    fields.push("m_familyId");
    fields.push("m_assocLevelId");
    fields.push("m_hostId");
    fields.push("m_createdPhaseId");
    fields.push("m_demolishedPhaseId");
    fields.push("m_designOptionId");
    let ghost fv = fields@.map_values(|f: &str| f@);
    proof {
        assert(fv =~= reference_fields());
        assert(fv.take(0) =~= Seq::<Seq<char>>::empty());
    }
    let mut refs: Vec<(String, i64)> = Vec::new();
    proof {
        assert(refs_view(refs@) =~= Seq::<(Seq<char>, i64)>::empty());
    }
    let mut i: usize = 0;
    while i < fields.len()
        invariant
            i <= fields@.len(),
            tv == tokens_view(t@),
            fv == fields@.map_values(|f: &str| f@),
            fv == reference_fields(),
            references_from(tv, fv.take(i as int)) == Ok::<Seq<(Seq<char>, i64)>, Seq<char>>(
                refs_view(refs@),
            ),
        decreases fields@.len() - i,
    {
        proof {
            assert(fv.take(i + 1).drop_last() =~= fv.take(i as int));
            assert(fv.take(i + 1).last() == fields@[i as int]@);
        }
        let field = fields[i];
        match field_pos(t, field) {
            None => {},
            Some(j) => match identifier_exec(t, Some(j)) {
                Ok(n) => {
                    let ghost before = refs@;
                    refs.push((text_of(field), n));
                    proof {
                        assert(refs_view(refs@) =~= refs_view(before).push((field@, n)));
                    }
                },
                Err(e) => {
                    proof {
                        lemma_references_err(tv, fv, i + 1);
                    }
                    return Err(e);
                },
            },
        }
        i += 1;
    }
    proof {
        assert(fv.take(fields@.len() as int) =~= fv);
    }
    Ok(refs)
}

/// One saved parameter of a parameter set.
#[derive(Clone, Debug)]
pub struct Parameter {
    pub serialized_parameter_id: i64,
    pub storage_type: String,
    /// The saved value's tokens; an element id as one integer token.
    pub raw_value: Vec<Token>,
}

/// A saved parameter as plain values.
pub struct ParameterView {
    pub serialized_parameter_id: i64,
    pub storage_type: Seq<char>,
    pub raw_value: Seq<TokenView>,
}

impl Parameter {
    pub open spec fn view(&self) -> ParameterView {
        ParameterView {
            serialized_parameter_id: self.serialized_parameter_id,
            storage_type: self.storage_type@,
            raw_value: tokens_view(self.raw_value@),
        }
    }
}

/// Saved parameters as plain values.
pub open spec fn params_view(v: Seq<Parameter>) -> Seq<ParameterView> {
    v.map_values(|p: Parameter| p@)
}

/// The parameter set an owner's pointer field reaches.
#[derive(Clone, Debug)]
pub struct SavedParameterSet {
    pub source_object: usize,
    pub root_pointer_field: String,
    pub parameters: Vec<Parameter>,
}

/// A parameter set as plain values.
pub struct SetView {
    pub source_object: usize,
    pub root_pointer_field: Seq<char>,
    pub parameters: Seq<ParameterView>,
}

impl SavedParameterSet {
    pub open spec fn view(&self) -> SetView {
        SetView {
            source_object: self.source_object,
            root_pointer_field: self.root_pointer_field@,
            parameters: params_view(self.parameters@),
        }
    }
}

/// Parameter sets as plain values.
pub open spec fn sets_view(v: Seq<SavedParameterSet>) -> Seq<SetView> {
    v.map_values(|s: SavedParameterSet| s@)
}

/// The parameter the pair object at `p` saves, stored as `storage`: its
/// value must be present, its parameter id is read first, then an
/// element-id value.
pub open spec fn pair_param(t: Seq<TokenView>, p: int, storage: Seq<char>) -> Result<
    ParameterView,
    Seq<char>,
> {
    match member(t, p, "m_value"@) {
        None => Err("parameter value absent"@),
        Some(v) => match identifier(t, member(t, p, "m_paramId"@)) {
            Err(e) => Err(e),
            Ok(id) => if storage == "ElementId"@ {
                match identifier(t, Some(v)) {
                    Err(e) => Err(e),
                    Ok(n) => Ok(
                        ParameterView {
                            serialized_parameter_id: id,
                            storage_type: storage,
                            raw_value: seq![TokenView::Int(n)],
                        },
                    ),
                }
            } else {
                Ok(
                    ParameterView {
                        serialized_parameter_id: id,
                        storage_type: storage,
                        raw_value: value_tokens(t, v),
                    },
                )
            },
        },
    }
}

/// The parameters of the array elements from position `p` on; the first
/// refused pair ends the set.
pub open spec fn pairs_from(t: Seq<TokenView>, p: int, storage: Seq<char>) -> Result<
    Seq<ParameterView>,
    Seq<char>,
>
    decreases t.len() - p,
{
    if p < 0 || p >= t.len() || t[p] is EndArray {
        Ok(Seq::empty())
    } else {
        match value_end(t, p) {
            None => Ok(Seq::empty()),
            Some(e) => match pair_param(t, p, storage) {
                Err(er) => Err(er),
                Ok(x) => if p < e <= t.len() {
                    match pairs_from(t, e, storage) {
                        Err(er) => Err(er),
                        Ok(r) => Ok(seq![x] + r),
                    }
                } else {
                    Ok(seq![x])
                },
            },
        }
    }
}

/// Earlier elements, then what follows.
pub open spec fn prepend<A>(acc: Seq<A>, r: Result<Seq<A>, Seq<char>>) -> Result<Seq<A>, Seq<char>> {
    match r {
        Ok(s) => Ok(acc + s),
        Err(e) => Err(e),
    }
}

/// The parameter the pair object at `p` saves.
fn pair_param_exec(t: &[Token], p: usize, storage: &str) -> (r: Result<Parameter, String>)
    ensures
        match pair_param(tokens_view(t@), p as int, storage@) {
            Ok(v) => r is Ok && r->Ok_0@ == v,
            Err(e) => r is Err && r->Err_0@ == e,
        },
{
    let v = match member_pos(t, p, "m_value") {
        None => return Err(text_of("parameter value absent")),
        Some(v) => v,
    };
    let id = match identifier_exec(t, member_pos(t, p, "m_paramId")) {
        Ok(n) => n,
        Err(e) => return Err(e),
    };
    if str_eq(storage, "ElementId") {
        match identifier_exec(t, Some(v)) {
            Ok(n) => {
                let raw = vec![Token::Int(n)];
                proof {
                    assert(tokens_view(raw@) =~= seq![TokenView::Int(n)]);
                }
                Ok(Parameter { serialized_parameter_id: id, storage_type: text_of(storage), raw_value: raw })
            },
            Err(e) => Err(e),
        }
    } else {
        Ok(
            Parameter {
                serialized_parameter_id: id,
                storage_type: text_of(storage),
                raw_value: value_tokens_exec(t, v),
            },
        )
    }
}

/// The parameters of the array whose elements start at `p`.
fn pairs_exec(t: &[Token], p: usize, storage: &str) -> (r: Result<Vec<Parameter>, String>)
    ensures
        match pairs_from(tokens_view(t@), p as int, storage@) {
            Ok(v) => r is Ok && params_view(r->Ok_0@) == v,
            Err(e) => r is Err && r->Err_0@ == e,
        },
{
    let ghost tv = tokens_view(t@);
    let mut out: Vec<Parameter> = Vec::new();
    let mut q = p;
    proof {
        assert(params_view(out@) =~= Seq::<ParameterView>::empty());
        assert(prepend(Seq::<ParameterView>::empty(), pairs_from(tv, p as int, storage@)) == pairs_from(tv, p as int, storage@)) by {
            match pairs_from(tv, p as int, storage@) {
                Ok(s) => assert(Seq::<ParameterView>::empty() + s =~= s),
                Err(_) => {},
            }
        }
    }
    loop
        invariant
            tv == tokens_view(t@),
            p <= q,
            pairs_from(tv, p as int, storage@) == prepend(params_view(out@), pairs_from(tv, q as int, storage@)),
        decreases t@.len() - q,
    {
        let ghost acc = params_view(out@);
        if q >= t.len() {
            proof {
                assert(acc + Seq::<ParameterView>::empty() =~= acc);
            }
            return Ok(out);
        }
        proof {
            assert(tv[q as int] == t@[q as int]@);
            lemma_value_end_after(tv, q as int);
        }
        match &t[q] {
            Token::EndArray => {
                proof {
                    assert(acc + Seq::<ParameterView>::empty() =~= acc);
                }
                return Ok(out);
            },
            _ => {},
        }
        let e = match value_end_exec(t, q) {
            None => {
                proof {
                    assert(acc + Seq::<ParameterView>::empty() =~= acc);
                }
                return Ok(out);
            },
            Some(e) => e,
        };
        let x = match pair_param_exec(t, q, storage) {
            Ok(x) => x,
            Err(er) => return Err(er),
        };
        out.push(x);
        proof {
            assert(params_view(out@) =~= acc.push(x@));
            match pairs_from(tv, e as int, storage@) {
                Ok(r) => assert(acc + (seq![x@] + r) =~= acc.push(x@) + r),
                Err(_) => {},
            }
        }
        q = e;
    }
}


/// The parameter set an owner's pointer field reaches; none when the
/// field is absent or unset. The set's pairs must be an array.
pub open spec fn set_from(
    g: GraphView,
    owner: usize,
    prefix: Seq<char>,
    field: Seq<char>,
    class: Seq<char>,
    storage: Seq<char>,
) -> Result<Option<SetView>, Seq<char>> {
    let t = g.objects[owner as int].fields;
    match member(t, 0, field) {
        None => Ok(None),
        Some(j) => match resolve_pointer(
            g,
            owner,
            t,
            j,
            class,
            PointerMessages {
                offset_absent: "parameter pointer offset absent"@,
                edge_absent: "owner parameter edge absent"@,
                outside: "parameter edge target outside graph"@,
                class_mismatch: "owner parameter set class mismatch"@,
            },
        ) {
            Err(e) => Err(e),
            Ok(None) => Ok(None),
            Ok(Some(target)) => {
                let to = g.objects[target as int].fields;
                match member(to, 0, "m_paramSet"@) {
                    Some(a) => if 0 <= a < to.len() && to[a] is BeginArray {
                        match pairs_from(to, a + 1, storage) {
                            Err(e) => Err(e),
                            Ok(ps) => Ok(
                                Some(
                                    SetView {
                                        source_object: target,
                                        root_pointer_field: prefix + field,
                                        parameters: ps,
                                    },
                                ),
                            ),
                        }
                    } else {
                        Err("parameter pairs absent"@)
                    },
                    None => Err("parameter pairs absent"@),
                }
            },
        }
    }
}

/// The parameter sets an owner's listed pointer fields reach, in list
/// order.
pub open spec fn sets_in(
    g: GraphView,
    owner: usize,
    prefix: Seq<char>,
    list: Seq<(Seq<char>, Seq<char>, Seq<char>)>,
) -> Result<Seq<SetView>, Seq<char>>
    decreases list.len(),
{
    if list.len() == 0 {
        Ok(Seq::empty())
    } else {
        match sets_in(g, owner, prefix, list.drop_last()) {
            Err(e) => Err(e),
            Ok(r) => {
                let f = list.last();
                match set_from(g, owner, prefix, f.0, f.1, f.2) {
                    Err(e) => Err(e),
                    Ok(None) => Ok(r),
                    Ok(Some(x)) => Ok(r.push(x)),
                }
            },
        }
    }
}

/// The root's own parameter set fields: field, set class, storage.
pub open spec fn direct_sets() -> Seq<(Seq<char>, Seq<char>, Seq<char>)> {
    seq![
        ("m_pParamValueSetDouble"@, "ParamValueSetDouble"@, "Double"@),
        ("m_pParamValueSetInt"@, "ParamValueSetInt"@, "Integer"@),
        ("m_pParamValueSetAString"@, "ParamValueSetAString"@, "String"@),
        ("m_pParamValueSetElementId"@, "ParamValueSetElementId"@, "ElementId"@),
    ]
}

/// An asset parameter container's set fields.
pub open spec fn asset_sets() -> Seq<(Seq<char>, Seq<char>, Seq<char>)> {
    seq![
        ("m_pDoubleParams"@, "ParamValueSetDouble"@, "Double"@),
        ("m_pIntParams"@, "ParamValueSetInt"@, "Integer"@),
        ("m_pAStringParams"@, "ParamValueSetAString"@, "String"@),
        ("m_pElementIdParams"@, "ParamValueSetElementId"@, "ElementId"@),
    ]
}

/// The asset parameter container a property set element's `m_oParamSet`
/// pointer reaches.
pub open spec fn asset_container(g: GraphView) -> Result<Option<usize>, Seq<char>> {
    let t = g.objects[0].fields;
    if g.objects[0].class_name == "PropertySetElement"@ {
        match member(t, 0, "m_oParamSet"@) {
            None => Ok(None),
            Some(j) => resolve_pointer(
                g,
                0,
                t,
                j,
                "ParamSet"@,
                PointerMessages {
                    offset_absent: "asset parameter pointer offset absent"@,
                    edge_absent: "asset parameter set edge absent"@,
                    outside: "asset parameter set outside graph"@,
                    class_mismatch: "asset parameter container class mismatch"@,
                },
            ),
        }
    } else {
        Ok(None)
    }
}

/// The owner's saved parameter sets, reached only through explicit
/// edges: the root's own sets, then those of its asset container. The
/// container is resolved before any set is read.
pub open spec fn parameter_sets(g: GraphView) -> Result<Seq<SetView>, Seq<char>> {
    match asset_container(g) {
        Err(e) => Err(e),
        Ok(a) => match sets_in(g, 0, Seq::empty(), direct_sets()) {
            Err(e) => Err(e),
            Ok(s0) => match a {
                None => Ok(s0),
                Some(target) => match sets_in(g, target, "m_oParamSet."@, asset_sets()) {
                    Err(e) => Err(e),
                    Ok(s1) => Ok(s0 + s1),
                },
            },
        },
    }
}

/// A set field list as plain values.
pub open spec fn set_list_view(f: Seq<(&str, &str, &str)>) -> Seq<(Seq<char>, Seq<char>, Seq<char>)> {
    f.map_values(|x: (&str, &str, &str)| (x.0@, x.1@, x.2@))
}

/// The parameter set an owner's pointer field reaches.
fn set_from_exec(
    graph: &ObjectGraph,
    owner: usize,
    prefix: &str,
    field: &str,
    class: &str,
    storage: &str,
) -> (r: Result<Option<SavedParameterSet>, String>)
    requires
        owner < graph.objects@.len(),
    ensures
        match set_from(graph.view(), owner, prefix@, field@, class@, storage@) {
            Ok(None) => r == Ok::<Option<SavedParameterSet>, String>(None),
            Ok(Some(v)) => r matches Ok(Some(x)) && x@ == v,
            Err(e) => r is Err && r->Err_0@ == e,
        },
{
    let ghost g = graph.view();
    proof {
        assert(g.objects[owner as int] == graph.objects@[owner as int]@);
    }
    let t = graph.objects[owner].fields.as_slice();
    let j = match field_pos(t, field) {
        None => return Ok(None),
        Some(j) => j,
    };
    let target = match resolve_pointer_exec(
        graph,
        owner,
        t,
        j,
        class,
        "parameter pointer offset absent",
        "owner parameter edge absent",
        "parameter edge target outside graph",
        "owner parameter set class mismatch",
    ) {
        Err(e) => return Err(e),
        Ok(None) => return Ok(None),
        Ok(Some(target)) => target,
    };
    proof {
        assert(g.objects[target as int] == graph.objects@[target as int]@);
    }
    let to = graph.objects[target].fields.as_slice();
    let a = match field_pos(to, "m_paramSet") {
        None => return Err(text_of("parameter pairs absent")),
        Some(a) => a,
    };
    proof {
        assert(tokens_view(to@)[a as int] == to@[a as int]@);
    }
    match &to[a] {
        Token::BeginArray => {},
        _ => return Err(text_of("parameter pairs absent")),
    }
    let parameters = match pairs_exec(to, a + 1, storage) {
        Ok(ps) => ps,
        Err(e) => return Err(e),
    };
    Ok(
        Some(
            SavedParameterSet {
                source_object: target,
                root_pointer_field: concat(text_of(prefix), field),
                parameters,
            },
        ),
    )
}

proof fn lemma_sets_in_err(
    g: GraphView,
    owner: usize,
    prefix: Seq<char>,
    list: Seq<(Seq<char>, Seq<char>, Seq<char>)>,
    n: int,
)
    requires
        0 <= n <= list.len(),
        sets_in(g, owner, prefix, list.take(n)) is Err,
    ensures
        sets_in(g, owner, prefix, list) == sets_in(g, owner, prefix, list.take(n)),
    decreases list.len() - n,
{
    if n == list.len() {
        assert(list.take(n) =~= list);
    } else {
        assert(list.take(n + 1).drop_last() =~= list.take(n));
        lemma_sets_in_err(g, owner, prefix, list, n + 1);
    }
}

/// The parameter sets an owner's listed pointer fields reach.
fn sets_in_exec(graph: &ObjectGraph, owner: usize, prefix: &str, list: &[(&str, &str, &str)]) -> (r:
    Result<Vec<SavedParameterSet>, String>)
    requires
        owner < graph.objects@.len(),
    ensures
        match sets_in(graph.view(), owner, prefix@, set_list_view(list@)) {
            Ok(v) => r is Ok && sets_view(r->Ok_0@) == v,
            Err(e) => r is Err && r->Err_0@ == e,
        },
{
    let ghost g = graph.view();
    let ghost lv = set_list_view(list@);
    let mut sets: Vec<SavedParameterSet> = Vec::new();
    proof {
        assert(lv.take(0) =~= Seq::<(Seq<char>, Seq<char>, Seq<char>)>::empty());
        assert(sets_view(sets@) =~= Seq::<SetView>::empty());
    }
    let mut i: usize = 0;
    while i < list.len()
        invariant
            i <= list@.len(),
            owner < graph.objects@.len(),
            g == graph.view(),
            lv == set_list_view(list@),
            sets_in(g, owner, prefix@, lv.take(i as int)) == Ok::<Seq<SetView>, Seq<char>>(
                sets_view(sets@),
            ),
        decreases list@.len() - i,
    {
        proof {
            assert(lv.take(i + 1).drop_last() =~= lv.take(i as int));
            assert(lv.take(i + 1).last() == lv[i as int]);
        }
        let (field, class, storage) = list[i];
        match set_from_exec(graph, owner, prefix, field, class, storage) {
            Err(e) => {
                proof {
                    lemma_sets_in_err(g, owner, prefix@, lv, i + 1);
                }
                return Err(e);
            },
            Ok(None) => {},
            Ok(Some(x)) => {
                let ghost before = sets@;
                sets.push(x);
                proof {
                    assert(sets_view(sets@) =~= sets_view(before).push(x@));
                }
            },
        }
        i += 1;
    }
    proof {
        assert(lv.take(list@.len() as int) =~= lv);
    }
    Ok(sets)
}

/// The owner's saved parameter sets.
fn parameter_sets_exec(graph: &ObjectGraph) -> (r: Result<Vec<SavedParameterSet>, String>)
    requires
        graph.objects@.len() > 0,
    ensures
        match parameter_sets(graph.view()) {
            Ok(v) => r is Ok && sets_view(r->Ok_0@) == v,
            Err(e) => r is Err && r->Err_0@ == e,
        },
{
    let ghost g = graph.view();
    proof {
        assert(g.objects[0] == graph.objects@[0]@);
        lemma_empty_text();
    }
    let t = graph.objects[0].fields.as_slice();
    let container = if str_eq(graph.objects[0].class_name.as_str(), "PropertySetElement") {
        match field_pos(t, "m_oParamSet") {
            None => None,
            Some(j) => match resolve_pointer_exec(
                graph,
                0,
                t,
                j,
                "ParamSet",
                "asset parameter pointer offset absent",
                "asset parameter set edge absent",
                "asset parameter set outside graph",
                "asset parameter container class mismatch",
            ) {
                Err(e) => return Err(e),
                Ok(a) => a,
            },
        }
    } else {
        None
    };
    let mut direct: Vec<(&'static str, &'static str, &'static str)> = Vec::new();
    direct.push(("m_pParamValueSetDouble", "ParamValueSetDouble", "Double"));
    direct.push(("m_pParamValueSetInt", "ParamValueSetInt", "Integer"));
    direct.push(("m_pParamValueSetAString", "ParamValueSetAString", "String"));
    direct.push(("m_pParamValueSetElementId", "ParamValueSetElementId", "ElementId"));
    proof {
        assert(set_list_view(direct@) =~= direct_sets());
    }
    let mut sets = match sets_in_exec(graph, 0, "", direct.as_slice()) {
        Ok(s) => s,
        Err(e) => return Err(e),
    };
    match container {
        None => Ok(sets),
        Some(target) => {
            let mut asset: Vec<(&'static str, &'static str, &'static str)> = Vec::new();
            asset.push(("m_pDoubleParams", "ParamValueSetDouble", "Double"));
            asset.push(("m_pIntParams", "ParamValueSetInt", "Integer"));
            asset.push(("m_pAStringParams", "ParamValueSetAString", "String"));
            asset.push(("m_pElementIdParams", "ParamValueSetElementId", "ElementId"));
            proof {
                assert(set_list_view(asset@) =~= asset_sets());
            }
            let mut more = match sets_in_exec(graph, target, "m_oParamSet.", asset.as_slice()) {
                Ok(s) => s,
                Err(e) => return Err(e),
            };
            let ghost (a, b) = (sets@, more@);
            sets.append(&mut more);
            proof {
                assert(sets_view(a + b) =~= sets_view(a) + sets_view(b));
            }
            Ok(sets)
        },
    }
}


/// Type classes whose symbol information may carry the type name.
pub open spec fn has_symbol_info(c: Seq<char>) -> bool {
    c == "FamilySymbol"@ || c == "BasicWallType"@ || c == "LevelAttributes"@ || c
        == "FloorAttributes"@ || c == "RbsPipeType"@ || c == "RbsPipingSystemType"@
}

/// The parameters among `ps` that store the type name.
pub open spec fn names_in(ps: Seq<ParameterView>) -> Seq<ParameterView>
    decreases ps.len(),
{
    if ps.len() == 0 {
        Seq::empty()
    } else {
        names_in(ps.drop_last()) + if ps.last().serialized_parameter_id == -1002001 {
            seq![ps.last()]
        } else {
            Seq::empty()
        }
    }
}

/// The stored type-name parameters of all sets, in set order.
pub open spec fn typed_names(sets: Seq<SetView>) -> Seq<ParameterView>
    decreases sets.len(),
{
    if sets.len() == 0 {
        Seq::empty()
    } else {
        typed_names(sets.drop_last()) + names_in(sets.last().parameters)
    }
}

/// The tokens of the stored field `key`; a null when it is absent.
pub open spec fn field_value(t: Seq<TokenView>, key: Seq<char>) -> Seq<TokenView> {
    match member(t, 0, key) {
        Some(j) => value_tokens(t, j),
        None => seq![TokenView::Null],
    }
}

/// A type's name from its symbol information, when no parameter set
/// stores it; a stored name must be the one string the information
/// holds.
pub open spec fn symbol_rows(g: GraphView, sets: Seq<SetView>) -> Result<Seq<RawFieldView>, Seq<char>> {
    let t = g.objects[0].fields;
    if !has_symbol_info(g.objects[0].class_name) {
        Ok(Seq::empty())
    } else {
        match member(t, 0, "m_symbolInfo"@) {
            None => Ok(Seq::empty()),
            Some(j) => match resolve_pointer(
                g,
                0,
                t,
                j,
                "SymbolInfo"@,
                PointerMessages {
                    offset_absent: "symbol information pointer offset absent"@,
                    edge_absent: "symbol information edge absent"@,
                    outside: "symbol information outside graph"@,
                    class_mismatch: "symbol information class mismatch"@,
                },
            ) {
                Err(e) => Err(e),
                Ok(None) => Ok(Seq::empty()),
                Ok(Some(s)) => {
                    let stored = typed_names(sets);
                    let ts = g.objects[s as int].fields;
                    if stored.len() == 0 {
                        append_rows(ts, s, "m_symbolInfo."@, seq![("m_name"@, -1002001i64, "String"@)])
                    } else if stored.len() == 1 && stored[0].storage_type == "String"@
                        && stored[0].raw_value == field_value(ts, "m_name"@) {
                        Ok(Seq::empty())
                    } else {
                        Err("typed name and symbol information disagree"@)
                    }
                },
            },
        }
    }
}

/// Token sequences are equal.
pub fn tokens_eq(a: &[Token], b: &[Token]) -> (r: bool)
    ensures
        r == (tokens_view(a@) == tokens_view(b@)),
{
    let ghost (av, bv) = (tokens_view(a@), tokens_view(b@));
    if a.len() != b.len() {
        proof {
            assert(av.len() != bv.len());
        }
        return false;
    }
    let mut i: usize = 0;
    while i < a.len()
        invariant
            i <= a@.len(),
            a@.len() == b@.len(),
            av == tokens_view(a@),
            bv == tokens_view(b@),
            forall|k: int| 0 <= k < i ==> av[k] == bv[k],
        decreases a@.len() - i,
    {
        proof {
            assert(av[i as int] == a@[i as int]@);
            assert(bv[i as int] == b@[i as int]@);
        }
        let same = match (&a[i], &b[i]) {
            (Token::Null, Token::Null) => true,
            (Token::Bool(x), Token::Bool(y)) => *x == *y,
            (Token::UInt(x), Token::UInt(y)) => *x == *y,
            (Token::Int(x), Token::Int(y)) => *x == *y,
            (Token::F32(x), Token::F32(y)) => *x == *y,
            (Token::F64(x), Token::F64(y)) => *x == *y,
            (Token::Text(x), Token::Text(y)) => str_eq(x.as_str(), y.as_str()),
            (Token::Bytes(x), Token::Bytes(y)) => bytes_eq(x.as_slice(), y.as_slice()),
            (Token::BeginObject, Token::BeginObject) => true,
            (Token::Key(x), Token::Key(y)) => str_eq(x.as_str(), y.as_str()),
            (Token::EndObject, Token::EndObject) => true,
            (Token::BeginArray, Token::BeginArray) => true,
            (Token::EndArray, Token::EndArray) => true,
            _ => false,
        };
        if !same {
            return false;
        }
        i += 1;
    }
    proof {
        assert(av =~= bv);
    }
    true
}

/// Byte strings are equal.
pub fn bytes_eq(a: &[u8], b: &[u8]) -> (r: bool)
    ensures
        r == (a@ == b@),
{
    if a.len() != b.len() {
        return false;
    }
    let mut i: usize = 0;
    while i < a.len()
        invariant
            i <= a@.len(),
            a@.len() == b@.len(),
            forall|k: int| 0 <= k < i ==> a@[k] == b@[k],
        decreases a@.len() - i,
    {
        if a[i] != b[i] {
            return false;
        }
        i += 1;
    }
    proof {
        assert(a@ =~= b@);
    }
    true
}

/// The stored type-name parameters of all sets.
fn typed_names_exec(sets: &Vec<SavedParameterSet>) -> (r: Vec<Parameter>)
    ensures
        params_view(r@) == typed_names(sets_view(sets@)),
{
    let ghost sv = sets_view(sets@);
    let mut out: Vec<Parameter> = Vec::new();
    proof {
        assert(sv.take(0) =~= Seq::<SetView>::empty());
        assert(params_view(out@) =~= Seq::<ParameterView>::empty());
    }
    let mut i: usize = 0;
    while i < sets.len()
        invariant
            i <= sets@.len(),
            sv == sets_view(sets@),
            params_view(out@) == typed_names(sv.take(i as int)),
        decreases sets@.len() - i,
    {
        proof {
            assert(sv.take(i + 1).drop_last() =~= sv.take(i as int));
            assert(sv.take(i + 1).last() == sets@[i as int]@);
        }
        let ps = &sets[i].parameters;
        let ghost pv = params_view(ps@);
        let ghost base = params_view(out@);
        proof {
            assert(pv.take(0) =~= Seq::<ParameterView>::empty());
            assert(base + names_in(pv.take(0)) =~= base);
        }
        let mut k: usize = 0;
        while k < ps.len()
            invariant
                k <= ps@.len(),
                pv == params_view(ps@),
                params_view(out@) == base + names_in(pv.take(k as int)),
            decreases ps@.len() - k,
        {
            proof {
                assert(pv.take(k + 1).drop_last() =~= pv.take(k as int));
                assert(pv.take(k + 1).last() == ps@[k as int]@);
            }
            if ps[k].serialized_parameter_id == -1002001 {
                let ghost before = out@;
                let p = Parameter {
                    serialized_parameter_id: ps[k].serialized_parameter_id,
                    storage_type: ps[k].storage_type.clone(),
                    raw_value: copy_tokens(ps[k].raw_value.as_slice()),
                };
                out.push(p);
                proof {
                    assert(params_view(out@) =~= params_view(before).push(p@));
                    assert(base + names_in(pv.take(k + 1)) =~= base + names_in(pv.take(k as int)) + seq![
                        pv[k as int],
                    ]);
                }
            } else {
                proof {
                    assert(base + names_in(pv.take(k + 1)) =~= base + names_in(pv.take(k as int)));
                }
            }
            k += 1;
        }
        proof {
            assert(pv.take(ps@.len() as int) =~= pv);
            assert(base + names_in(pv) =~= typed_names(sv.take(i + 1)));
        }
        i += 1;
    }
    proof {
        assert(sv.take(sets@.len() as int) =~= sv);
    }
    out
}

/// A copy of a token sequence.
pub fn copy_tokens(t: &[Token]) -> (r: Vec<Token>)
    ensures
        tokens_view(r@) == tokens_view(t@),
{
    let ghost tv = tokens_view(t@);
    let mut out: Vec<Token> = Vec::new();
    let mut i: usize = 0;
    while i < t.len()
        invariant
            i <= t@.len(),
            tv == tokens_view(t@),
            tokens_view(out@) == tv.take(i as int),
        decreases t@.len() - i,
    {
        let ghost before = out@;
        proof {
            assert(tv[i as int] == t@[i as int]@);
        }
        out.push(t[i].clone_token());
        proof {
            assert(tokens_view(out@) =~= tokens_view(before).push(t@[i as int]@));
            assert(tokens_view(out@) =~= tv.take(i + 1));
        }
        i += 1;
    }
    proof {
        assert(tv.take(t@.len() as int) =~= tv);
    }
    out
}

/// A type's name from its symbol information.
fn symbol_rows_exec(graph: &ObjectGraph, sets: &Vec<SavedParameterSet>) -> (r: Result<
    Vec<RawFieldParameter>,
    String,
>)
    requires
        graph.objects@.len() > 0,
    ensures
        rows_outcome(r, symbol_rows(graph.view(), sets_view(sets@))),
{
    let ghost g = graph.view();
    proof {
        assert(g.objects[0] == graph.objects@[0]@);
    }
    let empty: Vec<RawFieldParameter> = Vec::new();
    proof {
        assert(rows_view(empty@) =~= Seq::<RawFieldView>::empty());
    }
    let c = graph.objects[0].class_name.as_str();
    if !(str_eq(c, "FamilySymbol") || str_eq(c, "BasicWallType") || str_eq(c, "LevelAttributes")
        || str_eq(c, "FloorAttributes") || str_eq(c, "RbsPipeType") || str_eq(
        c,
        "RbsPipingSystemType",
    )) {
        return Ok(empty);
    }
    let t = graph.objects[0].fields.as_slice();
    let j = match field_pos(t, "m_symbolInfo") {
        None => return Ok(empty),
        Some(j) => j,
    };
    let s = match resolve_pointer_exec(
        graph,
        0,
        t,
        j,
        "SymbolInfo",
        "symbol information pointer offset absent",
        "symbol information edge absent",
        "symbol information outside graph",
        "symbol information class mismatch",
    ) {
        Err(e) => return Err(e),
        Ok(None) => return Ok(empty),
        Ok(Some(s)) => s,
    };
    proof {
        assert(g.objects[s as int] == graph.objects@[s as int]@);
    }
    let ts = graph.objects[s].fields.as_slice();
    let stored = typed_names_exec(sets);
    if stored.len() == 0 {
        let mut name: Vec<(&'static str, i64, &'static str)> = Vec::new();
        name.push(("m_name", -1002001, "String"));
        proof {
            assert(fields_view(name@) =~= seq![("m_name"@, -1002001i64, "String"@)]);
        }
        return append_fields(ts, s, "m_symbolInfo.", name.as_slice());
    }
    let value = match field_pos(ts, "m_name") {
        Some(k) => value_tokens_exec(ts, k),
        None => {
            let v = vec![Token::Null];
            proof {
                assert(tokens_view(v@) =~= seq![TokenView::Null]);
            }
            v
        },
    };
    proof {
        assert(params_view(stored@)[0] == stored@[0]@);
    }
    if stored.len() == 1 && str_eq(stored[0].storage_type.as_str(), "String") && tokens_eq(
        stored[0].raw_value.as_slice(),
        value.as_slice(),
    ) {
        Ok(empty)
    } else {
        Err(text_of("typed name and symbol information disagree"))
    }
}


/// Every stored slot of one family parameter, without choosing the
/// active one.
#[derive(Clone, Debug)]
pub struct FamilyParameterSlots {
    pub source_object: usize,
    pub parameter_id: i64,
    pub stored_instance_flag: bool,
    pub reporting: bool,
    pub double_slot: Vec<Token>,
    pub integer_slot: Vec<Token>,
    pub string_slot: Vec<Token>,
    pub element_id_slot: i64,
    pub expression_pointer: Vec<Token>,
}

/// Family parameter slots as plain values.
pub struct SlotView {
    pub source_object: usize,
    pub parameter_id: i64,
    pub stored_instance_flag: bool,
    pub reporting: bool,
    pub double_slot: Seq<TokenView>,
    pub integer_slot: Seq<TokenView>,
    pub string_slot: Seq<TokenView>,
    pub element_id_slot: i64,
    pub expression_pointer: Seq<TokenView>,
}

impl FamilyParameterSlots {
    pub open spec fn view(&self) -> SlotView {
        SlotView {
            source_object: self.source_object,
            parameter_id: self.parameter_id,
            stored_instance_flag: self.stored_instance_flag,
            reporting: self.reporting,
            double_slot: tokens_view(self.double_slot@),
            integer_slot: tokens_view(self.integer_slot@),
            string_slot: tokens_view(self.string_slot@),
            element_id_slot: self.element_id_slot,
            expression_pointer: tokens_view(self.expression_pointer@),
        }
    }
}

/// Family parameter slots as plain values.
pub open spec fn slots_view(v: Seq<FamilyParameterSlots>) -> Seq<SlotView> {
    v.map_values(|s: FamilyParameterSlots| s@)
}

/// The boolean at an optional position.
pub open spec fn bool_at(t: Seq<TokenView>, p: Option<int>) -> Option<bool> {
    match p {
        Some(j) => if 0 <= j < t.len() {
            match t[j] {
                TokenView::Bool(b) => Some(b),
                _ => None,
            }
        } else {
            None
        },
        None => None,
    }
}

/// The slots of the family parameter object at `p`, read in order: id,
/// instance and reporting flags, the value slots, the element-id slot
/// and the expression pointer; each must be present.
pub open spec fn slot_at(t: Seq<TokenView>, p: int, source: usize) -> Result<SlotView, Seq<char>> {
    match identifier(t, member(t, p, "m_paramId"@)) {
        Err(e) => Err(e),
        Ok(id) => match bool_at(t, member(t, p, "m_instance"@)) {
            None => Err("instance flag absent"@),
            Some(inst) => match bool_at(t, member(t, p, "m_reporting"@)) {
                None => Err("reporting flag absent"@),
                Some(rep) => match member(t, p, "m_value"@) {
                    None => Err("family slot m_value absent"@),
                    Some(vd) => match member(t, p, "m_int"@) {
                        None => Err("family slot m_int absent"@),
                        Some(vi) => match member(t, p, "m_str"@) {
                            None => Err("family slot m_str absent"@),
                            Some(vs) => match identifier(t, member(t, p, "m_elemId"@)) {
                                Err(e) => Err(e),
                                Ok(eid) => match member(t, p, "m_oExpression"@) {
                                    None => Err("family slot m_oExpression absent"@),
                                    Some(vx) => Ok(
                                        SlotView {
                                            source_object: source,
                                            parameter_id: id,
                                            stored_instance_flag: inst,
                                            reporting: rep,
                                            double_slot: value_tokens(t, vd),
                                            integer_slot: value_tokens(t, vi),
                                            string_slot: value_tokens(t, vs),
                                            element_id_slot: eid,
                                            expression_pointer: value_tokens(t, vx),
                                        },
                                    ),
                                },
                            },
                        },
                    },
                },
            },
        },
    }
}

/// The slots of the array elements from position `p` on.
pub open spec fn slots_from(t: Seq<TokenView>, p: int, source: usize) -> Result<Seq<SlotView>, Seq<char>>
    decreases t.len() - p,
{
    if p < 0 || p >= t.len() || t[p] is EndArray {
        Ok(Seq::empty())
    } else {
        match value_end(t, p) {
            None => Ok(Seq::empty()),
            Some(e) => match slot_at(t, p, source) {
                Err(er) => Err(er),
                Ok(x) => if p < e <= t.len() {
                    match slots_from(t, e, source) {
                        Err(er) => Err(er),
                        Ok(r) => Ok(seq![x] + r),
                    }
                } else {
                    Ok(seq![x])
                },
            },
        }
    }
}

/// The slots a `FamilyParams` object stores in its `m_params` array.
pub open spec fn object_slots(o: ObjectView, index: usize) -> Result<Seq<SlotView>, Seq<char>> {
    let t = o.fields;
    if o.class_name == "FamilyParams"@ {
        match member(t, 0, "m_params"@) {
            Some(a) => if 0 <= a < t.len() && t[a] is BeginArray {
                slots_from(t, a + 1, index)
            } else {
                Err("family parameter array absent"@)
            },
            None => Err("family parameter array absent"@),
        }
    } else {
        Ok(Seq::empty())
    }
}

/// The family parameter slots of the first `n` objects, in object order.
pub open spec fn all_slots(objects: Seq<ObjectView>, n: int) -> Result<Seq<SlotView>, Seq<char>>
    decreases n,
{
    if n <= 0 {
        Ok(Seq::empty())
    } else {
        match all_slots(objects, n - 1) {
            Err(e) => Err(e),
            Ok(r) => match object_slots(objects[n - 1], (n - 1) as usize) {
                Err(e) => Err(e),
                Ok(s) => Ok(r + s),
            },
        }
    }
}

/// The boolean at an optional position.
pub fn bool_at_exec(t: &[Token], p: Option<usize>) -> (r: Option<bool>)
    requires
        p matches Some(j) ==> j < t@.len(),
    ensures
        r == bool_at(tokens_view(t@), opt_pos(p)),
{
    match p {
        Some(j) => {
            proof {
                assert(tokens_view(t@)[j as int] == t@[j as int]@);
            }
            match &t[j] {
                Token::Bool(b) => Some(*b),
                _ => None,
            }
        },
        None => None,
    }
}

/// The slots of the family parameter object at `p`.
fn slot_at_exec(t: &[Token], p: usize, source: usize) -> (r: Result<FamilyParameterSlots, String>)
    ensures
        match slot_at(tokens_view(t@), p as int, source) {
            Ok(v) => r is Ok && r->Ok_0@ == v,
            Err(e) => r is Err && r->Err_0@ == e,
        },
{
    let id = match identifier_exec(t, member_pos(t, p, "m_paramId")) {
        Ok(n) => n,
        Err(e) => return Err(e),
    };
    let inst = match bool_at_exec(t, member_pos(t, p, "m_instance")) {
        Some(b) => b,
        None => return Err(text_of("instance flag absent")),
    };
    let rep = match bool_at_exec(t, member_pos(t, p, "m_reporting")) {
        Some(b) => b,
        None => return Err(text_of("reporting flag absent")),
    };
    let vd = match member_pos(t, p, "m_value") {
        Some(j) => j,
        None => return Err(text_of("family slot m_value absent")),
    };
    let vi = match member_pos(t, p, "m_int") {
        Some(j) => j,
        None => return Err(text_of("family slot m_int absent")),
    };
    let vs = match member_pos(t, p, "m_str") {
        Some(j) => j,
        None => return Err(text_of("family slot m_str absent")),
    };
    let eid = match identifier_exec(t, member_pos(t, p, "m_elemId")) {
        Ok(n) => n,
        Err(e) => return Err(e),
    };
    let vx = match member_pos(t, p, "m_oExpression") {
        Some(j) => j,
        None => return Err(text_of("family slot m_oExpression absent")),
    };
    Ok(
        FamilyParameterSlots {
            source_object: source,
            parameter_id: id,
            stored_instance_flag: inst,
            reporting: rep,
            double_slot: value_tokens_exec(t, vd),
            integer_slot: value_tokens_exec(t, vi),
            string_slot: value_tokens_exec(t, vs),
            element_id_slot: eid,
            expression_pointer: value_tokens_exec(t, vx),
        },
    )
}

/// The slots of the array whose elements start at `p`.
fn slots_exec(t: &[Token], p: usize, source: usize) -> (r: Result<Vec<FamilyParameterSlots>, String>)
    ensures
        match slots_from(tokens_view(t@), p as int, source) {
            Ok(v) => r is Ok && slots_view(r->Ok_0@) == v,
            Err(e) => r is Err && r->Err_0@ == e,
        },
{
    let ghost tv = tokens_view(t@);
    let mut out: Vec<FamilyParameterSlots> = Vec::new();
    let mut q = p;
    proof {
        assert(slots_view(out@) =~= Seq::<SlotView>::empty());
        assert(prepend(Seq::<SlotView>::empty(), slots_from(tv, p as int, source)) == slots_from(tv, p as int, source)) by {
            match slots_from(tv, p as int, source) {
                Ok(s) => assert(Seq::<SlotView>::empty() + s =~= s),
                Err(_) => {},
            }
        }
    }
    loop
        invariant
            tv == tokens_view(t@),
            p <= q,
            slots_from(tv, p as int, source) == prepend(slots_view(out@), slots_from(tv, q as int, source)),
        decreases t@.len() - q,
    {
        let ghost acc = slots_view(out@);
        if q >= t.len() {
            proof {
                assert(acc + Seq::<SlotView>::empty() =~= acc);
            }
            return Ok(out);
        }
        proof {
            assert(tv[q as int] == t@[q as int]@);
            lemma_value_end_after(tv, q as int);
        }
        match &t[q] {
            Token::EndArray => {
                proof {
                    assert(acc + Seq::<SlotView>::empty() =~= acc);
                }
                return Ok(out);
            },
            _ => {},
        }
        let e = match value_end_exec(t, q) {
            None => {
                proof {
                    assert(acc + Seq::<SlotView>::empty() =~= acc);
                }
                return Ok(out);
            },
            Some(e) => e,
        };
        let x = match slot_at_exec(t, q, source) {
            Ok(x) => x,
            Err(er) => return Err(er),
        };
        out.push(x);
        proof {
            assert(slots_view(out@) =~= acc.push(x@));
            match slots_from(tv, e as int, source) {
                Ok(r) => assert(acc + (seq![x@] + r) =~= acc.push(x@) + r),
                Err(_) => {},
            }
        }
        q = e;
    }
}

proof fn lemma_all_slots_err(objects: Seq<ObjectView>, n: int, m: int)
    requires
        0 <= n <= m,
        all_slots(objects, n) is Err,
    ensures
        all_slots(objects, m) == all_slots(objects, n),
    decreases m - n,
{
    if n < m {
        lemma_all_slots_err(objects, n, m - 1);
    }
}

/// The family parameter slots of every object of the graph.
fn all_slots_exec(graph: &ObjectGraph) -> (r: Result<Vec<FamilyParameterSlots>, String>)
    ensures
        match all_slots(graph.view().objects, graph.objects@.len() as int) {
            Ok(v) => r is Ok && slots_view(r->Ok_0@) == v,
            Err(e) => r is Err && r->Err_0@ == e,
        },
{
    let ghost g = graph.view();
    let mut out: Vec<FamilyParameterSlots> = Vec::new();
    proof {
        assert(slots_view(out@) =~= Seq::<SlotView>::empty());
    }
    let mut i: usize = 0;
    while i < graph.objects.len()
        invariant
            i <= graph.objects@.len(),
            g == graph.view(),
            all_slots(g.objects, i as int) == Ok::<Seq<SlotView>, Seq<char>>(slots_view(out@)),
        decreases graph.objects@.len() - i,
    {
        proof {
            assert(g.objects[i as int] == graph.objects@[i as int]@);
        }
        let o = &graph.objects[i];
        if str_eq(o.class_name.as_str(), "FamilyParams") {
            let t = o.fields.as_slice();
            let a = match field_pos(t, "m_params") {
                Some(a) => a,
                None => {
                    proof {
                        lemma_all_slots_err(g.objects, i + 1, graph.objects@.len() as int);
                    }
                    return Err(text_of("family parameter array absent"));
                },
            };
            proof {
                assert(tokens_view(t@)[a as int] == t@[a as int]@);
            }
            match &t[a] {
                Token::BeginArray => {},
                _ => {
                    proof {
                        lemma_all_slots_err(g.objects, i + 1, graph.objects@.len() as int);
                    }
                    return Err(text_of("family parameter array absent"));
                },
            }
            let mut more = match slots_exec(t, a + 1, i) {
                Ok(s) => s,
                Err(e) => {
                    proof {
                        lemma_all_slots_err(g.objects, i + 1, graph.objects@.len() as int);
                    }
                    return Err(e);
                },
            };
            let ghost (x, y) = (out@, more@);
            out.append(&mut more);
            proof {
                assert(slots_view(x + y) =~= slots_view(x) + slots_view(y));
            }
        } else {
            proof {
                assert(slots_view(out@) + Seq::<SlotView>::empty() =~= slots_view(out@));
            }
        }
        i += 1;
    }
    Ok(out)
}

/// The saved metadata an owner's graph projects. Values are serialized,
/// not evaluated; the element's metadata is not claimed complete.
#[derive(Clone, Debug)]
pub struct SavedMetadata {
    pub value_semantics: &'static str,
    pub complete_element_metadata: bool,
    /// Element references of the root, by field name, in reading order.
    pub root_references: Vec<(String, i64)>,
    pub parameter_sets: Vec<SavedParameterSet>,
    pub family_parameter_slots: Vec<FamilyParameterSlots>,
    pub parameter_definitions: Vec<Definition>,
    pub builtin_parameter_definitions: Vec<BuiltinDefinition>,
    pub declared_custom_parameters: Vec<DeclaredCustomParameter>,
    pub global_parameter_associations: Vec<GlobalParameterAssociation>,
    pub raw_field_parameters: Vec<RawFieldParameter>,
    pub resolved_family_parameters: Vec<ResolvedFamilyParameter>,
}

/// A declared custom parameter as plain values.
pub struct DeclaredView {
    pub parameter_id: i64,
    pub storage_type: Seq<char>,
    pub has_value: bool,
    pub has_value_evidence: Seq<char>,
    pub source_object: Option<usize>,
    pub binding_id: Option<i64>,
    pub owner_category_id: Option<i64>,
    pub is_read_only: Option<bool>,
    pub read_only_evidence: Option<Seq<char>>,
    pub associated_global_parameter_id: Option<i64>,
}

/// A declared custom parameter by its plain values.
pub open spec fn declared_view(d: DeclaredCustomParameter) -> DeclaredView {
    DeclaredView {
        parameter_id: d.parameter_id,
        storage_type: d.storage_type@,
        has_value: d.has_value,
        has_value_evidence: d.has_value_evidence@,
        source_object: d.source_object,
        binding_id: d.binding_id,
        owner_category_id: d.owner_category_id,
        is_read_only: d.is_read_only,
        read_only_evidence: match d.read_only_evidence {
            Some(e) => Some(e@),
            None => None,
        },
        associated_global_parameter_id: d.associated_global_parameter_id,
    }
}

/// Saved metadata as plain values.
pub struct MetadataView {
    pub value_semantics: Seq<char>,
    pub complete_element_metadata: bool,
    pub root_references: Seq<(Seq<char>, i64)>,
    pub parameter_sets: Seq<SetView>,
    pub family_parameter_slots: Seq<SlotView>,
    pub parameter_definitions: Seq<DefinitionView>,
    pub builtin_parameter_definitions: Seq<BuiltinView>,
    pub declared_custom_parameters: Seq<DeclaredView>,
    pub global_parameter_associations: Seq<GlobalParameterAssociation>,
    pub raw_field_parameters: Seq<RawFieldView>,
    pub resolved_family_parameters: Seq<ResolvedView>,
}

impl SavedMetadata {
    pub open spec fn view(&self) -> MetadataView {
        MetadataView {
            value_semantics: self.value_semantics@,
            complete_element_metadata: self.complete_element_metadata,
            root_references: refs_view(self.root_references@),
            parameter_sets: sets_view(self.parameter_sets@),
            family_parameter_slots: slots_view(self.family_parameter_slots@),
            parameter_definitions: self.parameter_definitions@.map_values(|d: Definition| d@),
            builtin_parameter_definitions: self.builtin_parameter_definitions@.map_values(
                |d: BuiltinDefinition| d@,
            ),
            declared_custom_parameters: self.declared_custom_parameters@.map_values(
                |d: DeclaredCustomParameter| declared_view(d),
            ),
            global_parameter_associations: self.global_parameter_associations@,
            raw_field_parameters: rows_view(self.raw_field_parameters@),
            resolved_family_parameters: self.resolved_family_parameters@.map_values(
                |d: ResolvedFamilyParameter| d@,
            ),
        }
    }
}

/// The projection of a graph: the field rows, the root's references,
/// the parameter sets, the symbol information's name row and the family
/// parameter slots, computed in that order; the first refusal wins.
pub open spec fn spec_project(g: GraphView) -> Result<MetadataView, Seq<char>> {
    if g.objects.len() == 0 {
        Err("empty native graph"@)
    } else {
        match field_rows(g) {
            Err(e) => Err(e),
            Ok(rows) => match references_from(g.objects[0].fields, reference_fields()) {
                Err(e) => Err(e),
                Ok(refs) => match parameter_sets(g) {
                    Err(e) => Err(e),
                    Ok(sets) => match symbol_rows(g, sets) {
                        Err(e) => Err(e),
                        Ok(named) => match all_slots(g.objects, g.objects.len() as int) {
                            Err(e) => Err(e),
                            Ok(slots) => Ok(
                                MetadataView {
                                    value_semantics: "serialized_not_evaluated"@,
                                    complete_element_metadata: false,
                                    root_references: refs,
                                    parameter_sets: sets,
                                    family_parameter_slots: slots,
                                    parameter_definitions: Seq::empty(),
                                    builtin_parameter_definitions: Seq::empty(),
                                    declared_custom_parameters: Seq::empty(),
                                    global_parameter_associations: Seq::empty(),
                                    raw_field_parameters: rows + named,
                                    resolved_family_parameters: Seq::empty(),
                                },
                            ),
                        },
                    },
                },
            },
        }
    }
}

/// Projects an owner's saved parameter sets, witnessed direct fields and
/// family slots, only through explicit graph edges. Family slots keep
/// their containing object and every stored slot, without implying which
/// slot is active or whether a type value is inherited.
pub fn project(graph: &ObjectGraph) -> (r: Result<SavedMetadata, String>)
    ensures
        match spec_project(graph.view()) {
            Ok(v) => r is Ok && r->Ok_0@ == v,
            Err(e) => r is Err && r->Err_0@ == e,
        },
{
    if graph.objects.len() == 0 {
        return Err(text_of("empty native graph"));
    }
    proof {
        assert(graph.view().objects[0] == graph.objects@[0]@);
    }
    let mut rows = match field_rows_exec(graph) {
        Ok(r) => r,
        Err(e) => return Err(e),
    };
    let refs = match references_exec(graph.objects[0].fields.as_slice()) {
        Ok(r) => r,
        Err(e) => return Err(e),
    };
    let sets = match parameter_sets_exec(graph) {
        Ok(s) => s,
        Err(e) => return Err(e),
    };
    let named = match symbol_rows_exec(graph, &sets) {
        Ok(r) => r,
        Err(e) => return Err(e),
    };
    let slots = match all_slots_exec(graph) {
        Ok(s) => s,
        Err(e) => return Err(e),
    };
    extend_rows(&mut rows, named);
    let result = SavedMetadata {
        value_semantics: "serialized_not_evaluated",
        complete_element_metadata: false,
        root_references: refs,
        parameter_sets: sets,
        family_parameter_slots: slots,
        parameter_definitions: Vec::new(),
        builtin_parameter_definitions: Vec::new(),
        declared_custom_parameters: Vec::new(),
        global_parameter_associations: Vec::new(),
        raw_field_parameters: rows,
        resolved_family_parameters: Vec::new(),
    };
    proof {
        assert(result@.parameter_definitions =~= Seq::<DefinitionView>::empty());
        assert(result@.builtin_parameter_definitions =~= Seq::<BuiltinView>::empty());
        assert(result@.declared_custom_parameters =~= Seq::<DeclaredView>::empty());
        assert(result@.resolved_family_parameters =~= Seq::<ResolvedView>::empty());
    }
    Ok(result)
}


/// Some edge leads from object `source` to object `target`.
pub open spec fn edge_reaches(g: GraphView, source: usize, target: usize) -> bool {
    exists|k: int|
        0 <= k < g.edges.len() && (#[trigger] g.edges[k]).source_object_index == source
            && g.edges[k].target_object_index == target
}

/// The classes of saved parameter sets.
pub open spec fn is_set_class(c: Seq<char>) -> bool {
    c == "ParamValueSetDouble"@ || c == "ParamValueSetInt"@ || c == "ParamValueSetAString"@ || c
        == "ParamValueSetElementId"@
}

proof fn lemma_first_edge(es: Seq<GraphEdge>, i: int, source: usize, offset: u64)
    ensures
        first_edge_from(es, i, source, offset) matches Some(k) ==> i <= k < es.len()
            && es[k].source_object_index == source,
    decreases es.len() - i,
{
    if 0 <= i < es.len() && !(es[i].source_object_index == source && es[i].pointer_offset as int
        == offset as int) {
        lemma_first_edge(es, i + 1, source, offset);
    }
}

proof fn lemma_resolve_follows_edge(
    g: GraphView,
    owner: usize,
    t: Seq<TokenView>,
    j: int,
    class: Seq<char>,
    m: PointerMessages,
)
    ensures
        resolve_pointer(g, owner, t, j, class, m) matches Ok(Some(target)) ==> target
            < g.objects.len() && g.objects[target as int].class_name == class && edge_reaches(
            g,
            owner,
            target,
        ),
{
    if let Ok(Some(target)) = resolve_pointer(g, owner, t, j, class, m) {
        let off = member_u64(t, j, "offset"@)->Some_0;
        lemma_first_edge(g.edges, 0, owner, off);
        let k = first_edge_from(g.edges, 0, owner, off)->Some_0;
        assert(g.edges[k].source_object_index == owner && g.edges[k].target_object_index == target);
    }
}

proof fn lemma_sets_in_follow_edges(
    g: GraphView,
    owner: usize,
    prefix: Seq<char>,
    list: Seq<(Seq<char>, Seq<char>, Seq<char>)>,
)
    requires
        forall|k: int| 0 <= k < list.len() ==> is_set_class(#[trigger] list[k].1),
    ensures
        sets_in(g, owner, prefix, list) matches Ok(r) ==> forall|i: int|
            0 <= i < r.len() ==> {
                let s = (#[trigger] r[i]).source_object;
                &&& s < g.objects.len()
                &&& is_set_class(g.objects[s as int].class_name)
                &&& edge_reaches(g, owner, s)
            },
    decreases list.len(),
{
    if list.len() > 0 {
        let d = list.drop_last();
        assert forall|k: int| 0 <= k < d.len() implies is_set_class(#[trigger] d[k].1) by {
            assert(d[k] == list[k]);
        }
        lemma_sets_in_follow_edges(g, owner, prefix, d);
        let f = list.last();
        assert(is_set_class(list[list.len() - 1].1));
        let t = g.objects[owner as int].fields;
        if let Some(j) = member(t, 0, f.0) {
            lemma_resolve_follows_edge(
                g,
                owner,
                t,
                j,
                f.1,
                PointerMessages {
                    offset_absent: "parameter pointer offset absent"@,
                    edge_absent: "owner parameter edge absent"@,
                    outside: "parameter edge target outside graph"@,
                    class_mismatch: "owner parameter set class mismatch"@,
                },
            );
        }
    }
}

/// Saved parameter sets are reached only through explicit edges: each
/// set's object has a parameter-set class and is the target of an edge
/// from the root, or from the asset container an edge from the root
/// reaches.
pub proof fn lemma_sets_follow_edges(g: GraphView)
    requires
        spec_project(g) is Ok,
    ensures
        forall|i: int|
            0 <= i < spec_project(g)->Ok_0.parameter_sets.len() ==> {
                let s = (#[trigger] spec_project(g)->Ok_0.parameter_sets[i]).source_object;
                &&& s < g.objects.len()
                &&& is_set_class(g.objects[s as int].class_name)
                &&& (edge_reaches(g, 0, s) || exists|c: usize|
                    edge_reaches(g, 0, c) && #[trigger] edge_reaches(g, c, s))
            },
{
    let sets = parameter_sets(g)->Ok_0;
    assert(spec_project(g)->Ok_0.parameter_sets == sets);
    let d = direct_sets();
    assert forall|k: int| 0 <= k < d.len() implies is_set_class(#[trigger] d[k].1) by {}
    let a = asset_sets();
    assert forall|k: int| 0 <= k < a.len() implies is_set_class(#[trigger] a[k].1) by {}
    lemma_sets_in_follow_edges(g, 0, Seq::empty(), d);
    let s0 = sets_in(g, 0, Seq::empty(), d)->Ok_0;
    match asset_container(g)->Ok_0 {
        None => {},
        Some(c) => {
            let t = g.objects[0].fields;
            let j = member(t, 0, "m_oParamSet"@)->Some_0;
            lemma_resolve_follows_edge(
                g,
                0,
                t,
                j,
                "ParamSet"@,
                PointerMessages {
                    offset_absent: "asset parameter pointer offset absent"@,
                    edge_absent: "asset parameter set edge absent"@,
                    outside: "asset parameter set outside graph"@,
                    class_mismatch: "asset parameter container class mismatch"@,
                },
            );
            lemma_sets_in_follow_edges(g, c, "m_oParamSet."@, a);
            let s1 = sets_in(g, c, "m_oParamSet."@, a)->Ok_0;
            assert(sets == s0 + s1);
            assert forall|i: int| 0 <= i < sets.len() implies {
                let s = (#[trigger] sets[i]).source_object;
                &&& s < g.objects.len()
                &&& is_set_class(g.objects[s as int].class_name)
                &&& (edge_reaches(g, 0, s) || exists|c2: usize|
                    edge_reaches(g, 0, c2) && #[trigger] edge_reaches(g, c2, s))
            } by {
                if i >= s0.len() {
                    assert(sets[i] == s1[i - s0.len()]);
                    assert(edge_reaches(g, 0, c) && edge_reaches(g, c, sets[i].source_object));
                } else {
                    assert(sets[i] == s0[i]);
                }
            }
        },
    }
}

proof fn lemma_slots_from_source(t: Seq<TokenView>, p: int, source: usize)
    ensures
        slots_from(t, p, source) matches Ok(r) ==> forall|i: int|
            0 <= i < r.len() ==> (#[trigger] r[i]).source_object == source,
    decreases t.len() - p,
{
    if !(p < 0 || p >= t.len() || t[p] is EndArray) {
        if let Some(e) = value_end(t, p) {
            if p < e <= t.len() {
                lemma_slots_from_source(t, e, source);
            }
        }
    }
}

proof fn lemma_all_slots_in_family_params(objects: Seq<ObjectView>, n: int)
    requires
        n <= objects.len(),
        n <= usize::MAX,
    ensures
        all_slots(objects, n) matches Ok(r) ==> forall|i: int|
            0 <= i < r.len() ==> {
                let s = (#[trigger] r[i]).source_object;
                &&& s < n
                &&& objects[s as int].class_name == "FamilyParams"@
            },
    decreases n,
{
    if n > 0 {
        lemma_all_slots_in_family_params(objects, n - 1);
        let o = objects[n - 1];
        if o.class_name == "FamilyParams"@ {
            if let Some(a) = member(o.fields, 0, "m_params"@) {
                lemma_slots_from_source(o.fields, a + 1, (n - 1) as usize);
            }
        }
        if let Ok(r) = all_slots(objects, n) {
            let r0 = all_slots(objects, n - 1)->Ok_0;
            let s = object_slots(o, (n - 1) as usize)->Ok_0;
            assert(r == r0 + s);
            assert forall|i: int| 0 <= i < r.len() implies {
                let x = (#[trigger] r[i]).source_object;
                &&& x < n
                &&& objects[x as int].class_name == "FamilyParams"@
            } by {
                if i >= r0.len() {
                    let k = i - r0.len();
                    assert(r[i] == s[k]);
                    assert(o.class_name == "FamilyParams"@);
                    let a = member(o.fields, 0, "m_params"@)->Some_0;
                    assert(Ok::<Seq<SlotView>, Seq<char>>(s) == slots_from(o.fields, a + 1, (n - 1) as usize));
                    assert(s[k].source_object == (n - 1) as usize);
                } else {
                    assert(r[i] == r0[i]);
                }
            }
        }
    }
}

/// Every family slot names the `FamilyParams` object that stores it.
pub proof fn lemma_slots_keep_their_object(g: GraphView)
    requires
        spec_project(g) is Ok,
        g.objects.len() <= usize::MAX,
    ensures
        forall|i: int|
            0 <= i < spec_project(g)->Ok_0.family_parameter_slots.len() ==> {
                let s = (#[trigger] spec_project(g)->Ok_0.family_parameter_slots[i]).source_object;
                &&& s < g.objects.len()
                &&& g.objects[s as int].class_name == "FamilyParams"@
            },
{
    lemma_all_slots_in_family_params(g.objects, g.objects.len() as int);
}


/// A stored parameter as plain values: its set's object and pointer
/// field, its id, its storage, and its value when that is one string.
pub open spec fn stored_view(p: StoredParameter) -> (usize, Seq<char>, i64, Seq<char>, Option<Seq<char>>) {
    (
        p.source_object,
        p.root_pointer_field@,
        p.serialized_parameter_id,
        p.storage_type@,
        match p.raw_string {
            Some(s) => Some(s@),
            None => None,
        },
    )
}

/// The string a raw value is, when it is one string.
pub open spec fn raw_string(raw: Seq<TokenView>) -> Option<Seq<char>> {
    if raw.len() == 1 && raw[0] is Text {
        Some(raw[0]->Text_0)
    } else {
        None
    }
}

/// The parameters of one set as stored parameters.
pub open spec fn set_rows(s: SetView) -> Seq<(usize, Seq<char>, i64, Seq<char>, Option<Seq<char>>)> {
    s.parameters.map_values(
        |p: ParameterView|
            (s.source_object, s.root_pointer_field, p.serialized_parameter_id, p.storage_type, raw_string(p.raw_value)),
    )
}

/// Every saved parameter of the sets, in set order.
pub open spec fn stored_rows(sets: Seq<SetView>) -> Seq<(usize, Seq<char>, i64, Seq<char>, Option<Seq<char>>)>
    decreases sets.len(),
{
    if sets.len() == 0 {
        Seq::empty()
    } else {
        stored_rows(sets.drop_last()) + set_rows(sets.last())
    }
}

/// Every saved parameter of the sets as the stored parameters the
/// effective IFC parameter is chosen from.
pub fn stored_parameters(sets: &Vec<SavedParameterSet>) -> (r: Vec<StoredParameter>)
    ensures
        r@.map_values(|p: StoredParameter| stored_view(p)) == stored_rows(sets_view(sets@)),
{
    let ghost sv = sets_view(sets@);
    let mut out: Vec<StoredParameter> = Vec::new();
    proof {
        assert(sv.take(0) =~= Seq::<SetView>::empty());
        assert(out@.map_values(|p: StoredParameter| stored_view(p)) =~= stored_rows(sv.take(0)));
    }
    let mut i: usize = 0;
    while i < sets.len()
        invariant
            i <= sets@.len(),
            sv == sets_view(sets@),
            out@.map_values(|p: StoredParameter| stored_view(p)) == stored_rows(sv.take(i as int)),
        decreases sets@.len() - i,
    {
        proof {
            assert(sv.take(i + 1).drop_last() =~= sv.take(i as int));
            assert(sv.take(i + 1).last() == sets@[i as int]@);
        }
        let set = &sets[i];
        let ghost base = out@.map_values(|p: StoredParameter| stored_view(p));
        let ghost rows = set_rows(set@);
        proof {
            assert(base + rows.take(0) =~= base);
        }
        let mut k: usize = 0;
        while k < set.parameters.len()
            invariant
                k <= set.parameters@.len(),
                rows == set_rows(set@),
                out@.map_values(|p: StoredParameter| stored_view(p)) == base + rows.take(k as int),
            decreases set.parameters@.len() - k,
        {
            let p = &set.parameters[k];
            let raw = p.raw_value.as_slice();
            let text = if raw.len() == 1 {
                proof {
                    assert(tokens_view(raw@)[0] == raw@[0]@);
                }
                match &raw[0] {
                    Token::Text(s) => Some(s.clone()),
                    _ => None,
                }
            } else {
                None
            };
            let stored = StoredParameter {
                source_object: set.source_object,
                root_pointer_field: set.root_pointer_field.clone(),
                serialized_parameter_id: p.serialized_parameter_id,
                storage_type: p.storage_type.clone(),
                raw_string: text,
            };
            let ghost before = out@;
            out.push(stored);
            proof {
                assert(params_view(set.parameters@)[k as int] == set.parameters@[k as int]@);
                assert(rows[k as int] == stored_view(stored));
                assert(out@.map_values(|p: StoredParameter| stored_view(p)) =~= before.map_values(
                    |p: StoredParameter| stored_view(p),
                ).push(stored_view(stored)));
                assert(base + rows.take(k + 1) =~= base + rows.take(k as int) + seq![rows[k as int]]);
            }
            k += 1;
        }
        proof {
            assert(rows.take(set.parameters@.len() as int) =~= rows);
        }
        i += 1;
    }
    proof {
        assert(sv.take(sets@.len() as int) =~= sv);
    }
    out
}


/// One parameter driver of a project-parameter cell, read in order: the
/// driven parameter, the global parameter, the symbol flag and the
/// geometry tag.
pub open spec fn association_at(t: Seq<TokenView>, p: int, source: usize) -> Result<GlobalParameterAssociation, Seq<char>> {
    match identifier(t, member(t, p, "m_elemPropId"@)) {
        Err(e) => Err(e),
        Ok(id) => match identifier(t, member(t, p, "m_famParamId"@)) {
            Err(e) => Err(e),
            Ok(gid) => match bool_at(t, member(t, p, "m_bIsSymbol"@)) {
                None => Err("parameter driver symbol flag absent"@),
                Some(sym) => match identifier(t, member(t, p, "m_geomTag"@)) {
                    Err(e) => Err(e),
                    Ok(tag) => Ok(
                        GlobalParameterAssociation {
                            source_object: source,
                            parameter_id: id,
                            global_parameter_id: gid,
                            stored_is_symbol: sym,
                            geometry_tag: tag,
                        },
                    ),
                },
            },
        },
    }
}

/// The drivers of the array elements from position `p` on.
pub open spec fn associations_from(t: Seq<TokenView>, p: int, source: usize) -> Result<
    Seq<GlobalParameterAssociation>,
    Seq<char>,
>
    decreases t.len() - p,
{
    if p < 0 || p >= t.len() || t[p] is EndArray {
        Ok(Seq::empty())
    } else {
        match value_end(t, p) {
            None => Ok(Seq::empty()),
            Some(e) => match association_at(t, p, source) {
                Err(er) => Err(er),
                Ok(x) => if p < e <= t.len() {
                    match associations_from(t, e, source) {
                        Err(er) => Err(er),
                        Ok(r) => Ok(seq![x] + r),
                    }
                } else {
                    Ok(seq![x])
                },
            },
        }
    }
}

/// The drivers the cell pointer at `q` of the cell list `list` reaches:
/// none for an unset pointer or a cell of another class.
pub open spec fn cell_drivers(g: GraphView, list: usize, tl: Seq<TokenView>, q: int) -> Result<
    Seq<GlobalParameterAssociation>,
    Seq<char>,
> {
    if member_u64(tl, q, "pointer_token"@) == Some(0u64) {
        Ok(Seq::empty())
    } else {
        match member_u64(tl, q, "offset"@) {
            None => Err("cell pointer offset absent"@),
            Some(off) => match first_edge_from(g.edges, 0, list, off) {
                None => Err("owner cell edge absent"@),
                Some(k) => {
                    let target = g.edges[k].target_object_index;
                    if target >= g.objects.len() {
                        Err("owner cell outside graph"@)
                    } else if g.objects[target as int].class_name != "ProjectParametrizedElemParamsCell"@ {
                        Ok(Seq::empty())
                    } else {
                        let tc = g.objects[target as int].fields;
                        match member(tc, 0, "m_paramDrivenData"@) {
                            Some(a) => if 0 <= a < tc.len() && tc[a] is BeginArray {
                                associations_from(tc, a + 1, target)
                            } else {
                                Err("project parameter driver array absent"@)
                            },
                            None => Err("project parameter driver array absent"@),
                        }
                    }
                },
            },
        }
    }
}

/// The drivers of the cell pointers from position `p` on.
pub open spec fn cells_from(g: GraphView, list: usize, tl: Seq<TokenView>, p: int) -> Result<
    Seq<GlobalParameterAssociation>,
    Seq<char>,
>
    decreases tl.len() - p,
{
    if p < 0 || p >= tl.len() || tl[p] is EndArray {
        Ok(Seq::empty())
    } else {
        match value_end(tl, p) {
            None => Ok(Seq::empty()),
            Some(e) => match cell_drivers(g, list, tl, p) {
                Err(er) => Err(er),
                Ok(x) => if p < e <= tl.len() {
                    match cells_from(g, list, tl, e) {
                        Err(er) => Err(er),
                        Ok(r) => Ok(x + r),
                    }
                } else {
                    Ok(x)
                },
            },
        }
    }
}

/// The global parameter drivers of an owner, reached through its
/// `m_cellList` pointer and that list's cell pointers.
pub open spec fn global_associations(g: GraphView) -> Result<Seq<GlobalParameterAssociation>, Seq<char>> {
    let t = g.objects[0].fields;
    match member(t, 0, "m_cellList"@) {
        None => Ok(Seq::empty()),
        Some(j) => match resolve_pointer(
            g,
            0,
            t,
            j,
            "CellList"@,
            PointerMessages {
                offset_absent: "owner cell-list pointer offset absent"@,
                edge_absent: "owner cell-list edge absent"@,
                outside: "owner cell list outside graph"@,
                class_mismatch: "owner cell-list class mismatch"@,
            },
        ) {
            Err(e) => Err(e),
            Ok(None) => Ok(Seq::empty()),
            Ok(Some(list)) => {
                let tl = g.objects[list as int].fields;
                match member(tl, 0, "m_cells"@) {
                    Some(a) => if 0 <= a < tl.len() && tl[a] is BeginArray {
                        cells_from(g, list, tl, a + 1)
                    } else {
                        Err("owner cell array absent"@)
                    },
                    None => Err("owner cell array absent"@),
                }
            },
        }
    }
}

/// One parameter driver of a project-parameter cell.
fn association_exec(t: &[Token], p: usize, source: usize) -> (r: Result<GlobalParameterAssociation, String>)
    ensures
        text_outcome(r, association_at(tokens_view(t@), p as int, source)),
{
    let id = match identifier_exec(t, member_pos(t, p, "m_elemPropId")) {
        Ok(n) => n,
        Err(e) => return Err(e),
    };
    let gid = match identifier_exec(t, member_pos(t, p, "m_famParamId")) {
        Ok(n) => n,
        Err(e) => return Err(e),
    };
    let sym = match bool_at_exec(t, member_pos(t, p, "m_bIsSymbol")) {
        Some(b) => b,
        None => return Err(text_of("parameter driver symbol flag absent")),
    };
    let tag = match identifier_exec(t, member_pos(t, p, "m_geomTag")) {
        Ok(n) => n,
        Err(e) => return Err(e),
    };
    Ok(
        GlobalParameterAssociation {
            source_object: source,
            parameter_id: id,
            global_parameter_id: gid,
            stored_is_symbol: sym,
            geometry_tag: tag,
        },
    )
}

/// The drivers of the array whose elements start at `p`.
fn associations_exec(t: &[Token], p: usize, source: usize) -> (r: Result<Vec<GlobalParameterAssociation>, String>)
    ensures
        match associations_from(tokens_view(t@), p as int, source) {
            Ok(v) => r is Ok && r->Ok_0@ == v,
            Err(e) => r is Err && r->Err_0@ == e,
        },
{
    let ghost tv = tokens_view(t@);
    let mut out: Vec<GlobalParameterAssociation> = Vec::new();
    let mut q = p;
    proof {
        assert(prepend(Seq::<GlobalParameterAssociation>::empty(), associations_from(tv, p as int, source))
            == associations_from(tv, p as int, source)) by {
            match associations_from(tv, p as int, source) {
                Ok(s) => assert(Seq::<GlobalParameterAssociation>::empty() + s =~= s),
                Err(_) => {},
            }
        }
    }
    loop
        invariant
            tv == tokens_view(t@),
            p <= q,
            associations_from(tv, p as int, source) == prepend(out@, associations_from(tv, q as int, source)),
        decreases t@.len() - q,
    {
        let ghost acc = out@;
        if q >= t.len() {
            proof {
                assert(acc + Seq::<GlobalParameterAssociation>::empty() =~= acc);
            }
            return Ok(out);
        }
        proof {
            assert(tv[q as int] == t@[q as int]@);
            lemma_value_end_after(tv, q as int);
        }
        match &t[q] {
            Token::EndArray => {
                proof {
                    assert(acc + Seq::<GlobalParameterAssociation>::empty() =~= acc);
                }
                return Ok(out);
            },
            _ => {},
        }
        let e = match value_end_exec(t, q) {
            None => {
                proof {
                    assert(acc + Seq::<GlobalParameterAssociation>::empty() =~= acc);
                }
                return Ok(out);
            },
            Some(e) => e,
        };
        let x = match association_exec(t, q, source) {
            Ok(x) => x,
            Err(er) => return Err(er),
        };
        out.push(x);
        proof {
            match associations_from(tv, e as int, source) {
                Ok(r) => assert(acc + (seq![x] + r) =~= acc.push(x) + r),
                Err(_) => {},
            }
        }
        q = e;
    }
}

/// The drivers the cell pointer at `q` of the cell list `list` reaches.
fn cell_drivers_exec(graph: &ObjectGraph, list: usize, tl: &[Token], q: usize) -> (r: Result<
    Vec<GlobalParameterAssociation>,
    String,
>)
    ensures
        match cell_drivers(graph.view(), list, tokens_view(tl@), q as int) {
            Ok(v) => r is Ok && r->Ok_0@ == v,
            Err(e) => r is Err && r->Err_0@ == e,
        },
{
    let ghost g = graph.view();
    if member_u64_exec(tl, q, "pointer_token") == Some(0u64) {
        return Ok(Vec::new());
    }
    let off = match member_u64_exec(tl, q, "offset") {
        Some(o) => o,
        None => return Err(text_of("cell pointer offset absent")),
    };
    let k = match first_edge(graph.edges.as_slice(), list, off) {
        Some(k) => k,
        None => return Err(text_of("owner cell edge absent")),
    };
    let target = graph.edges[k].target_object_index;
    if target >= graph.objects.len() {
        return Err(text_of("owner cell outside graph"));
    }
    proof {
        assert(g.objects[target as int] == graph.objects@[target as int]@);
    }
    if !str_eq(graph.objects[target].class_name.as_str(), "ProjectParametrizedElemParamsCell") {
        return Ok(Vec::new());
    }
    let tc = graph.objects[target].fields.as_slice();
    let a = match field_pos(tc, "m_paramDrivenData") {
        Some(a) => a,
        None => return Err(text_of("project parameter driver array absent")),
    };
    proof {
        assert(tokens_view(tc@)[a as int] == tc@[a as int]@);
    }
    match &tc[a] {
        Token::BeginArray => {},
        _ => return Err(text_of("project parameter driver array absent")),
    }
    associations_exec(tc, a + 1, target)
}

/// The global parameter drivers of an owner.
pub fn project_global_associations(graph: &ObjectGraph) -> (r: Result<Vec<GlobalParameterAssociation>, String>)
    requires
        graph.objects@.len() > 0,
    ensures
        match global_associations(graph.view()) {
            Ok(v) => r is Ok && r->Ok_0@ == v,
            Err(e) => r is Err && r->Err_0@ == e,
        },
{
    let ghost g = graph.view();
    proof {
        assert(g.objects[0] == graph.objects@[0]@);
    }
    let t = graph.objects[0].fields.as_slice();
    let j = match field_pos(t, "m_cellList") {
        None => return Ok(Vec::new()),
        Some(j) => j,
    };
    let list = match resolve_pointer_exec(
        graph,
        0,
        t,
        j,
        "CellList",
        "owner cell-list pointer offset absent",
        "owner cell-list edge absent",
        "owner cell list outside graph",
        "owner cell-list class mismatch",
    ) {
        Err(e) => return Err(e),
        Ok(None) => return Ok(Vec::new()),
        Ok(Some(list)) => list,
    };
    proof {
        assert(g.objects[list as int] == graph.objects@[list as int]@);
    }
    let tl = graph.objects[list].fields.as_slice();
    let ghost tv = tokens_view(tl@);
    let a = match field_pos(tl, "m_cells") {
        Some(a) => a,
        None => return Err(text_of("owner cell array absent")),
    };
    proof {
        assert(tv[a as int] == tl@[a as int]@);
    }
    match &tl[a] {
        Token::BeginArray => {},
        _ => return Err(text_of("owner cell array absent")),
    }
    let p = a + 1;
    let mut out: Vec<GlobalParameterAssociation> = Vec::new();
    let mut q = p;
    proof {
        assert(global_associations(g) == cells_from(g, list, tv, p as int));
        assert(prepend(Seq::<GlobalParameterAssociation>::empty(), cells_from(g, list, tv, p as int))
            == cells_from(g, list, tv, p as int)) by {
            match cells_from(g, list, tv, p as int) {
                Ok(s) => assert(Seq::<GlobalParameterAssociation>::empty() + s =~= s),
                Err(_) => {},
            }
        }
    }
    loop
        invariant
            tv == tokens_view(tl@),
            g == graph.view(),
            p <= q,
            global_associations(g) == cells_from(g, list, tv, p as int),
            cells_from(g, list, tv, p as int) == prepend(out@, cells_from(g, list, tv, q as int)),
        decreases tl@.len() - q,
    {
        let ghost acc = out@;
        if q >= tl.len() {
            proof {
                assert(acc + Seq::<GlobalParameterAssociation>::empty() =~= acc);
            }
            return Ok(out);
        }
        proof {
            assert(tv[q as int] == tl@[q as int]@);
            lemma_value_end_after(tv, q as int);
        }
        match &tl[q] {
            Token::EndArray => {
                proof {
                    assert(acc + Seq::<GlobalParameterAssociation>::empty() =~= acc);
                }
                return Ok(out);
            },
            _ => {},
        }
        let e = match value_end_exec(tl, q) {
            None => {
                proof {
                    assert(acc + Seq::<GlobalParameterAssociation>::empty() =~= acc);
                }
                return Ok(out);
            },
            Some(e) => e,
        };
        let mut more = match cell_drivers_exec(graph, list, tl, q) {
            Ok(x) => x,
            Err(er) => return Err(er),
        };
        let ghost x = more@;
        out.append(&mut more);
        proof {
            match cells_from(g, list, tv, e as int) {
                Ok(r) => assert(acc + (x + r) =~= acc + x + r),
                Err(_) => {},
            }
        }
        q = e;
    }
}

} // verus!

verus! {

proof fn lemma_append_rows_has(
    t: Seq<TokenView>,
    source: usize,
    prefix: Seq<char>,
    fields: Seq<(Seq<char>, i64, Seq<char>)>,
    k: int,
)
    requires
        append_rows(t, source, prefix, fields) is Ok,
        0 <= k < fields.len(),
        member(t, 0, fields[k].0) is Some,
    ensures
        exists|i: int| 0 <= i < append_rows(t, source, prefix, fields)->Ok_0.len() && ({
            let r = #[trigger] append_rows(t, source, prefix, fields)->Ok_0[i];
            &&& r.parameter_id == fields[k].1
            &&& r.source_field == prefix + fields[k].0
            &&& r.source_object == source
            &&& r.projection_rule == "direct_saved_field"@
            &&& r.storage_type == fields[k].2
        }),
    decreases fields.len(),
{
    let p = fields.drop_last();
    let rows = append_rows(t, source, prefix, p)->Ok_0;
    let all = append_rows(t, source, prefix, fields)->Ok_0;
    if k == fields.len() - 1 {
        let f = fields.last();
        let r = field_row(t, source, prefix, f.0, f.1, f.2)->Some_0->Ok_0;
        assert(all == rows.push(r));
        assert(all[rows.len() as int] == r);
    } else {
        assert(p[k] == fields[k]);
        lemma_append_rows_has(t, source, prefix, p, k);
        let i = choose|i: int| 0 <= i < rows.len() && ({
            let r = #[trigger] rows[i];
            &&& r.parameter_id == p[k].1
            &&& r.source_field == prefix + p[k].0
            &&& r.source_object == source
            &&& r.projection_rule == "direct_saved_field"@
            &&& r.storage_type == p[k].2
        });
        match field_row(t, source, prefix, fields.last().0, fields.last().1, fields.last().2) {
            Some(Ok(r)) => {
                assert(all == rows.push(r));
                assert(all[i] == rows[i]);
            },
            _ => {
                assert(all == rows);
            },
        }
    }
}

/// The element-id fields a root of class `c` projects directly, with their
/// parameter ids: the design option of every root; the created and
/// demolished phases of walls, family instances and pipes; the category of
/// family instances and family symbols; and the type, level and host of a
/// family instance.
pub open spec fn projects_direct_field(c: Seq<char>, f: Seq<char>, id: i64) -> bool {
    ||| f == "m_designOptionId"@ && id == -1013201
    ||| (c == "SWall"@ || c == "FamilyInstance"@ || c == "RbsPipeCurve"@) && (f == "m_createdPhaseId"@ && id == -1012100
        || f == "m_demolishedPhaseId"@ && id == -1012101)
    ||| (c == "FamilyInstance"@ || spec_is_family_symbol_class(c)) && f == "m_categoryId"@ && (id == -1140362
        || id == -1140363)
    ||| c == "FamilyInstance"@ && (f == "m_masterSymbolId"@ && (id == -1002052 || id == -1002051 || id == -1002050
        || id == -1002000) || f == "m_assocLevelId"@ && (id == -1002062 || id == -1001352) || f == "m_hostId"@ && id
        == -1002108)
}

/// A projected root that stores one of the fields its class projects
/// directly (see [`projects_direct_field`]) carries a `direct_saved_field`
/// element-id row for it with that parameter id: a wall's stored created
/// phase gives parameter -1012100, its demolished phase -1012101.
pub proof fn lemma_direct_field_rows(g: GraphView, f: Seq<char>, id: i64)
    requires
        g.objects.len() > 0,
        projects_direct_field(g.objects[0].class_name, f, id),
        member(g.objects[0].fields, 0, f) is Some,
        spec_project(g) is Ok,
    ensures
        exists|i: int| 0 <= i < spec_project(g)->Ok_0.raw_field_parameters.len() && ({
            let r = #[trigger] spec_project(g)->Ok_0.raw_field_parameters[i];
            &&& r.parameter_id == id
            &&& r.source_field == f
            &&& r.source_object == 0
            &&& r.projection_rule == "direct_saved_field"@
            &&& r.storage_type == "ElementId"@
        }),
{
    let c = g.objects[0].class_name;
    let t = g.objects[0].fields;
    let fs = direct_fields(c);
    let cat: int = if c == "FamilyInstance"@ || spec_is_family_symbol_class(c) { 2 } else { 0 };
    let ph: int = if c == "FamilyInstance"@ || c == "RbsPipeCurve"@ || c == "SWall"@ { 2 } else { 0 };
    let k: int = if f == "m_designOptionId"@ && id == -1013201 {
        cat
    } else if (c == "SWall"@ || c == "FamilyInstance"@ || c == "RbsPipeCurve"@) && f == "m_createdPhaseId"@ && id == -1012100 {
        cat + 1
    } else if (c == "SWall"@ || c == "FamilyInstance"@ || c == "RbsPipeCurve"@) && f == "m_demolishedPhaseId"@ && id == -1012101 {
        cat + 2
    } else if f == "m_categoryId"@ && id == -1140362 {
        0
    } else if f == "m_categoryId"@ && id == -1140363 {
        1
    } else if f == "m_masterSymbolId"@ && id == -1002052 {
        cat + 1 + ph
    } else if f == "m_masterSymbolId"@ && id == -1002051 {
        cat + 2 + ph
    } else if f == "m_masterSymbolId"@ && id == -1002050 {
        cat + 3 + ph
    } else if f == "m_masterSymbolId"@ && id == -1002000 {
        cat + 4 + ph
    } else if f == "m_assocLevelId"@ && id == -1002062 {
        cat + 5 + ph
    } else if f == "m_assocLevelId"@ && id == -1001352 {
        cat + 6 + ph
    } else {
        cat + 7 + ph
    };
    assert(0 <= k < fs.len() && fs[k] == (f, id, "ElementId"@));
    let direct = append_rows(t, 0, Seq::empty(), fs);
    assert(direct is Ok);
    lemma_append_rows_has(t, 0, Seq::empty(), fs, k);
    let rows = direct->Ok_0;
    let i = choose|i: int| 0 <= i < rows.len() && ({
        let r = #[trigger] rows[i];
        &&& r.parameter_id == fs[k].1
        &&& r.source_field == Seq::<char>::empty() + fs[k].0
        &&& r.source_object == 0
        &&& r.projection_rule == "direct_saved_field"@
        &&& r.storage_type == fs[k].2
    });
    assert(Seq::<char>::empty() + f =~= f);
    let fr = field_rows(g)->Ok_0;
    assert(fr[i] == rows[i]);
    let all = spec_project(g)->Ok_0.raw_field_parameters;
    assert(all[i] == fr[i]);
}

} // verus!
