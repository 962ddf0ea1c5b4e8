//! Decoding the deferred-object graph of a bounded owner body: the root
//! object, then every object a pointer defers to, in first-discovery
//! order, with pointer sharing scoped to the body.
use vstd::prelude::*;

use std::collections::BTreeMap;

use crate::graph_links::{clone_guid, link, links_consistent, queue_view, spec_link, LinkState};

use crate::extensible_storage::{Catalog, Schema};
use crate::graph::{
    initial_graph_limits, lemma_retry_grows_within_ceilings, next_graph_limits, spec_next_graph_limits,
    BudgetFailure, FieldSpan, GraphEdge, GraphLimits, GraphUsage, ADAPTIVE_GRAPH_MAX_OBJECTS,
    ADAPTIVE_GRAPH_MAX_VALUES,
};
use crate::schema::{class_index, Registry};
use crate::text::{concat, concat_number, text_contains, text_has, text_of};
use crate::value_cursor::{catalog_prefixes, catalog_view, span_view, Cursor, DecodeError};
use crate::value_grammar::{
    dec, le_u16, spec_class, spec_entity_fields, tokens_view, DecodeContext, DecodeState, PendingView, SpanView, Token, TokenView,
};

verus! {

/// One decoded object of a graph.
#[derive(Clone, Debug)]
pub struct GraphObject {
    pub class_tag: u16,
    pub class_name: String,
    pub token: u32,
    pub start: usize,
    pub fields_end: usize,
    pub fields: Vec<Token>,
}

/// The objects of a body and the pointer edges between them.
#[derive(Clone, Debug)]
pub struct ObjectGraph {
    pub consumed_bytes: usize,
    pub objects: Vec<GraphObject>,
    pub edges: Vec<GraphEdge>,
}

/// The directly stored root of an owner body, without its deferred
/// objects.
#[derive(Clone, Debug)]
pub struct RootObject {
    pub class_tag: u16,
    pub class_name: String,
    pub fields: Vec<Token>,
    pub consumed_bytes: usize,
    pub values: usize,
}

/// The fields of one object at a known offset.
#[derive(Clone, Debug)]
pub struct ObjectFields {
    pub field_spans: Vec<FieldSpan>,
    pub class_tag: u16,
    pub class_name: String,
    pub start: usize,
    pub end: usize,
    pub fields: Vec<Token>,
}

/// An object as plain values.
pub struct ObjectView {
    pub class_tag: u16,
    pub class_name: Seq<char>,
    pub token: u32,
    pub start: usize,
    pub fields_end: usize,
    pub fields: Seq<TokenView>,
}

impl GraphObject {
    pub open spec fn view(&self) -> ObjectView {
        ObjectView {
            class_tag: self.class_tag,
            class_name: self.class_name@,
            token: self.token,
            start: self.start,
            fields_end: self.fields_end,
            fields: tokens_view(self.fields@),
        }
    }
}

/// A graph as plain values.
pub struct GraphView {
    pub consumed_bytes: usize,
    pub objects: Seq<ObjectView>,
    pub edges: Seq<GraphEdge>,
}

impl ObjectGraph {
    pub open spec fn view(&self) -> GraphView {
        GraphView {
            consumed_bytes: self.consumed_bytes,
            objects: self.objects@.map_values(|o: GraphObject| o@),
            edges: self.edges@,
        }
    }
}

/// A root object as plain values.
pub struct RootView {
    pub class_tag: u16,
    pub class_name: Seq<char>,
    pub fields: Seq<TokenView>,
    pub consumed_bytes: usize,
    pub values: usize,
}

impl RootObject {
    pub open spec fn view(&self) -> RootView {
        RootView {
            class_tag: self.class_tag,
            class_name: self.class_name@,
            fields: tokens_view(self.fields@),
            consumed_bytes: self.consumed_bytes,
            values: self.values,
        }
    }
}

/// Object fields as plain values.
pub struct ObjectFieldsView {
    pub field_spans: Seq<SpanView>,
    pub class_tag: u16,
    pub class_name: Seq<char>,
    pub start: usize,
    pub end: usize,
    pub fields: Seq<TokenView>,
}

impl ObjectFields {
    pub open spec fn view(&self) -> ObjectFieldsView {
        ObjectFieldsView {
            field_spans: self.field_spans@.map_values(|s: FieldSpan| span_view(s)),
            class_tag: self.class_tag,
            class_name: self.class_name@,
            start: self.start,
            end: self.end,
            fields: tokens_view(self.fields@),
        }
    }
}

/// Decoding one queued object: an Extensible Storage entity payload, or
/// an object of the class its tag names.  Reads its class name.
pub open spec fn spec_object(c: DecodeContext, s: DecodeState, tag: u16, guid: Option<Seq<char>>) -> Result<
    (Seq<char>, DecodeState),
    Seq<char>,
> {
    match guid {
        Some(g) => match spec_entity_fields(c, s, g) {
            Err((m, _)) => Err("ES entity "@ + g + " starts"@ + dec(s.pos) + ": "@ + m),
            Ok(t) => Ok(("ExtensibleStorageEntity"@, t)),
        },
        None => match class_index(c.registry, tag) {
            None => Err("graph class absent"@),
            Some(i) => match spec_class(c, s, tag, 0) {
                Err((m, _)) => Err("graph "@ + c.registry.classes@[i].name@ + " starts"@ + dec(s.pos) + ": "@ + m),
                Ok(t) => Ok((c.registry.classes@[i].name@, t)),
            },
        },
    }
}

/// A graph decode in progress.
pub struct GraphState {
    pub cur: DecodeState,
    pub objects: Seq<ObjectView>,
    pub link: LinkState,
    pub head: int,
}

/// Decoding the object at the head of the queue and resolving the
/// pointers it deferred: the decoded object, the state after it, and the
/// links after it.
#[verifier::opaque]
pub open spec fn spec_graph_step(c: DecodeContext, g: GraphState) -> Result<(ObjectView, DecodeState, LinkState), Seq<char>> {
    let (token, tag, guid) = g.link.queue[g.head];
    match spec_object(c, g.cur, tag, guid) {
        Err(m) => Err(m),
        Ok((name, s)) => {
            let obj = ObjectView {
                class_tag: tag,
                class_name: name,
                token,
                start: g.cur.pos as usize,
                fields_end: s.pos as usize,
                fields: s.out,
            };
            match spec_link(
                c.limits.max_objects as int,
                g.objects.len() + 1int,
                g.head + 1,
                g.link,
                g.objects.len() as int,
                s.pending,
                0,
            ) {
                Err(m) => Err(m),
                Ok(l) => Ok((obj, s, l)),
            }
        },
    }
}

/// Decoding the queued objects from `head` on, each within the object
/// budget.
pub open spec fn spec_graph_rest(c: DecodeContext, g: GraphState) -> Result<GraphState, Seq<char>>
    decreases (if g.objects.len() < c.limits.max_objects {
        c.limits.max_objects - g.objects.len()
    } else {
        0
    }),
{
    if g.head < 0 || g.head >= g.link.queue.len() {
        Ok(g)
    } else if g.objects.len() >= c.limits.max_objects {
        Err("native graph object budget exceeded"@)
    } else {
        match spec_graph_step(c, g) {
            Err(m) => Err(m),
            Ok((obj, s, l)) => spec_graph_rest(
                c,
                GraphState {
                    cur: DecodeState { out: Seq::empty(), pending: Seq::empty(), ..s },
                    objects: g.objects.push(obj),
                    link: l,
                    head: g.head + 1,
                },
            ),
        }
    }
}

/// A state that has done nothing at `pos`.
pub open spec fn fresh(pos: int) -> DecodeState {
    DecodeState { pos, items: 0, pending: Seq::empty(), spans: Seq::empty(), out: Seq::empty() }
}

/// Every budget allows something.
pub open spec fn budgets_positive(limits: GraphLimits) -> bool {
    limits.max_values > 0 && limits.max_objects > 0 && limits.max_depth > 0
}

/// The graph of a body: its root object at offset 2 under the class the
/// first two bytes name, then every deferred object; the whole body must
/// be consumed.
#[verifier::opaque]
pub open spec fn spec_decode_graph(
    body: Seq<u8>,
    registry: Registry,
    limits: GraphLimits,
    catalog: Option<Seq<Schema>>,
    prefixes: Seq<u64>,
) -> Result<(GraphView, GraphUsage), Seq<char>> {
    if !budgets_positive(limits) {
        Err("native graph resource budgets must be positive"@)
    } else if body.len() < 2 {
        Err("truncated root object tag"@)
    } else {
        let c = DecodeContext { body, registry, catalog, prefixes, collect: true, limits };
        let g0 = GraphState {
            cur: fresh(2),
            objects: Seq::empty(),
            link: LinkState {
                edges: Seq::empty(),
                shared: Map::empty(),
                queue: seq![(0u32, le_u16(body, 0) as u16, None::<Seq<char>>)],
            },
            head: 0,
        };
        match spec_graph_rest(c, g0) {
            Err(m) => Err(m),
            Ok(g) => if g.cur.pos != body.len() {
                Err("native graph leaves "@ + dec(body.len() - g.cur.pos) + " unconsumed bytes"@)
            } else {
                Ok(
                    (
                        GraphView { consumed_bytes: g.cur.pos as usize, objects: g.objects, edges: g.link.edges },
                        GraphUsage { values: g.cur.items as usize, objects: g.objects.len() as usize },
                    ),
                )
            },
        }
    }
}

/// The root object of a body alone: its stored fields, stopping before
/// the objects its pointers defer to, which are not kept.
pub open spec fn spec_decode_root(
    body: Seq<u8>,
    registry: Registry,
    limits: GraphLimits,
    catalog: Option<Seq<Schema>>,
    prefixes: Seq<u64>,
) -> Result<RootView, Seq<char>> {
    if !budgets_positive(limits) {
        Err("native graph resource budgets must be positive"@)
    } else if body.len() < 2 {
        Err("truncated root object tag"@)
    } else {
        let tag = le_u16(body, 0) as u16;
        match class_index(registry, tag) {
            None => Err("graph class absent"@),
            Some(i) => {
                let name = registry.classes@[i].name@;
                let c = DecodeContext { body, registry, catalog, prefixes, collect: false, limits };
                match spec_class(c, fresh(2), tag, 0) {
                    Err((m, _)) => Err("root graph "@ + name + " starts2: "@ + m),
                    Ok(s) => Ok(
                        RootView {
                            class_tag: tag,
                            class_name: name,
                            fields: s.out,
                            consumed_bytes: s.pos as usize,
                            values: s.items as usize,
                        },
                    ),
                }
            },
        }
    }
}

/// The budgets a decode has by default.
pub open spec fn default_limits() -> GraphLimits {
    GraphLimits { max_values: 100_000, max_objects: 100_000, max_depth: 128 }
}

/// The fields of the object of class `class_tag` at `start`, with the span
/// of each field, under the default budgets and without a catalog.
#[verifier::opaque]
pub open spec fn spec_decode_object_fields(body: Seq<u8>, registry: Registry, start: int, class_tag: u16) -> Result<
    ObjectFieldsView,
    Seq<char>,
> {
    if start > body.len() {
        Err("native object offset outside bounded body"@)
    } else {
        match class_index(registry, class_tag) {
            None => Err("native object class absent"@),
            Some(i) => {
                let c = DecodeContext {
                    body,
                    registry,
                    catalog: None,
                    prefixes: Seq::empty(),
                    collect: true,
                    limits: default_limits(),
                };
                match spec_class(c, fresh(start), class_tag, 0) {
                    Err((m, _)) => Err(m),
                    Ok(s) => Ok(
                        ObjectFieldsView {
                            field_spans: s.spans,
                            class_tag,
                            class_name: registry.classes@[i].name@,
                            start: start as usize,
                            end: s.pos as usize,
                            fields: s.out,
                        },
                    ),
                }
            },
        }
    }
}





pub open spec fn objects_view(v: Seq<GraphObject>) -> Seq<ObjectView> {
    v.map_values(|o: GraphObject| o@)
}

/// Each edge comes from a decoded object, has a non-null token and
/// reaches a decoded object of the class it names; edges that share a
/// token other than the unshared `u32::MAX` reach the same object.
pub open spec fn edges_resolve(g: ObjectGraph) -> bool {
    &&& forall|i: int| 0 <= i < g.edges@.len() ==> {
        let e = #[trigger] g.edges@[i];
        &&& e.source_object_index < g.objects@.len()
        &&& e.target_object_index < g.objects@.len()
        &&& e.pointer_token != 0
        &&& g.objects@[e.target_object_index as int].class_tag == e.target_class_tag
    }
    &&& forall|i: int, j: int|
        0 <= i < g.edges@.len() && 0 <= j < g.edges@.len() && (#[trigger] g.edges@[i]).pointer_token
            == (#[trigger] g.edges@[j]).pointer_token && g.edges@[i].pointer_token != u32::MAX
            ==> g.edges@[i].target_object_index == g.edges@[j].target_object_index
}

/// What every decoded graph satisfies: it consumed the whole body, kept
/// to its object budget and its edges resolve.
pub open spec fn graph_shape(g: ObjectGraph, body_len: nat, limits: GraphLimits) -> bool {
    &&& g.consumed_bytes == body_len
    &&& g.objects@.len() <= limits.max_objects
    &&& edges_resolve(g)
}

/// A decoded graph and its usage: the shape laws, and the usage counts
/// the objects and stays within the value budget.
pub open spec fn graph_laws(g: ObjectGraph, u: GraphUsage, body_len: nat, limits: GraphLimits) -> bool {
    &&& graph_shape(g, body_len, limits)
    &&& u.objects == g.objects@.len()
    &&& u.values <= limits.max_values
}

/// Decoding the object at the head of the queue and resolving its
/// pointers.
fn decode_next(
    cursor: &mut Cursor,
    registry: &Registry,
    objects: &mut Vec<GraphObject>,
    edges: &mut Vec<GraphEdge>,
    shared: &mut BTreeMap<u32, (usize, u16)>,
    queue: &mut Vec<(u32, u16, Option<String>)>,
    head: usize,
    max_objects: usize,
) -> (r: Result<(), DecodeError>)
    requires
        old(cursor).wf(),
        old(cursor).ctx().registry == *registry,
        old(cursor).ctx().limits.max_objects == max_objects,
        head < old(queue)@.len(),
        old(objects)@.len() < max_objects,
        old(cursor).state().pending == Seq::<PendingView>::empty(),
        head == old(objects)@.len(),
        links_consistent(old(edges)@, old(shared)@, queue_view(old(queue)@), old(objects)@.len() as int),
        forall|i: int| 0 <= i < old(objects)@.len() ==> (#[trigger] old(objects)@[i]).class_tag == queue_view(old(queue)@)[i].1,
    ensures
        final(cursor).wf(),
        final(cursor).ctx() == old(cursor).ctx(),
        match spec_graph_step(
            old(cursor).ctx(),
            GraphState {
                cur: old(cursor).state(),
                objects: objects_view(old(objects)@),
                link: LinkState { edges: old(edges)@, shared: old(shared)@, queue: queue_view(old(queue)@) },
                head: head as int,
            },
        ) {
            Ok((obj, s, l)) => r is Ok && objects_view(final(objects)@) == objects_view(old(objects)@).push(obj)
                && final(cursor).state() == (DecodeState { out: Seq::empty(), pending: Seq::empty(), ..s }) && final(edges)@ == l.edges
                && final(shared)@ == l.shared && queue_view(final(queue)@) == l.queue,
            Err(m) => r matches Err(e) && e.message@ == m,
        },
        final(queue)@.len() >= old(queue)@.len(),
        r is Ok ==> links_consistent(final(edges)@, final(shared)@, queue_view(final(queue)@), final(objects)@.len() as int),
        r is Ok ==> forall|i: int| 0 <= i < final(objects)@.len() ==> (#[trigger] final(objects)@[i]).class_tag == queue_view(final(queue)@)[i].1,
        r is Ok ==> final(objects)@.len() == old(objects)@.len() + 1,
{
    proof {
        reveal(spec_graph_step);
    }
    let token = queue[head].0;
    let qtag = queue[head].1;
    let guid = clone_guid(&queue[head].2);
    proof {
        assert(queue_view(queue@)[head as int] == (token, qtag, match guid {
            Some(g) => Some(g@),
            None => None,
        }));
    }
    let ql = queue.len();
    let start = cursor.position();
    let name: String = match &guid {
        Some(g) => match cursor.entity_fields(g.as_str()) {
            Err(e) => {
                let mut m = concat(concat(text_of("ES entity "), g.as_str()), " starts");
                m = concat_number(m, start);
                m = concat(concat(m, ": "), e.message.as_str());
                return Err(DecodeError::new(m));
            },
            Ok(()) => text_of("ExtensibleStorageEntity"),
        },
        None => match registry.class(qtag) {
            None => return Err(DecodeError::new(text_of("graph class absent"))),
            Some(cl) => match cursor.class(qtag, 0) {
                Err(e) => {
                    let mut m = concat(concat(text_of("graph "), cl.name.as_str()), " starts");
                    m = concat_number(m, start);
                    m = concat(concat(m, ": "), e.message.as_str());
                    return Err(DecodeError::new(m));
                },
                Ok(()) => cl.name.clone(),
            },
        },
    };
    let fields_end = cursor.position();
    let fields = cursor.take_tokens();
    let ghost before = objects@;
    let obj = GraphObject { class_tag: qtag, class_name: name, token, start, fields_end, fields };
    let ghost ov = obj@;
    objects.push(obj);
    proof {
        assert(objects_view(objects@) =~= objects_view(before).push(ov));
    }
    let pending = cursor.take_pending();
    let ghost q0 = queue_view(queue@);
    let r = link(&pending, objects.len() - 1, objects.len(), head + 1, max_objects, edges, shared, queue);
    proof {
        if r is Ok {
            assert forall|i: int| 0 <= i < objects@.len() implies (#[trigger] objects@[i]).class_tag == queue_view(queue@)[i].1 by {
                assert(queue_view(queue@)[i] == q0[i]);
                if i < before.len() {
                    assert(objects@[i] == before[i]);
                }
            }
        }
    }
    r
}

/// The graph of a body, given the source-bound prefix length of each
/// catalog schema.
pub fn decode_graph_with_layouts(
    body: &[u8],
    registry: &Registry,
    limits: &GraphLimits,
    catalog: Option<&Catalog>,
    prefixes: &[u64],
) -> (r: Result<(ObjectGraph, GraphUsage), DecodeError>)
    requires
        catalog matches Some(c) ==> prefixes@.len() == c.view().len(),
    ensures
        match spec_decode_graph(body@, *registry, *limits, catalog_view(catalog), prefixes@) {
            Ok((v, u)) => r matches Ok((g, u2)) && g@ == v && u2 == u,
            Err(m) => r matches Err(e) && e.message@ == m,
        },
        r matches Ok((g, u)) ==> graph_laws(g, u, body@.len(), *limits),
{
    proof {
        reveal(spec_decode_graph);
    }
    if !(limits.max_values > 0 && limits.max_objects > 0 && limits.max_depth > 0) {
        return Err(DecodeError::new(text_of("native graph resource budgets must be positive")));
    }
    if body.len() < 2 {
        return Err(DecodeError::new(text_of("truncated root object tag")));
    }
    let tag: u16 = body[0] as u16 + body[1] as u16 * 0x100;
    let mut cursor = Cursor::new(body, registry, catalog, prefixes, 2, true, *limits);
    let ghost c = cursor.ctx();
    let mut objects: Vec<GraphObject> = Vec::new();
    let mut edges: Vec<GraphEdge> = Vec::new();
    let mut shared: BTreeMap<u32, (usize, u16)> = BTreeMap::new();
    let mut queue: Vec<(u32, u16, Option<String>)> = Vec::new();
    queue.push((0, tag, None));
    let mut head: usize = 0;
    let ghost g0 = GraphState {
        cur: fresh(2),
        objects: Seq::empty(),
        link: LinkState {
            edges: Seq::empty(),
            shared: Map::empty(),
            queue: seq![(0u32, le_u16(body@, 0) as u16, None::<Seq<char>>)],
        },
        head: 0,
    };
    proof {
        assert(queue_view(queue@) =~= g0.link.queue);
        assert(objects_view(objects@) =~= Seq::<ObjectView>::empty());
        assert(edges@ =~= Seq::<GraphEdge>::empty());
        assert(shared@ =~= Map::<u32, (usize, u16)>::empty());
    }
    let ghost whole = spec_graph_rest(c, g0);
    let ghost goal = spec_decode_graph(body@, *registry, *limits, catalog_view(catalog), prefixes@);
    proof {
        assert(cursor.state() == g0.cur);
    }
    while head < queue.len()
        invariant
            cursor.wf(),
            cursor.ctx() == c,
            c == (DecodeContext {
                body: body@,
                registry: *registry,
                catalog: catalog_view(catalog),
                prefixes: prefixes@,
                collect: true,
                limits: *limits,
            }),
            head <= queue@.len(),
            objects@.len() <= limits.max_objects,
            cursor.state().out == Seq::<TokenView>::empty(),
            cursor.state().pending == Seq::<PendingView>::empty(),
            head == objects@.len(),
            links_consistent(edges@, shared@, queue_view(queue@), objects@.len() as int),
            forall|i: int| 0 <= i < objects@.len() ==> (#[trigger] objects@[i]).class_tag == queue_view(queue@)[i].1,
            goal == spec_decode_graph(body@, *registry, *limits, catalog_view(catalog), prefixes@),
            goal == match whole {
                Err(m) => Err(m),
                Ok(g) => if g.cur.pos != body@.len() {
                    Err("native graph leaves "@ + dec(body@.len() - g.cur.pos) + " unconsumed bytes"@)
                } else {
                    Ok(
                        (
                            GraphView { consumed_bytes: g.cur.pos as usize, objects: g.objects, edges: g.link.edges },
                            GraphUsage { values: g.cur.items as usize, objects: g.objects.len() as usize },
                        ),
                    )
                },
            },
            whole == spec_graph_rest(
                c,
                GraphState {
                    cur: cursor.state(),
                    objects: objects_view(objects@),
                    link: LinkState { edges: edges@, shared: shared@, queue: queue_view(queue@) },
                    head: head as int,
                },
            ),
        decreases limits.max_objects - objects@.len(),
    {
        if objects.len() >= limits.max_objects {
            return Err(DecodeError::new(text_of("native graph object budget exceeded")));
        }
        match decode_next(&mut cursor, registry, &mut objects, &mut edges, &mut shared, &mut queue, head, limits.max_objects) {
            Ok(()) => {},
            Err(e) => return Err(e),
        }
        head += 1;
    }
    let pos = cursor.position();
    if pos != body.len() {
        return Err(DecodeError::new(concat(concat_number(text_of("native graph leaves "), body.len() - pos), " unconsumed bytes")));
    }
    let usage = GraphUsage { values: cursor.values(), objects: objects.len() };
    let graph = ObjectGraph { consumed_bytes: pos, objects, edges };
    proof {
        assert forall|i: int, j: int|
            0 <= i < graph.edges@.len() && 0 <= j < graph.edges@.len() && (#[trigger] graph.edges@[i]).pointer_token
                == (#[trigger] graph.edges@[j]).pointer_token && graph.edges@[i].pointer_token != u32::MAX implies graph.edges@[i].target_object_index
            == graph.edges@[j].target_object_index by {
            assert(links_consistent(graph.edges@, shared@, queue_view(queue@), graph.objects@.len() as int));
        }
        assert forall|i: int| 0 <= i < graph.edges@.len() implies {
            let e = #[trigger] graph.edges@[i];
            &&& e.source_object_index < graph.objects@.len()
            &&& e.target_object_index < graph.objects@.len()
            &&& e.pointer_token != 0
            &&& graph.objects@[e.target_object_index as int].class_tag == e.target_class_tag
        } by {
            let e = graph.edges@[i];
            assert(links_consistent(graph.edges@, shared@, queue_view(queue@), graph.objects@.len() as int));
            assert(graph.objects@[e.target_object_index as int].class_tag == queue_view(queue@)[e.target_object_index as int].1);
        }
    }
    Ok((graph, usage))
}

/// A graph result matches the grammar's.
pub open spec fn graph_outcome(r: Result<(ObjectGraph, GraphUsage), DecodeError>, s: Result<(GraphView, GraphUsage), Seq<char>>) -> bool {
    match s {
        Ok((v, u)) => r matches Ok((g, u2)) && g@ == v && u2 == u,
        Err(m) => r matches Err(e) && e.message@ == m,
    }
}

/// The graph of a body, with the usage of its budgets; a catalog's
/// schemas take their prefix lengths from their metadata.
pub fn decode_graph_with_catalog_usage(
    body: &[u8],
    registry: &Registry,
    limits: &GraphLimits,
    catalog: Option<&Catalog>,
) -> (r: Result<(ObjectGraph, GraphUsage), DecodeError>)
    ensures
        match catalog {
            None => graph_outcome(r, spec_decode_graph(body@, *registry, *limits, None, Seq::empty())),
            Some(c) => graph_outcome(r, spec_decode_graph(body@, *registry, *limits, Some(c.view()), catalog_prefixes(catalog))),
        },
        r matches Ok((g, u)) ==> graph_laws(g, u, body@.len(), *limits),
{
    match catalog {
        None => {
            let none: Vec<u64> = Vec::new();
            proof {
                assert(none@ =~= Seq::<u64>::empty());
            }
            decode_graph_with_layouts(body, registry, limits, None, none.as_slice())
        },
        Some(c) => {
            let prefixes = c.source_bound_prefixes();
            let r = decode_graph_with_layouts(body, registry, limits, Some(c), prefixes.as_slice());
            proof {
                assert(graph_outcome(r, spec_decode_graph(body@, *registry, *limits, Some(c.view()), prefixes@)));
            }
            r
        },
    }
}

/// A graph result without usage matches the grammar's.
pub open spec fn graph_only_outcome(r: Result<ObjectGraph, DecodeError>, s: Result<(GraphView, GraphUsage), Seq<char>>) -> bool {
    match s {
        Ok((v, _)) => r matches Ok(g) && g@ == v,
        Err(m) => r matches Err(e) && e.message@ == m,
    }
}

/// The graph of a body; a catalog's schemas take their prefix lengths from
/// their metadata.
pub fn decode_graph_with_catalog(
    body: &[u8],
    registry: &Registry,
    limits: &GraphLimits,
    catalog: Option<&Catalog>,
) -> (r: Result<ObjectGraph, DecodeError>)
    ensures
        catalog is None ==> graph_only_outcome(r, spec_decode_graph(body@, *registry, *limits, None, Seq::empty())),
        catalog matches Some(c) ==> graph_only_outcome(
            r,
            spec_decode_graph(body@, *registry, *limits, Some(c.view()), catalog_prefixes(catalog)),
        ),
        r matches Ok(g) ==> graph_shape(g, body@.len(), *limits),
{
    let u = decode_graph_with_catalog_usage(body, registry, limits, catalog);
    let ghost p: Seq<u64> = catalog_prefixes(catalog);
    let ghost spec = spec_decode_graph(body@, *registry, *limits, catalog_view(catalog), p);
    proof {
        assert(graph_outcome(u, spec));
    }
    let r = match u {
        Ok(pair) => Ok(pair.0),
        Err(e) => Err(e),
    };
    proof {
        assert(graph_only_outcome(r, spec));
    }
    r
}

/// The graph of a body under explicit budgets, without a catalog.
pub fn decode_graph_with_limits(body: &[u8], registry: &Registry, limits: &GraphLimits) -> (r: Result<ObjectGraph, DecodeError>)
    ensures
        match spec_decode_graph(body@, *registry, *limits, None, Seq::empty()) {
            Ok((v, _)) => r matches Ok(g) && g@ == v,
            Err(m) => r matches Err(e) && e.message@ == m,
        },
        r matches Ok(g) ==> graph_shape(g, body@.len(), *limits),
{
    decode_graph_with_catalog(body, registry, limits, None)
}

/// The graph of a body under the default budgets, without a catalog.
pub fn decode_graph(body: &[u8], registry: &Registry) -> (r: Result<ObjectGraph, DecodeError>)
    ensures
        match spec_decode_graph(body@, *registry, default_limits(), None, Seq::empty()) {
            Ok((v, _)) => r matches Ok(g) && g@ == v,
            Err(m) => r matches Err(e) && e.message@ == m,
        },
        r matches Ok(g) ==> graph_shape(g, body@.len(), default_limits()),
{
    decode_graph_with_limits(body, registry, &GraphLimits::default())
}

/// The root object of a body, given the source-bound prefix length of
/// each catalog schema.
pub fn decode_root_with_layouts(
    body: &[u8],
    registry: &Registry,
    limits: &GraphLimits,
    catalog: Option<&Catalog>,
    prefixes: &[u64],
) -> (r: Result<RootObject, DecodeError>)
    requires
        catalog matches Some(c) ==> prefixes@.len() == c.view().len(),
    ensures
        match spec_decode_root(body@, *registry, *limits, catalog_view(catalog), prefixes@) {
            Ok(v) => r matches Ok(o) && o@ == v,
            Err(m) => r matches Err(e) && e.message@ == m,
        },
        r matches Ok(o) ==> o.consumed_bytes <= body@.len() && o.values <= limits.max_values,
{
    proof {
        reveal(spec_decode_root);
    }
    if !(limits.max_values > 0 && limits.max_objects > 0 && limits.max_depth > 0) {
        return Err(DecodeError::new(text_of("native graph resource budgets must be positive")));
    }
    if body.len() < 2 {
        return Err(DecodeError::new(text_of("truncated root object tag")));
    }
    let tag: u16 = body[0] as u16 + body[1] as u16 * 0x100;
    let cl = match registry.class(tag) {
        None => return Err(DecodeError::new(text_of("graph class absent"))),
        Some(c) => c,
    };
    let mut cursor = Cursor::new(body, registry, catalog, prefixes, 2, false, *limits);
    match cursor.class(tag, 0) {
        Err(e) => Err(DecodeError::new(concat(concat(concat(text_of("root graph "), cl.name.as_str()), " starts2: "), e.message.as_str()))),
        Ok(()) => {
            let consumed_bytes = cursor.position();
            let values = cursor.values();
            let fields = cursor.take_tokens();
            Ok(RootObject { class_tag: tag, class_name: cl.name.clone(), fields, consumed_bytes, values })
        },
    }
}

/// The root object of a body; a catalog's schemas take their prefix
/// lengths from their metadata.
pub fn decode_root_with_catalog_usage(
    body: &[u8],
    registry: &Registry,
    limits: &GraphLimits,
    catalog: Option<&Catalog>,
) -> (r: Result<RootObject, DecodeError>)
    ensures
        match catalog {
            None => match spec_decode_root(body@, *registry, *limits, None, Seq::empty()) {
                Ok(v) => r matches Ok(o) && o@ == v,
                Err(m) => r matches Err(e) && e.message@ == m,
            },
            Some(c) => root_outcome(r, spec_decode_root(body@, *registry, *limits, Some(c.view()), catalog_prefixes(catalog))),
        },
        r matches Ok(o) ==> o.consumed_bytes <= body@.len() && o.values <= limits.max_values,
{
    match catalog {
        None => {
            let none: Vec<u64> = Vec::new();
            proof {
                assert(none@ =~= Seq::<u64>::empty());
            }
            decode_root_with_layouts(body, registry, limits, None, none.as_slice())
        },
        Some(c) => {
            let prefixes = c.source_bound_prefixes();
            let r = decode_root_with_layouts(body, registry, limits, Some(c), prefixes.as_slice());
            proof {
                assert(root_outcome(r, spec_decode_root(body@, *registry, *limits, Some(c.view()), prefixes@)));
            }
            r
        },
    }
}

/// A root result matches the grammar's.
pub open spec fn root_outcome(r: Result<RootObject, DecodeError>, s: Result<RootView, Seq<char>>) -> bool {
    match s {
        Ok(v) => r matches Ok(o) && o@ == v,
        Err(m) => r matches Err(e) && e.message@ == m,
    }
}

/// The fields of the object of class `class_tag` that the caller located
/// at `start`, with their spans.
pub fn decode_object_fields(body: &[u8], registry: &Registry, start: usize, class_tag: u16) -> (r: Result<ObjectFields, DecodeError>)
    ensures
        match spec_decode_object_fields(body@, *registry, start as int, class_tag) {
            Ok(v) => r matches Ok(o) && o@ == v,
            Err(m) => r matches Err(e) && e.message@ == m,
        },
        r matches Ok(o) ==> o.end <= body@.len(),
{
    proof {
        reveal(spec_decode_object_fields);
    }
    if start > body.len() {
        return Err(DecodeError::new(text_of("native object offset outside bounded body")));
    }
    let cl = match registry.class(class_tag) {
        None => return Err(DecodeError::new(text_of("native object class absent"))),
        Some(c) => c,
    };
    let none: Vec<u64> = Vec::new();
    let mut cursor = Cursor::new(body, registry, None, none.as_slice(), start, true, GraphLimits::default());
    proof {
        assert(none@ =~= Seq::<u64>::empty());
    }
    match cursor.class(class_tag, 0) {
        Err(e) => Err(e),
        Ok(()) => {
            let end = cursor.position();
            let fields = cursor.take_tokens();
            let field_spans = cursor.take_spans();
            Ok(ObjectFields { field_spans, class_tag, class_name: cl.name.clone(), start, end, fields })
        },
    }
}

/// A failed decode exhausted a value or container budget.
pub open spec fn value_budget_failure(m: Seq<char>) -> bool {
    text_has(m, "native field value budget exceeded"@) || text_has(m, "native container count budget exceeded"@)
        || text_has(m, "native compact container count budget exceeded"@)
}

/// A failed decode exhausted the object budget.
pub open spec fn object_budget_failure(m: Seq<char>) -> bool {
    text_has(m, "native graph object budget exceeded"@)
}

/// How far the budgets may still grow toward their ceilings.
pub open spec fn budget_room(l: GraphLimits) -> nat {
    ((if l.max_values < ADAPTIVE_GRAPH_MAX_VALUES {
        ADAPTIVE_GRAPH_MAX_VALUES - l.max_values
    } else {
        0
    }) + (if l.max_objects < ADAPTIVE_GRAPH_MAX_OBJECTS {
        ADAPTIVE_GRAPH_MAX_OBJECTS - l.max_objects
    } else {
        0
    })) as nat
}

/// Decoding under growing budgets: a decode that exhausts a budget is
/// retried with that budget grown, until it succeeds or nothing can grow;
/// a success reports whether it needed a retry, and a failure after a
/// retry names its budgets and the failure before it.
pub open spec fn spec_adaptive(
    body: Seq<u8>,
    registry: Registry,
    catalog: Option<Seq<Schema>>,
    prefixes: Seq<u64>,
    limits: GraphLimits,
    prior: Option<Seq<char>>,
) -> Result<(GraphView, GraphUsage, bool), Seq<char>>
    decreases budget_room(limits),
{
    match spec_decode_graph(body, registry, limits, catalog, prefixes) {
        Ok((g, u)) => Ok((g, u, prior is Some)),
        Err(m) => {
            let failure = BudgetFailure { values: value_budget_failure(m), objects: object_budget_failure(m) };
            match spec_next_graph_limits(limits, failure) {
                None => Err(
                    match prior {
                        Some(p) => "adaptive graph retry ("@ + dec(limits.max_values as int) + ", "@ + dec(
                            limits.max_objects as int,
                        ) + " values/objects) failed: "@ + m + "; prior failure: "@ + p,
                        None => m,
                    },
                ),
                Some(next) => {
                    proof {
                        lemma_retry_grows_within_ceilings(limits, failure);
                    }
                    spec_adaptive(body, registry, catalog, prefixes, next, Some(m))
                },
            }
        },
    }
}

/// An adaptive result matches the grammar's.
pub open spec fn adaptive_outcome(
    r: Result<(ObjectGraph, GraphUsage, bool), DecodeError>,
    s: Result<(GraphView, GraphUsage, bool), Seq<char>>,
) -> bool {
    match s {
        Ok((v, u, retried)) => r matches Ok((g, u2, b)) && g@ == v && u2 == u && b == retried,
        Err(m) => r matches Err(e) && e.message@ == m,
    }
}

fn classify(e: &DecodeError) -> (f: BudgetFailure)
    ensures
        f == (BudgetFailure { values: value_budget_failure(e.message@), objects: object_budget_failure(e.message@) }),
{
    let m = e.message.as_str();
    let values = text_contains(m, "native field value budget exceeded") || text_contains(m, "native container count budget exceeded")
        || text_contains(m, "native compact container count budget exceeded");
    let objects = text_contains(m, "native graph object budget exceeded");
    BudgetFailure { values, objects }
}

/// The graph of a body under budgets that start at the given value and
/// object budgets and grow on a budget failure, given the source-bound
/// prefix length of each catalog schema; reads whether a retry was needed.
pub fn decode_graph_with_adaptive_layouts(
    body: &[u8],
    registry: &Registry,
    max_graph_values: usize,
    max_graph_objects: usize,
    catalog: Option<&Catalog>,
    prefixes: &[u64],
) -> (r: Result<(ObjectGraph, GraphUsage, bool), DecodeError>)
    requires
        catalog matches Some(c) ==> prefixes@.len() == c.view().len(),
    ensures
        adaptive_outcome(
            r,
            spec_adaptive(
                body@,
                *registry,
                catalog_view(catalog),
                prefixes@,
                GraphLimits { max_values: max_graph_values, max_objects: max_graph_objects, max_depth: 128 },
                None,
            ),
        ),
{
    let mut limits = initial_graph_limits(max_graph_values, max_graph_objects);
    let mut prior: Option<DecodeError> = None;
    let ghost whole = spec_adaptive(body@, *registry, catalog_view(catalog), prefixes@, limits, None);
    loop
        invariant
            catalog matches Some(c) ==> prefixes@.len() == c.view().len(),
            whole == spec_adaptive(
                body@,
                *registry,
                catalog_view(catalog),
                prefixes@,
                GraphLimits { max_values: max_graph_values, max_objects: max_graph_objects, max_depth: 128 },
                None,
            ),
            whole == spec_adaptive(
                body@,
                *registry,
                catalog_view(catalog),
                prefixes@,
                limits,
                match prior {
                    Some(p) => Some(p.message@),
                    None => None,
                },
            ),
        decreases budget_room(limits),
    {
        match decode_graph_with_layouts(body, registry, &limits, catalog, prefixes) {
            Ok((g, u)) => {
                return Ok((g, u, prior.is_some()));
            },
            Err(e) => {
                let failure = classify(&e);
                match next_graph_limits(limits, failure) {
                    None => {
                        return match prior {
                            Some(p) => {
                                let mut m = concat_number(text_of("adaptive graph retry ("), limits.max_values);
                                m = concat(m, ", ");
                                m = concat_number(m, limits.max_objects);
                                m = concat(m, " values/objects) failed: ");
                                m = concat(m, e.message.as_str());
                                m = concat(m, "; prior failure: ");
                                m = concat(m, p.message.as_str());
                                Err(DecodeError::new(m))
                            },
                            None => Err(e),
                        };
                    },
                    Some(next) => {
                        proof {
                            lemma_retry_grows_within_ceilings(limits, failure);
                        }
                        prior = Some(e);
                        limits = next;
                    },
                }
            },
        }
    }
}

/// The graph of a body under growing budgets; a catalog's schemas take
/// their prefix lengths from their metadata.
pub fn decode_graph_with_adaptive_budget(
    body: &[u8],
    registry: &Registry,
    max_graph_values: usize,
    max_graph_objects: usize,
    catalog: Option<&Catalog>,
) -> (r: Result<(ObjectGraph, GraphUsage, bool), DecodeError>)
    ensures
        adaptive_outcome(
                r,
                spec_adaptive(
                    body@,
                    *registry,
                    catalog_view(catalog),
                    catalog_prefixes(catalog),
                    GraphLimits { max_values: max_graph_values, max_objects: max_graph_objects, max_depth: 128 },
                    None,
                ),
            ),
{
    let prefixes: Vec<u64> = match catalog {
        Some(c) => c.source_bound_prefixes(),
        None => Vec::new(),
    };
    proof {
        if catalog is None {
            assert(prefixes@ =~= Seq::<u64>::empty());
        }
    }
    let r = decode_graph_with_adaptive_layouts(body, registry, max_graph_values, max_graph_objects, catalog, prefixes.as_slice());
    proof {
        assert(adaptive_outcome(
            r,
            spec_adaptive(
                body@,
                *registry,
                catalog_view(catalog),
                prefixes@,
                GraphLimits { max_values: max_graph_values, max_objects: max_graph_objects, max_depth: 128 },
                None,
            ),
        ));
    }
    r
}

/// Decoding further queued objects keeps the objects decoded so far.
proof fn lemma_graph_rest_keeps_objects(c: DecodeContext, g: GraphState)
    requires
        spec_graph_rest(c, g) is Ok,
    ensures
        g.objects.is_prefix_of(spec_graph_rest(c, g)->Ok_0.objects),
    decreases (if g.objects.len() < c.limits.max_objects {
        c.limits.max_objects - g.objects.len()
    } else {
        0
    }),
{
    if g.head < 0 || g.head >= g.link.queue.len() {
    } else {
        let (obj, s, l) = spec_graph_step(c, g)->Ok_0;
        let next = GraphState {
            cur: DecodeState { out: Seq::empty(), pending: Seq::empty(), ..s },
            objects: g.objects.push(obj),
            link: l,
            head: g.head + 1,
        };
        lemma_graph_rest_keeps_objects(c, next);
        assert(g.objects.is_prefix_of(next.objects));
    }
}

/// The context of a graph decode without a catalog under the default
/// budgets.
pub open spec fn plain_context(body: Seq<u8>, registry: Registry) -> DecodeContext {
    DecodeContext { body, registry, catalog: None, prefixes: Seq::empty(), collect: true, limits: default_limits() }
}

proof fn lemma_first_object(body: Seq<u8>, registry: Registry, g0: GraphState)
    requires
        g0.cur == fresh(2),
        g0.objects == Seq::<ObjectView>::empty(),
        g0.head == 0,
        g0.link.queue == seq![(0u32, le_u16(body, 0) as u16, None::<Seq<char>>)],
        spec_graph_step(plain_context(body, registry), g0) is Ok,
    ensures
        spec_class(plain_context(body, registry), fresh(2), le_u16(body, 0) as u16, 0) is Ok,
        class_index(registry, le_u16(body, 0) as u16) is Some,
        spec_graph_step(plain_context(body, registry), g0)->Ok_0.0.fields
            == spec_class(plain_context(body, registry), fresh(2), le_u16(body, 0) as u16, 0)->Ok_0.out,
        spec_graph_step(plain_context(body, registry), g0)->Ok_0.0.class_name
            == registry.classes@[class_index(registry, le_u16(body, 0) as u16)->Some_0].name@,
{
    reveal(spec_graph_step);
}

proof fn lemma_object_fields_at_root(body: Seq<u8>, registry: Registry)
    requires
        spec_decode_object_fields(body, registry, 2, le_u16(body, 0) as u16) is Ok,
    ensures
        spec_class(plain_context(body, registry), fresh(2), le_u16(body, 0) as u16, 0) is Ok,
        class_index(registry, le_u16(body, 0) as u16) is Some,
        spec_decode_object_fields(body, registry, 2, le_u16(body, 0) as u16)->Ok_0.fields
            == spec_class(plain_context(body, registry), fresh(2), le_u16(body, 0) as u16, 0)->Ok_0.out,
        spec_decode_object_fields(body, registry, 2, le_u16(body, 0) as u16)->Ok_0.class_name
            == registry.classes@[class_index(registry, le_u16(body, 0) as u16)->Some_0].name@,
{
    reveal(spec_decode_object_fields);
}

/// The fields of the object at offset 2 under the class the body's first
/// two bytes name are those of the root object of the body's graph: both
/// decodes read the same object under the same default budgets.
pub proof fn lemma_object_fields_match_graph_root(body: Seq<u8>, registry: Registry)
    requires
        body.len() >= 2,
        spec_decode_graph(body, registry, default_limits(), None, Seq::empty()) is Ok,
        spec_decode_object_fields(body, registry, 2, le_u16(body, 0) as u16) is Ok,
    ensures
        spec_decode_graph(body, registry, default_limits(), None, Seq::empty())->Ok_0.0.objects[0].fields
            == spec_decode_object_fields(body, registry, 2, le_u16(body, 0) as u16)->Ok_0.fields,
        spec_decode_graph(body, registry, default_limits(), None, Seq::empty())->Ok_0.0.objects[0].class_name
            == spec_decode_object_fields(body, registry, 2, le_u16(body, 0) as u16)->Ok_0.class_name,
{
    reveal(spec_decode_graph);
    let c = plain_context(body, registry);
    let tag = le_u16(body, 0) as u16;
    let g0 = GraphState {
        cur: fresh(2),
        objects: Seq::empty(),
        link: LinkState { edges: Seq::empty(), shared: Map::empty(), queue: seq![(0u32, tag, None::<Seq<char>>)] },
        head: 0,
    };
    assert(spec_graph_rest(c, g0) is Ok);
    let (obj, s, l) = spec_graph_step(c, g0)->Ok_0;
    let g1 = GraphState {
        cur: DecodeState { out: Seq::empty(), pending: Seq::empty(), ..s },
        objects: g0.objects.push(obj),
        link: l,
        head: 1,
    };
    assert(spec_graph_rest(c, g0) == spec_graph_rest(c, g1));
    lemma_graph_rest_keeps_objects(c, g1);
    let result = spec_graph_rest(c, g1)->Ok_0.objects;
    assert(g1.objects[0] == obj);
    assert(g1.objects == result.subrange(0, 1));
    assert(result.subrange(0, 1)[0] == result[0]);
    lemma_first_object(body, registry, g0);
    lemma_object_fields_at_root(body, registry);
}

} // verus!
