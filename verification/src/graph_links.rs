//! The pointer edges of a deferred-object graph: which object each
//! deferred pointer reaches, and the objects still to be decoded.
use vstd::prelude::*;

use std::collections::BTreeMap;

use crate::graph::GraphEdge;
use crate::text::{concat, concat_number, text_of};
use crate::value_cursor::DecodeError;
use crate::value_grammar::{dec, PendingPointer, PendingView};

verus! {

broadcast use vstd::std_specs::btree::group_btree_axioms, vstd::laws_cmp::group_laws_cmp;





/// An object waiting to be decoded: its pointer token, its class tag and,
/// for an Extensible Storage entity, its schema.
pub type Queued = (u32, u16, Option<Seq<char>>);

/// The edges found so far, the tokens already given an object, and the
/// objects waiting to be decoded.
pub struct LinkState {
    pub edges: Seq<GraphEdge>,
    pub shared: Map<u32, (usize, u16)>,
    pub queue: Seq<Queued>,
}

/// Resolving the pointers `k..` that the object at `source` deferred: a
/// token already given an object points to it and must keep its class;
/// another points to a new object at the end of the queue, and is
/// remembered unless it is the unshared token `u32::MAX`.  `objects`
/// counts the decoded objects and `head` the objects taken from the queue.
pub open spec fn spec_link(
    max_objects: int,
    objects: int,
    head: int,
    l: LinkState,
    source: int,
    ps: Seq<PendingView>,
    k: int,
) -> Result<LinkState, Seq<char>>
    decreases ps.len() - k,
{
    if k < 0 || k >= ps.len() {
        Ok(l)
    } else {
        let p = ps[k];
        if l.shared.contains_key(p.token) {
            let (idx, tag) = l.shared[p.token];
            if tag != p.class_tag {
                Err(
                    "shared native pointer token "@ + dec(p.token as int) + " at "@ + dec(p.offset as int)
                        + " changes class from "@ + dec(tag as int) + " to "@ + dec(p.class_tag as int),
                )
            } else {
                spec_link(
                    max_objects,
                    objects,
                    head,
                    LinkState {
                        edges: l.edges.push(
                            GraphEdge {
                                source_object_index: source as usize,
                                pointer_offset: p.offset,
                                pointer_token: p.token,
                                target_object_index: idx,
                                target_class_tag: p.class_tag,
                            },
                        ),
                        ..l
                    },
                    source,
                    ps,
                    k + 1,
                )
            }
        } else {
            let index = objects + (l.queue.len() - head);
            if index >= max_objects {
                Err("native graph object budget exceeded"@)
            } else {
                spec_link(
                    max_objects,
                    objects,
                    head,
                    LinkState {
                        edges: l.edges.push(
                            GraphEdge {
                                source_object_index: source as usize,
                                pointer_offset: p.offset,
                                pointer_token: p.token,
                                target_object_index: index as usize,
                                target_class_tag: p.class_tag,
                            },
                        ),
                        shared: if p.token != u32::MAX {
                            l.shared.insert(p.token, (index as usize, p.class_tag))
                        } else {
                            l.shared
                        },
                        queue: l.queue.push((p.token, p.class_tag, p.schema_guid)),
                    },
                    source,
                    ps,
                    k + 1,
                )
            }
        }
    }
}

/// Queued objects as plain values.
pub open spec fn queue_view(q: Seq<(u32, u16, Option<String>)>) -> Seq<Queued> {
    q.map_values(
        |e: (u32, u16, Option<String>)|
            (
                e.0,
                e.1,
                match e.2 {
                    Some(g) => Some(g@),
                    None => None,
                },
            ),
    )
}

pub fn clone_guid(g: &Option<String>) -> (r: Option<String>)
    ensures
        match *g {
            Some(x) => r matches Some(y) && y@ == x@,
            None => r is None,
        },
{
    match g {
        Some(x) => Some(x.clone()),
        None => None,
    }
}

/// Resolving the pointers that the object at `source` deferred, from the
/// cursor's pending position `pstart` on.
/// The links agree with the queue: every edge comes from one of the
/// first `sources` objects, has a non-null token, and reaches a queued
/// object of its class; a shared token is remembered with the object it
/// reaches, and every remembered token reaches a queued object of its class.
pub open spec fn links_consistent(edges: Seq<GraphEdge>, shared: Map<u32, (usize, u16)>, queue: Seq<Queued>, sources: int) -> bool {
    &&& forall|i: int| 0 <= i < edges.len() ==> {
        let e = #[trigger] edges[i];
        &&& e.source_object_index < sources
        &&& e.target_object_index < queue.len()
        &&& e.pointer_token != 0
        &&& queue[e.target_object_index as int].1 == e.target_class_tag
        &&& (e.pointer_token != u32::MAX ==> shared.contains_key(e.pointer_token)
            && shared[e.pointer_token].0 == e.target_object_index)
    }
    &&& forall|k: u32| #[trigger] shared.contains_key(k) ==> shared[k].0 < queue.len() && queue[shared[k].0 as int].1
        == shared[k].1
}

pub fn link(
    pending: &Vec<PendingPointer>,
    source: usize,
    objects: usize,
    head: usize,
    max_objects: usize,
    edges: &mut Vec<GraphEdge>,
    shared: &mut BTreeMap<u32, (usize, u16)>,
    queue: &mut Vec<(u32, u16, Option<String>)>,
) -> (r: Result<(), DecodeError>)
    requires
        head <= old(queue)@.len(),
        objects <= max_objects,
        objects == head,
        source < objects,
        forall|i: int| 0 <= i < pending@.len() ==> (#[trigger] pending@[i]).token != 0,
        links_consistent(old(edges)@, old(shared)@, queue_view(old(queue)@), source as int),
    ensures
        match spec_link(
            max_objects as int,
            objects as int,
            head as int,
            LinkState { edges: old(edges)@, shared: old(shared)@, queue: queue_view(old(queue)@) },
            source as int,
            pending_view(pending@),
            0,
        ) {
            Ok(l) => r is Ok && final(edges)@ == l.edges && final(shared)@ == l.shared && queue_view(final(queue)@)
                == l.queue,
            Err(m) => r matches Err(e) && e.message@ == m,
        },
        final(queue)@.len() >= old(queue)@.len(),
        queue_view(old(queue)@).is_prefix_of(queue_view(final(queue)@)),
        r is Ok ==> links_consistent(final(edges)@, final(shared)@, queue_view(final(queue)@), source + 1),
{
    let ghost ps = pending_view(pending@);
    let ghost whole = spec_link(
        max_objects as int,
        objects as int,
        head as int,
        LinkState { edges: edges@, shared: shared@, queue: queue_view(queue@) },
        source as int,
        ps,
        0,
    );
    let mut k: usize = 0;
    while k < pending.len()
        invariant
            k <= pending@.len(),
            ps == pending_view(pending@),
            head <= queue@.len(),
            queue@.len() >= old(queue)@.len(),
            objects <= max_objects,
            objects == head,
            source < objects,
            forall|i: int| 0 <= i < pending@.len() ==> (#[trigger] pending@[i]).token != 0,
            queue_view(old(queue)@).is_prefix_of(queue_view(queue@)),
            links_consistent(edges@, shared@, queue_view(queue@), source + 1),
            whole == spec_link(
                max_objects as int,
                objects as int,
                head as int,
                LinkState { edges: old(edges)@, shared: old(shared)@, queue: queue_view(old(queue)@) },
                source as int,
                ps,
                0,
            ),
            whole == spec_link(
                max_objects as int,
                objects as int,
                head as int,
                LinkState { edges: edges@, shared: shared@, queue: queue_view(queue@) },
                source as int,
                ps,
                k as int,
            ),
        decreases pending@.len() - k,
    {
        let p = &pending[k];
        proof {
            assert(ps[k as int] == p@);
        }
        match shared.get(&p.token) {
            Some(entry) => {
                let (idx, tag) = *entry;
                if tag != p.class_tag {
                    let mut m = concat_number(text_of("shared native pointer token "), p.token as usize);
                    m = concat(m, " at ");
                    m = concat_number(m, p.offset);
                    m = concat(m, " changes class from ");
                    m = concat_number(m, tag as usize);
                    m = concat(m, " to ");
                    m = concat_number(m, p.class_tag as usize);
                    return Err(DecodeError::new(m));
                }
                edges.push(
                    GraphEdge {
                        source_object_index: source,
                        pointer_offset: p.offset,
                        pointer_token: p.token,
                        target_object_index: idx,
                        target_class_tag: p.class_tag,
                    },
                );
            },
            None => {
                if queue.len() - head >= max_objects - objects {
                    return Err(DecodeError::new(text_of("native graph object budget exceeded")));
                }
                let index = objects + (queue.len() - head);
                let ghost before = queue@;
                queue.push((p.token, p.class_tag, clone_guid(&p.schema_guid)));
                proof {
                    assert(queue_view(queue@) =~= queue_view(before).push(
                        (
                            p.token,
                            p.class_tag,
                            match p.schema_guid {
                                Some(g) => Some(g@),
                                None => None,
                            },
                        ),
                    ));
                }
                if p.token != u32::MAX {
                    shared.insert(p.token, (index, p.class_tag));
                }
                edges.push(
                    GraphEdge {
                        source_object_index: source,
                        pointer_offset: p.offset,
                        pointer_token: p.token,
                        target_object_index: index,
                        target_class_tag: p.class_tag,
                    },
                );
            },
        }
        k += 1;
    }
    Ok(())
}

/// Deferred pointers as plain values.
pub open spec fn pending_view(v: Seq<PendingPointer>) -> Seq<PendingView> {
    v.map_values(|p: PendingPointer| p@)
}

} // verus!
