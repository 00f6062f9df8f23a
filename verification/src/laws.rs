//! The engine's governing properties, proved once and for all over the
//! spec-level transitions that the executable operations are specified
//! against.

use vstd::prelude::*;

use crate::ids::Entity;
use crate::ids::LinkId;
use crate::link_context::Link;
use crate::link_context::LinkContext;
use crate::node_editor::find_link_id;
use crate::node_editor::lemma_find_link_id_from;
use crate::node_editor::EditorView;
use crate::nodes::lemma_get_or_create_wf;
use crate::nodes::NodesView;
use crate::nodes::COORD_BOUND;

verus! {

/// Node creation is idempotent: a second fetch-or-create for the same
/// entity returns exactly the record the first call produced and leaves
/// the scanner unchanged — in particular it allocates no identifiers,
/// whatever column it is offered.
pub proof fn lemma_get_or_create_idempotent(v: NodesView, e: Entity, col1: usize, col2: usize)
    requires
        v.wf(),
        v.editor.gen.can_create_nodes(1),
        col1 < COORD_BOUND,
    ensures
        v.get_or_create_spec(e, col1).0.get_or_create_spec(e, col2) == (
            v.get_or_create_spec(e, col1).0,
            v.get_or_create_spec(e, col1).1,
        ),
{
    lemma_get_or_create_wf(v, e, col1);
}

/// Identifier uniqueness over the store: two distinct stored contexts
/// never share a node, input-pin, output-pin or attribute id.
pub proof fn lemma_store_ids_distinct(v: NodesView, i: int, j: int)
    requires
        v.wf(),
        0 <= i < v.store.len(),
        0 <= j < v.store.len(),
        i != j,
    ensures
        v.store[i].node_id != v.store[j].node_id,
        v.store[i].input_pin_id != v.store[j].input_pin_id,
        v.store[i].output_pin_id != v.store[j].output_pin_id,
        v.store[i].attribute_id != v.store[j].attribute_id,
{
}

/// Identifier uniqueness over the link index: two distinct entries never
/// share an endpoint tuple or a link id.
pub proof fn lemma_link_ids_distinct(ed: EditorView, i: int, j: int)
    requires
        ed.wf(),
        0 <= i < ed.link_index.len(),
        0 <= j < ed.link_index.len(),
        i != j,
    ensures
        ed.link_index[i].link != ed.link_index[j].link,
        ed.link_index[i].link_id != ed.link_index[j].link_id,
{
}

/// Link dedup, same tuple: once a link request for a tuple succeeded,
/// requesting the same tuple again returns the same id and changes
/// nothing.
pub proof fn lemma_link_dedup_same(ed: EditorView, link: Link)
    requires
        ed.wf(),
        ed.gen.can_create_links(1),
        ed.add_link_spec(link).1 is Some,
    ensures
        ed.add_link_spec(link).0.add_link_spec(link) == (
            ed.add_link_spec(link).0,
            ed.add_link_spec(link).1,
        ),
{
    crate::node_editor::lemma_add_link_wf(ed, link);
    let e1 = ed.add_link_spec(link).0;
    let id = ed.add_link_spec(link).1->Some_0;
    assert(!ed.blocked(link));
    assert(e1.connected.contains(link)) by {
        match find_link_id(ed.link_index, link) {
            Some(_) => {
                if ed.connected.contains(link) {
                } else {
                    assert(e1.connected.last() == link);
                }
            },
            None => {
                assert(e1.connected.last() == link);
            },
        }
    }
    assert(!e1.blocked(link));
    assert(find_link_id(e1.link_index, link) == Some(id)) by {
        match find_link_id(ed.link_index, link) {
            Some(_) => {},
            None => {
                crate::node_editor::lemma_find_extends(
                    ed.link_index,
                    LinkContext { link, link_id: id },
                    link,
                );
            },
        }
    }
    assert(e1.add_link_spec(link).0 =~= e1);
}

/// Link dedup, distinct tuples: two accepted requests for different
/// endpoint tuples, one after the other, yield different link ids.
pub proof fn lemma_link_dedup_distinct(ed: EditorView, l1: Link, l2: Link)
    requires
        ed.wf(),
        ed.gen.can_create_links(2),
        l1 != l2,
        ed.add_link_spec(l1).1 is Some,
        ed.add_link_spec(l1).0.add_link_spec(l2).1 is Some,
    ensures
        ed.add_link_spec(l1).1 != ed.add_link_spec(l1).0.add_link_spec(l2).1,
{
    crate::node_editor::lemma_add_link_wf(ed, l1);
    let e1 = ed.add_link_spec(l1).0;
    let id1 = ed.add_link_spec(l1).1->Some_0;
    let id2 = e1.add_link_spec(l2).1->Some_0;
    lemma_find_link_id_from(ed.link_index, l1, 0);
    lemma_find_link_id_from(e1.link_index, l2, 0);
    match find_link_id(ed.link_index, l1) {
        Some(_) => {
            // id1 sits in the old index; e1 keeps that index.
            let i = choose|i: int|
                0 <= i < ed.link_index.len() && ed.link_index[i] == (LinkContext {
                    link: l1,
                    link_id: id1,
                });
            match find_link_id(e1.link_index, l2) {
                Some(_) => {
                    let j = choose|j: int|
                        0 <= j < e1.link_index.len() && e1.link_index[j] == (LinkContext {
                            link: l2,
                            link_id: id2,
                        });
                    assert(e1.link_index == ed.link_index);
                    assert(i != j);
                },
                None => {
                    assert(id2.0 == e1.gen.next_link);
                    assert(id1.0 < ed.gen.next_link);
                },
            }
        },
        None => {
            assert(id1.0 == ed.gen.next_link);
            match find_link_id(e1.link_index, l2) {
                Some(_) => {
                    let j = choose|j: int|
                        0 <= j < e1.link_index.len() && e1.link_index[j] == (LinkContext {
                            link: l2,
                            link_id: id2,
                        });
                    if j < ed.link_index.len() {
                        assert(e1.link_index[j] == ed.link_index[j]);
                        assert(id2.0 < ed.gen.next_link);
                    } else {
                        assert(e1.link_index[j].link == l1);
                    }
                },
                None => {
                    assert(id2.0 == e1.gen.next_link);
                    assert(e1.gen.next_link == ed.gen.next_link + 1);
                },
            }
        },
    }
}

/// Single-outgoing-connection policy: once a source node's link request
/// for one tuple succeeded, a request for a different tuple from the same
/// start node is rejected and leaves the editor — its connected set and
/// its link index — unchanged.
pub proof fn lemma_single_outgoing(ed: EditorView, l1: Link, l2: Link)
    requires
        ed.wf(),
        ed.gen.can_create_links(1),
        l1.start_node == l2.start_node,
        l1 != l2,
        ed.add_link_spec(l1).1 is Some,
    ensures
        ed.add_link_spec(l1).0.add_link_spec(l2) == (ed.add_link_spec(l1).0, None::<LinkId>),
{
    let e1 = ed.add_link_spec(l1).0;
    assert(!ed.blocked(l1));
    assert(e1.connected.contains(l1)) by {
        match find_link_id(ed.link_index, l1) {
            Some(_) => {
                if ed.connected.contains(l1) {
                } else {
                    assert(e1.connected.last() == l1);
                }
            },
            None => {
                assert(e1.connected.last() == l1);
            },
        }
    }
    let w = choose|i: int| 0 <= i < e1.connected.len() && e1.connected[i] == l1;
    assert(e1.connected[w].start_node == l2.start_node && e1.connected[w] != l2);
    assert(e1.blocked(l2));
}

/// Unknown removal is a no-op: dropping a link id the link index does not
/// know leaves the editor — in particular the connected set — unchanged
/// and returns nothing.
pub proof fn lemma_unknown_removal_noop(ed: EditorView, id: LinkId)
    requires
        crate::node_editor::find_link_of_id(ed.link_index, id) is None,
    ensures
        ed.remove_link_spec(id) == (ed, None::<Link>),
{
}

/// Rescanning keeps visual identity: after any scan cycle, every
/// previously stored context still sits at its position with the same
/// entity, the same four visual identifiers and the same column — only
/// its row may have been recomputed.  New records only ever appear
/// behind the existing ones.
pub proof fn lemma_rescan_keeps_identity(
    v: NodesView,
    d: Seq<crate::domain::DomainNodeView>,
    j: int,
)
    requires
        0 <= j < v.store.len(),
    ensures
        crate::nodes::scan_spec(v, d).0.store.len() >= v.store.len(),
        crate::nodes::same_identity(v.store[j], crate::nodes::scan_spec(v, d).0.store[j]),
{
    crate::nodes::lemma_scan_from_identity(v, d, 0);
}

/// Skip ineligible nodes: an entity that no eligible domain node of the
/// snapshot carries, and that has no context yet, receives none from a
/// scan cycle — however often the cycle is repeated.
pub proof fn lemma_skip_ineligible(v: NodesView, d: Seq<crate::domain::DomainNodeView>, e: Entity)
    requires
        crate::nodes::find_context(v.store, e) is None,
        forall|k: int| #![trigger d[k]]
            0 <= k < d.len() ==> !(d[k].eligible() && d[k].entity == e),
    ensures
        crate::nodes::find_context(crate::nodes::scan_spec(v, d).0.store, e) is None,
{
    crate::nodes::lemma_scan_from_identity(v, d, 0);
    let w = crate::nodes::scan_spec(v, d).0;
    crate::nodes::lemma_find_context_at_from(v.store, e, 0);
    crate::nodes::lemma_find_context_at_from(w.store, e, 0);
    if crate::nodes::find_context(w.store, e) is Some {
        let at = crate::nodes::find_context_at(w.store, e)->Some_0;
        if at < v.store.len() {
            assert(crate::nodes::same_identity(v.store[at], w.store[at]));
        } else {
            assert(crate::nodes::entity_from_eligible(d, 0, w.store[at].entity));
        }
        assert(false);
    }
}

/// Dangling-endpoint skip: every link context a scan cycle materializes
/// joins two stored contexts — both endpoint tuples belong to records of
/// the scan's final store, so a connection with an unrepresented
/// endpoint yields no link context.
pub proof fn lemma_dangling_endpoint_skip(
    v: NodesView,
    d: Seq<crate::domain::DomainNodeView>,
    t: int,
)
    requires
        0 <= t < crate::nodes::scan_spec(v, d).2.len(),
    ensures
        crate::nodes::joins_stored(
            crate::nodes::scan_spec(v, d).0.store,
            crate::nodes::scan_spec(v, d).2[t].link,
        ),
{
    crate::nodes::lemma_scan_from_endpoints(v, d, 0);
}

/// Memoized link ids are never reassigned: a scan cycle only appends to
/// the link index and the connected set, so every memoized entry and
/// every connected tuple survives at its position.
pub proof fn lemma_scan_keeps_link_memo(
    v: NodesView,
    d: Seq<crate::domain::DomainNodeView>,
    j: int,
)
    ensures
        crate::nodes::scan_spec(v, d).0.editor.link_index.len() >= v.editor.link_index.len(),
        0 <= j < v.editor.link_index.len() ==> crate::nodes::scan_spec(
            v,
            d,
        ).0.editor.link_index[j] == v.editor.link_index[j],
        crate::nodes::scan_spec(v, d).0.editor.connected.len() >= v.editor.connected.len(),
        0 <= j < v.editor.connected.len() ==> crate::nodes::scan_spec(v, d).0.editor.connected[j]
            == v.editor.connected[j],
{
    crate::nodes::lemma_scan_from_monotone(v, d, 0);
}

/// Row/column determinism across consecutive scans: for a snapshot
/// whose connection endpoints are all represented before the first of
/// the two cycles, the second scan over the same snapshot reproduces
/// the first scan's state exactly — every record's row and column, and
/// the whole graph index, are identical.
pub proof fn lemma_consecutive_scans_identical(
    v: NodesView,
    d: Seq<crate::domain::DomainNodeView>,
)
    requires
        v.wf(),
        crate::nodes::endpoints_stored(v, d),
        v.editor.gen.can_create_nodes(d.len()),
        v.editor.gen.next_link + crate::nodes::conns_from(d, 0) <= u64::MAX,
        d.len() < COORD_BOUND,
        forall|k: int| #![trigger d[k]]
            0 <= k < d.len() ==> d[k].connections.len() <= COORD_BOUND,
    ensures
        crate::nodes::scan_spec(crate::nodes::scan_spec(v, d).0, d).0 == crate::nodes::scan_spec(
            v,
            d,
        ).0,
{
    crate::nodes::lemma_scan_rescan_fixed(v, d, 0);
}

/// A dangling connection is picked up automatically: if every endpoint
/// of the snapshot's pairs is the entity of some eligible node of the
/// snapshot, then after two scan cycles every pair is settled — its
/// tuple is connected, or the single-outgoing policy blocks it — and no
/// pair is left dangling.
pub proof fn lemma_dangling_resolved_next_cycle(
    v: NodesView,
    d: Seq<crate::domain::DomainNodeView>,
)
    requires
        v.wf(),
        forall|k: int, r: int| #![trigger d[k].connections[r]]
            0 <= k < d.len() && 0 <= r < d[k].connections.len() ==> crate::nodes::entity_from_eligible(
                d,
                0,
                d[k].connections[r].0,
            ) && crate::nodes::entity_from_eligible(d, 0, d[k].connections[r].1),
    ensures
        forall|k: int, r: int| #![trigger d[k].connections[r]]
            0 <= k < d.len() && 0 <= r < d[k].connections.len() ==> crate::nodes::link_settled(
                crate::nodes::scan_spec(crate::nodes::scan_spec(v, d).0, d).0.editor,
                crate::nodes::pair_link(
                    crate::nodes::scan_spec(crate::nodes::scan_spec(v, d).0, d).0.store,
                    d[k].connections[r],
                ),
            ),
{
    let v1 = crate::nodes::scan_spec(v, d).0;
    crate::nodes::lemma_scan_makes_eligible_stored(v, d);
    crate::nodes::lemma_scan_wf_store(v, d, 0);
    assert forall|k: int, r: int| #![trigger d[k].connections[r]]
        0 <= k < d.len() && 0 <= r < d[k].connections.len() implies crate::nodes::find_context(
        v1.store,
        d[k].connections[r].0,
    ) is Some && crate::nodes::find_context(v1.store, d[k].connections[r].1) is Some by {
        let from = choose|t: int|
            #![trigger d[t]]
            0 <= t < d.len() && d[t].eligible() && d[t].entity == d[k].connections[r].0;
        let to = choose|t: int|
            #![trigger d[t]]
            0 <= t < d.len() && d[t].eligible() && d[t].entity == d[k].connections[r].1;
        assert(crate::nodes::find_context(v1.store, d[from].entity) is Some);
        assert(crate::nodes::find_context(v1.store, d[to].entity) is Some);
    }
    crate::nodes::lemma_scan_from_settles(v1, d, 0);
}

/// Layout formula: a context in row 2, column 3 is placed at exactly
/// x = 650, y = 600.
pub proof fn lemma_layout_formula(c: crate::node_context::NodeContext)
    requires
        c.row == 2,
        c.col == 3,
    ensures
        crate::nodes::grid_x(c) == 650,
        crate::nodes::grid_y(c) == 600,
{
}

} // verus!
