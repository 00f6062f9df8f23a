//! The graph scanner and layout engine.
//!
//! Once per refresh cycle the scanner walks the domain snapshot, creates
//! node contexts for newly discovered eligible entities, reuses existing
//! ones, materializes link contexts for connections between already-known
//! entities, and assigns layout rows from connection order.  The layout
//! engine turns each context's (row, col) into grid coordinates.

use vstd::prelude::*;

use crate::domain::DomainNode;
use crate::domain::DomainNodeView;
use crate::ids::Entity;
use crate::ids::NodeId;
use crate::link_context::Link;
use crate::link_context::LinkContext;
use crate::node_context::NodeContext;
use crate::node_editor::find_link_id;
use crate::node_editor::EditorView;
use crate::node_editor::NodeEditor;

verus! {

/// Horizontal distance between layout columns.
pub const COLUMN_SPACING: i64 = 250;

/// Horizontal offset of the first layout column.
pub const COLUMN_OFFSET: i64 = 100;

/// Vertical distance between layout rows.
pub const ROW_SPACING: i64 = 200;

/// Vertical offset of the first layout row.
pub const ROW_OFFSET: i64 = 200;

/// Layout rows and columns stay below this bound, so grid coordinates
/// never overflow.
pub const COORD_BOUND: u64 = 0x1_0000_0000;

/// The context stored for `e`, searching `s` from position `i` on.
pub open spec fn find_context_from(s: Seq<NodeContext>, e: Entity, i: int) -> Option<NodeContext>
    decreases s.len() - i,
{
    if i < 0 || i >= s.len() {
        None
    } else if s[i].entity == e {
        Some(s[i])
    } else {
        find_context_from(s, e, i + 1)
    }
}

/// The context stored for `e` in the store `s`, if any.
pub open spec fn find_context(s: Seq<NodeContext>, e: Entity) -> Option<NodeContext> {
    find_context_from(s, e, 0)
}

/// The position of `e`'s context in `s`, searching from `i` on.
pub open spec fn find_context_at_from(s: Seq<NodeContext>, e: Entity, i: int) -> Option<int>
    decreases s.len() - i,
{
    if i < 0 || i >= s.len() {
        None
    } else if s[i].entity == e {
        Some(i)
    } else {
        find_context_at_from(s, e, i + 1)
    }
}

/// The position of `e`'s context in the store `s`, if any.
pub open spec fn find_context_at(s: Seq<NodeContext>, e: Entity) -> Option<int> {
    find_context_at_from(s, e, 0)
}

/// The store after `e`'s context, if stored, had its row set to `row`.
pub open spec fn set_row_spec(s: Seq<NodeContext>, e: Entity, row: usize) -> Seq<NodeContext> {
    match find_context_at(s, e) {
        None => s,
        Some(at) => s.update(at, NodeContext { row, ..s[at] }),
    }
}

/// Grid x-coordinate of a context's column.
pub open spec fn grid_x(c: NodeContext) -> int {
    c.col * COLUMN_SPACING - COLUMN_OFFSET
}

/// Grid y-coordinate of a context's row.
pub open spec fn grid_y(c: NodeContext) -> int {
    c.row * ROW_SPACING + ROW_OFFSET
}

/// The position triples computed for the scanned nodes, in order.
pub open spec fn positions_of(ns: Seq<(NodeContext, usize)>) -> Seq<(NodeId, i64, i64)> {
    Seq::new(ns.len(), |k: int| (ns[k].0.node_id, grid_x(ns[k].0) as i64, grid_y(ns[k].0) as i64))
}

/// The views of the domain snapshot, in enumeration order.
pub open spec fn domain_views(s: Seq<DomainNode>) -> Seq<DomainNodeView> {
    Seq::new(s.len(), |i: int| s[i]@)
}

/// Number of connection pairs carried by the nodes of `d` from position
/// `i` on.
pub open spec fn conns_from(d: Seq<DomainNodeView>, i: int) -> nat
    decreases d.len() - i,
{
    if i < 0 || i >= d.len() {
        0
    } else {
        d[i].connections.len() + conns_from(d, i + 1)
    }
}

/// Spec-level image of [`Nodes`].
#[verifier::ext_equal]
pub ghost struct NodesView {
    /// One node context per visually represented entity, in creation
    /// order.
    pub store: Seq<NodeContext>,
    /// The graph index and identifier generator.
    pub editor: EditorView,
}

impl NodesView {
    /// Well-formedness of the scanner state.
    ///
    /// At most one context per entity; all visual identifiers pairwise
    /// distinct and issued by the generator; layout coordinates below
    /// [`COORD_BOUND`]; and a well-formed editor.
    pub open spec fn wf(self) -> bool {
        &&& self.editor.wf()
        &&& forall|i: int, j: int|
            0 <= i < j < self.store.len() ==> self.store[i].entity != self.store[j].entity
        &&& forall|i: int, j: int|
            0 <= i < j < self.store.len() ==> self.store[i].node_id != self.store[j].node_id
        &&& forall|i: int, j: int|
            0 <= i < j < self.store.len() ==> self.store[i].input_pin_id
                != self.store[j].input_pin_id
        &&& forall|i: int, j: int|
            0 <= i < j < self.store.len() ==> self.store[i].output_pin_id
                != self.store[j].output_pin_id
        &&& forall|i: int, j: int|
            0 <= i < j < self.store.len() ==> self.store[i].attribute_id
                != self.store[j].attribute_id
        &&& forall|i: int|
            0 <= i < self.store.len() ==> self.store[i].node_id.0 < self.editor.gen.next_node
        &&& forall|i: int|
            0 <= i < self.store.len() ==> self.store[i].input_pin_id.0
                < self.editor.gen.next_input_pin
        &&& forall|i: int|
            0 <= i < self.store.len() ==> self.store[i].output_pin_id.0
                < self.editor.gen.next_output_pin
        &&& forall|i: int|
            0 <= i < self.store.len() ==> self.store[i].attribute_id.0
                < self.editor.gen.next_attribute
        &&& forall|i: int|
            0 <= i < self.store.len() ==> self.store[i].row < COORD_BOUND && self.store[i].col
                < COORD_BOUND
    }

    /// The scanner after the context for `e` was fetched or created, and
    /// that context.
    ///
    /// An entity already in the store keeps its record unchanged — in
    /// particular its column.  A new entity gets fresh identifiers, row
    /// zero and column `col`, and its record joins the store and the node
    /// index.
    pub open spec fn get_or_create_spec(self, e: Entity, col: usize) -> (NodesView, NodeContext) {
        match find_context(self.store, e) {
            Some(ctx) => (self, ctx),
            None => {
                let (ed, fresh) = self.editor.add_node_spec(e);
                let ctx = NodeContext { col, ..fresh };
                (NodesView { store: self.store.push(ctx), editor: ed }, ctx)
            },
        }
    }

    /// The scanner after `e`'s row, if `e` is stored, was set to `row`.
    pub open spec fn set_row_view(self, e: Entity, row: usize) -> NodesView {
        NodesView { store: set_row_spec(self.store, e, row), ..self }
    }
}

/// One connection pair processed against the store `store`: a link
/// request on the editor when both endpoints have contexts, else no
/// change.  Besides the editor's outcome, yields the link context
/// materialized and the row assignment accumulated for the source entity.
pub open spec fn link_step(
    store: Seq<NodeContext>,
    ed: EditorView,
    pair: (Entity, Entity),
    row: usize,
) -> (EditorView, Seq<LinkContext>, Seq<(Entity, usize)>) {
    match (find_context(store, pair.0), find_context(store, pair.1)) {
        (Some(f), Some(t)) => {
            let link = f.spec_link(t, false);
            let step = ed.add_link_spec(link);
            match step.1 {
                Some(id) => (step.0, seq![LinkContext { link, link_id: id }], seq![(pair.0, row)]),
                None => (ed, Seq::empty(), Seq::empty()),
            }
        },
        _ => (ed, Seq::empty(), Seq::empty()),
    }
}

/// Connection pairs from position `r` on, processed in order against a
/// fixed store.
pub open spec fn links_from(
    store: Seq<NodeContext>,
    ed: EditorView,
    pairs: Seq<(Entity, Entity)>,
    r: int,
) -> (EditorView, Seq<LinkContext>, Seq<(Entity, usize)>)
    decreases pairs.len() - r,
{
    if r < 0 || r >= pairs.len() {
        (ed, Seq::empty(), Seq::empty())
    } else {
        let first = link_step(store, ed, pairs[r], r as usize);
        let rest = links_from(store, first.0, pairs, r + 1);
        (rest.0, first.1 + rest.1, first.2 + rest.2)
    }
}

/// Row assignments from position `j` on, applied in order; a later
/// assignment to the same entity wins.
pub open spec fn assign_rows_from(
    store: Seq<NodeContext>,
    rows: Seq<(Entity, usize)>,
    j: int,
) -> Seq<NodeContext>
    decreases rows.len() - j,
{
    if j < 0 || j >= rows.len() {
        store
    } else {
        assign_rows_from(set_row_spec(store, rows[j].0, rows[j].1), rows, j + 1)
    }
}

/// One domain node scanned from state `v` at enumeration position `i`:
/// context handling for an eligible node, then its connection pairs, then
/// the accumulated row assignments.
pub open spec fn scan_step(v: NodesView, node: DomainNodeView, i: int) -> (
    NodesView,
    Seq<(NodeContext, usize)>,
    Seq<LinkContext>,
) {
    let after_node = if node.eligible() {
        let created = v.get_or_create_spec(node.entity, (i + 1) as usize);
        (created.0, seq![(created.1, i as usize)])
    } else {
        (v, Seq::<(NodeContext, usize)>::empty())
    };
    let v1 = after_node.0;
    let linked = links_from(v1.store, v1.editor, node.connections, 0);
    let store2 = assign_rows_from(v1.store, linked.2, 0);
    (NodesView { store: store2, editor: linked.0 }, after_node.1, linked.1)
}

/// Domain nodes from position `i` on, scanned in order.
pub open spec fn scan_from(v: NodesView, d: Seq<DomainNodeView>, i: int) -> (
    NodesView,
    Seq<(NodeContext, usize)>,
    Seq<LinkContext>,
)
    decreases d.len() - i,
{
    if i < 0 || i >= d.len() {
        (v, Seq::empty(), Seq::empty())
    } else {
        let first = scan_step(v, d[i], i);
        let rest = scan_from(first.0, d, i + 1);
        (rest.0, first.1 + rest.1, first.2 + rest.2)
    }
}

/// One full scan cycle over the domain snapshot `d`: the new scanner
/// state, the (context, enumeration position) pairs of the eligible
/// nodes, and the link contexts materialized.
pub open spec fn scan_spec(v: NodesView, d: Seq<DomainNodeView>) -> (
    NodesView,
    Seq<(NodeContext, usize)>,
    Seq<LinkContext>,
) {
    scan_from(v, d, 0)
}

/// A found context lies at its position; a missing entity matches no
/// entry.
pub proof fn lemma_find_context_at_from(s: Seq<NodeContext>, e: Entity, i: int)
    requires
        0 <= i <= s.len(),
    ensures
        find_context_at_from(s, e, i) matches Some(at) ==> i <= at < s.len() && s[at].entity == e
            && find_context_from(s, e, i) == Some(s[at]),
        find_context_at_from(s, e, i) is None ==> find_context_from(s, e, i) is None,
        find_context_from(s, e, i) is None ==> forall|j: int| i <= j < s.len() ==> s[j].entity != e,
    decreases s.len() - i,
{
    if i < s.len() && s[i].entity != e {
        lemma_find_context_at_from(s, e, i + 1);
    }
}

/// Well-formedness is preserved by fetching or creating a context, and
/// the result is the entity's record in the new store.
pub proof fn lemma_get_or_create_wf(v: NodesView, e: Entity, col: usize)
    requires
        v.wf(),
        v.editor.gen.can_create_nodes(1),
        col < COORD_BOUND,
    ensures
        v.get_or_create_spec(e, col).0.wf(),
        find_context(v.get_or_create_spec(e, col).0.store, e) == Some(
            v.get_or_create_spec(e, col).1,
        ),
{
    crate::node_editor::lemma_add_node_wf(v.editor, e);
    lemma_find_context_at_from(v.store, e, 0);
    match find_context(v.store, e) {
        Some(ctx) => {},
        None => {
            let (w, ctx) = v.get_or_create_spec(e, col);
            assert forall|i: int, j: int|
                0 <= i < j < w.store.len() implies w.store[i].entity != w.store[j].entity by {
                if j == v.store.len() {
                    assert(w.store[i] == v.store[i]);
                }
            }
            lemma_find_push(v.store, e, ctx, 0);
        },
    }
}

/// Searching a pushed store finds what the shorter store found, and the
/// pushed context's entity in any case.
proof fn lemma_find_push(s: Seq<NodeContext>, e: Entity, c: NodeContext, i: int)
    requires
        0 <= i <= s.len(),
    ensures
        find_context_from(s, e, i) is Some ==> find_context_from(s.push(c), e, i)
            == find_context_from(s, e, i),
        find_context_from(s, e, i) is None && c.entity == e ==> find_context_from(s.push(c), e, i)
            == Some(c),
        find_context_from(s, e, i) is None && c.entity != e ==> find_context_from(s.push(c), e, i)
            is None,
    decreases s.len() - i,
{
    if i < s.len() {
        assert(s.push(c)[i] == s[i]);
        if s[i].entity != e {
            lemma_find_push(s, e, c, i + 1);
        }
    } else {
        assert(s.push(c)[i] == c);
        assert(find_context_from(s.push(c), e, i + 1) is None);
    }
}

/// Well-formedness is preserved by a row assignment below the bound.
pub proof fn lemma_set_row_wf(v: NodesView, e: Entity, row: usize)
    requires
        v.wf(),
        row < COORD_BOUND,
    ensures
        v.set_row_view(e, row).wf(),
{
    lemma_find_context_at_from(v.store, e, 0);
}

/// Agreement of two contexts on everything but the layout row: entity,
/// all four visual identifiers, and the column.
pub open spec fn same_identity(a: NodeContext, b: NodeContext) -> bool {
    &&& a.entity == b.entity
    &&& a.node_id == b.node_id
    &&& a.input_pin_id == b.input_pin_id
    &&& a.output_pin_id == b.output_pin_id
    &&& a.attribute_id == b.attribute_id
    &&& a.col == b.col
}

/// A row assignment keeps every context's identity and column.
pub proof fn lemma_set_row_identity(s: Seq<NodeContext>, e: Entity, row: usize)
    ensures
        set_row_spec(s, e, row).len() == s.len(),
        forall|j: int|
            0 <= j < s.len() ==> same_identity(s[j], #[trigger] set_row_spec(s, e, row)[j]),
{
    lemma_find_context_at_from(s, e, 0);
}

/// Applying the row assignments from position `j` on keeps every
/// context's identity and column.
pub proof fn lemma_assign_rows_identity(s: Seq<NodeContext>, rows: Seq<(Entity, usize)>, j: int)
    ensures
        assign_rows_from(s, rows, j).len() == s.len(),
        forall|t: int|
            0 <= t < s.len() ==> same_identity(s[t], #[trigger] assign_rows_from(s, rows, j)[t]),
    decreases rows.len() - j,
{
    if 0 <= j < rows.len() {
        lemma_set_row_identity(s, rows[j].0, rows[j].1);
        lemma_assign_rows_identity(set_row_spec(s, rows[j].0, rows[j].1), rows, j + 1);
    }
}

/// One scan step extends the store by at most a context for the scanned
/// node's entity, and keeps every existing context's identity and
/// column.
pub proof fn lemma_scan_step_identity(v: NodesView, node: DomainNodeView, i: int)
    ensures
        scan_step(v, node, i).0.store.len() >= v.store.len(),
        forall|t: int| #![trigger scan_step(v, node, i).0.store[t]]
            0 <= t < v.store.len() ==> same_identity(v.store[t], scan_step(v, node, i).0.store[t]),
        forall|t: int| #![trigger scan_step(v, node, i).0.store[t]]
            v.store.len() <= t < scan_step(v, node, i).0.store.len() ==> node.eligible()
                && scan_step(v, node, i).0.store[t].entity == node.entity,
{
    let v1 = if node.eligible() {
        v.get_or_create_spec(node.entity, (i + 1) as usize).0
    } else {
        v
    };
    let linked = links_from(v1.store, v1.editor, node.connections, 0);
    lemma_assign_rows_identity(v1.store, linked.2, 0);
    assert forall|t: int| #![trigger scan_step(v, node, i).0.store[t]]
        0 <= t < v.store.len() implies same_identity(
        v.store[t],
        scan_step(v, node, i).0.store[t],
    ) by {
        assert(same_identity(v1.store[t], assign_rows_from(v1.store, linked.2, 0)[t]));
    }
    assert forall|t: int| #![trigger scan_step(v, node, i).0.store[t]]
        v.store.len() <= t < scan_step(v, node, i).0.store.len() implies node.eligible()
        && scan_step(v, node, i).0.store[t].entity == node.entity by {
        assert(same_identity(v1.store[t], assign_rows_from(v1.store, linked.2, 0)[t]));
    }
}

/// True when some eligible domain node at position `i` or later carries
/// the entity `e`.
pub open spec fn entity_from_eligible(d: Seq<DomainNodeView>, i: int, e: Entity) -> bool {
    exists|k: int| #![trigger d[k]] i <= k < d.len() && d[k].eligible() && d[k].entity == e
}

/// An entity carried by an eligible node at position `i + 1` or later is
/// also one at position `i` or later.
pub proof fn lemma_entity_from_eligible_widen(d: Seq<DomainNodeView>, i: int, e: Entity)
    requires
        entity_from_eligible(d, i + 1, e),
    ensures
        entity_from_eligible(d, i, e),
{
    let k = choose|k: int|
        #![trigger d[k]]
        i + 1 <= k < d.len() && d[k].eligible() && d[k].entity == e;
    assert(i <= k < d.len() && d[k].eligible() && d[k].entity == e);
}

/// A scan from position `i` on extends the store only by entities of
/// eligible domain nodes at positions `i` and later, and keeps every
/// existing context's identity and column.
pub proof fn lemma_scan_from_identity(v: NodesView, d: Seq<DomainNodeView>, i: int)
    ensures
        scan_from(v, d, i).0.store.len() >= v.store.len(),
        forall|t: int|
            0 <= t < v.store.len() ==> same_identity(
                v.store[t],
                #[trigger] scan_from(v, d, i).0.store[t],
            ),
        forall|t: int| #![trigger scan_from(v, d, i).0.store[t]]
            v.store.len() <= t < scan_from(v, d, i).0.store.len() ==> entity_from_eligible(
                d,
                i,
                scan_from(v, d, i).0.store[t].entity,
            ),
    decreases d.len() - i,
{
    if 0 <= i < d.len() {
        let mid = scan_step(v, d[i], i).0;
        let w = scan_from(mid, d, i + 1).0;
        lemma_scan_step_identity(v, d[i], i);
        lemma_scan_from_identity(mid, d, i + 1);
        assert forall|t: int| #![trigger w.store[t]]
            0 <= t < v.store.len() implies same_identity(v.store[t], w.store[t]) by {
            assert(same_identity(v.store[t], mid.store[t]));
            assert(same_identity(mid.store[t], w.store[t]));
        }
        assert(scan_from(v, d, i).0 == w);
        assert forall|t: int| #![trigger w.store[t]]
            v.store.len() <= t < w.store.len() implies entity_from_eligible(
            d,
            i,
            w.store[t].entity,
        ) by {
            if t < mid.store.len() {
                assert(mid.store[t] == scan_step(v, d[i], i).0.store[t]);
                assert(d[i].eligible() && mid.store[t].entity == d[i].entity);
                assert(same_identity(mid.store[t], w.store[t]));
                assert(i <= i < d.len() && d[i].eligible() && d[i].entity == w.store[t].entity);
            } else {
                assert(entity_from_eligible(d, i + 1, w.store[t].entity));
                lemma_entity_from_eligible_widen(d, i, w.store[t].entity);
            }
        }
    }
}

/// True when `l` is the endpoint tuple of two contexts of `store`: its
/// nodes and pins are those of a stored source and a stored target.
pub open spec fn joins_stored(store: Seq<NodeContext>, l: Link) -> bool {
    exists|a: int, b: int|
        0 <= a < store.len() && 0 <= b < store.len() && l == store[a].spec_link(store[b], false)
}

/// A tuple joining contexts of one store joins them in any store whose
/// contexts keep their identities.
pub proof fn lemma_joins_stored_identity(s1: Seq<NodeContext>, s2: Seq<NodeContext>, l: Link)
    requires
        joins_stored(s1, l),
        s2.len() >= s1.len(),
        forall|j: int| 0 <= j < s1.len() ==> same_identity(s1[j], #[trigger] s2[j]),
    ensures
        joins_stored(s2, l),
{
    let (a, b) = choose|a: int, b: int|
        0 <= a < s1.len() && 0 <= b < s1.len() && l == s1[a].spec_link(s1[b], false);
    assert(same_identity(s1[a], s2[a]));
    assert(same_identity(s1[b], s2[b]));
    assert(0 <= a < s2.len() && 0 <= b < s2.len() && l == s2[a].spec_link(s2[b], false));
}

/// Every link context that processing the pairs from `r` on materializes
/// joins two contexts of the store it was checked against.
pub proof fn lemma_links_from_endpoints(
    store: Seq<NodeContext>,
    ed: EditorView,
    pairs: Seq<(Entity, Entity)>,
    r: int,
)
    ensures
        forall|t: int|
            0 <= t < links_from(store, ed, pairs, r).1.len() ==> joins_stored(
                store,
                (#[trigger] links_from(store, ed, pairs, r).1[t]).link,
            ),
    decreases pairs.len() - r,
{
    if 0 <= r < pairs.len() {
        let first = link_step(store, ed, pairs[r], r as usize);
        let rest = links_from(store, first.0, pairs, r + 1);
        lemma_links_from_endpoints(store, first.0, pairs, r + 1);
        assert forall|t: int|
            0 <= t < links_from(store, ed, pairs, r).1.len() implies joins_stored(
            store,
            (#[trigger] links_from(store, ed, pairs, r).1[t]).link,
        ) by {
            if t < first.1.len() {
                lemma_find_context_at_from(store, pairs[r].0, 0);
                lemma_find_context_at_from(store, pairs[r].1, 0);
                assert(links_from(store, ed, pairs, r).1[t] == first.1[t]);
                let a = find_context_at(store, pairs[r].0)->Some_0;
                let b = find_context_at(store, pairs[r].1)->Some_0;
                assert(0 <= a < store.len() && 0 <= b < store.len() && first.1[t].link
                    == store[a].spec_link(store[b], false));
            } else {
                assert(links_from(store, ed, pairs, r).1[t] == rest.1[t - first.1.len()]);
            }
        }
    }
}

/// Every link context a scan from position `i` on materializes joins two
/// contexts of the scan's final store.
pub proof fn lemma_scan_from_endpoints(v: NodesView, d: Seq<DomainNodeView>, i: int)
    ensures
        forall|t: int|
            0 <= t < scan_from(v, d, i).2.len() ==> joins_stored(
                scan_from(v, d, i).0.store,
                (#[trigger] scan_from(v, d, i).2[t]).link,
            ),
    decreases d.len() - i,
{
    if 0 <= i < d.len() {
        let node = d[i];
        let v1 = if node.eligible() {
            v.get_or_create_spec(node.entity, (i + 1) as usize).0
        } else {
            v
        };
        let linked = links_from(v1.store, v1.editor, node.connections, 0);
        let mid = scan_step(v, node, i).0;
        let w = scan_from(mid, d, i + 1).0;
        lemma_links_from_endpoints(v1.store, v1.editor, node.connections, 0);
        lemma_assign_rows_identity(v1.store, linked.2, 0);
        lemma_scan_from_identity(mid, d, i + 1);
        lemma_scan_from_endpoints(mid, d, i + 1);
        assert forall|t: int|
            0 <= t < scan_from(v, d, i).2.len() implies joins_stored(
            w.store,
            (#[trigger] scan_from(v, d, i).2[t]).link,
        ) by {
            if t < linked.1.len() {
                assert(scan_from(v, d, i).2[t] == linked.1[t]);
                assert(joins_stored(v1.store, linked.1[t].link));
                assert(mid.store == assign_rows_from(v1.store, linked.2, 0));
                lemma_joins_stored_identity(v1.store, mid.store, linked.1[t].link);
                lemma_joins_stored_identity(mid.store, w.store, linked.1[t].link);
            } else {
                assert(scan_from(v, d, i).2[t] == scan_from(mid, d, i + 1).2[t
                    - linked.1.len()]);
            }
        }
    }
}

/// Processing connection pairs only appends to the link index and the
/// connected set: every existing entry keeps its position, and the
/// generator's node spaces are untouched.
pub proof fn lemma_links_from_monotone(
    store: Seq<NodeContext>,
    ed: EditorView,
    pairs: Seq<(Entity, Entity)>,
    r: int,
)
    ensures
        links_from(store, ed, pairs, r).0.link_index.len() >= ed.link_index.len(),
        forall|j: int|
            0 <= j < ed.link_index.len() ==> #[trigger] links_from(
                store,
                ed,
                pairs,
                r,
            ).0.link_index[j] == ed.link_index[j],
        links_from(store, ed, pairs, r).0.connected.len() >= ed.connected.len(),
        forall|j: int|
            0 <= j < ed.connected.len() ==> #[trigger] links_from(store, ed, pairs, r).0.connected[j]
                == ed.connected[j],
        links_from(store, ed, pairs, r).0.node_index == ed.node_index,
        links_from(store, ed, pairs, r).0.gen.next_node == ed.gen.next_node,
        links_from(store, ed, pairs, r).0.gen.next_input_pin == ed.gen.next_input_pin,
        links_from(store, ed, pairs, r).0.gen.next_output_pin == ed.gen.next_output_pin,
        links_from(store, ed, pairs, r).0.gen.next_attribute == ed.gen.next_attribute,
    decreases pairs.len() - r,
{
    if 0 <= r < pairs.len() {
        let first = link_step(store, ed, pairs[r], r as usize);
        lemma_links_from_monotone(store, first.0, pairs, r + 1);
    }
}

/// A scan only appends to the link index and the connected set: every
/// memoized link id survives at its position, and every connected tuple
/// stays connected.
pub proof fn lemma_scan_from_monotone(v: NodesView, d: Seq<DomainNodeView>, i: int)
    ensures
        scan_from(v, d, i).0.editor.link_index.len() >= v.editor.link_index.len(),
        forall|j: int|
            0 <= j < v.editor.link_index.len() ==> #[trigger] scan_from(
                v,
                d,
                i,
            ).0.editor.link_index[j] == v.editor.link_index[j],
        scan_from(v, d, i).0.editor.connected.len() >= v.editor.connected.len(),
        forall|j: int|
            0 <= j < v.editor.connected.len() ==> #[trigger] scan_from(v, d, i).0.editor.connected[j]
                == v.editor.connected[j],
    decreases d.len() - i,
{
    if 0 <= i < d.len() {
        let node = d[i];
        let v1 = if node.eligible() {
            v.get_or_create_spec(node.entity, (i + 1) as usize).0
        } else {
            v
        };
        let mid = scan_step(v, node, i).0;
        lemma_links_from_monotone(v1.store, v1.editor, node.connections, 0);
        lemma_scan_from_monotone(mid, d, i + 1);
    }
}

/// True when every eligible domain node of `d` already has a context in
/// `v`'s store.
pub open spec fn eligible_stored(v: NodesView, d: Seq<DomainNodeView>) -> bool {
    forall|k: int| #![trigger d[k]]
        0 <= k < d.len() ==> (d[k].eligible() ==> find_context(v.store, d[k].entity) is Some)
}

/// True when both endpoints of every connection pair of `d` already have
/// contexts in `v`'s store.
pub open spec fn endpoints_stored(v: NodesView, d: Seq<DomainNodeView>) -> bool {
    forall|k: int, r: int| #![trigger d[k].connections[r]]
        0 <= k < d.len() && 0 <= r < d[k].connections.len() ==> find_context(
            v.store,
            d[k].connections[r].0,
        ) is Some && find_context(v.store, d[k].connections[r].1) is Some
}

/// An entity stored in a store survives, with its identity, into any
/// entity-distinct extension whose common prefix keeps identities.
pub proof fn lemma_find_context_extends(s1: Seq<NodeContext>, s2: Seq<NodeContext>, e: Entity)
    requires
        find_context(s1, e) is Some,
        s2.len() >= s1.len(),
        forall|j: int| 0 <= j < s1.len() ==> same_identity(s1[j], #[trigger] s2[j]),
        forall|i: int, j: int| 0 <= i < j < s2.len() ==> s2[i].entity != s2[j].entity,
    ensures
        find_context(s2, e) is Some,
        same_identity(find_context(s1, e)->Some_0, find_context(s2, e)->Some_0),
{
    lemma_find_context_at_from(s1, e, 0);
    lemma_find_context_at_from(s2, e, 0);
    let p = find_context_at(s1, e)->Some_0;
    assert(same_identity(s1[p], s2[p]));
    assert(s2[p].entity == e);
    if find_context(s2, e) is None {
        assert(false);
    }
    let q = find_context_at(s2, e)->Some_0;
    if p != q {
        assert(s2[p].entity == s2[q].entity);
        assert(false);
    }
}

/// After a scan, every eligible domain node of the snapshot has a
/// context.
pub proof fn lemma_scan_makes_eligible_stored(v: NodesView, d: Seq<DomainNodeView>)
    requires
        v.wf(),
    ensures
        eligible_stored(scan_spec(v, d).0, d),
{
    lemma_scan_wf_store(v, d, 0);
    assert forall|k: int| #![trigger d[k]]
        0 <= k < d.len() && d[k].eligible() implies find_context(
        scan_spec(v, d).0.store,
        d[k].entity,
    ) is Some by {
        lemma_scan_from_stores_eligible(v, d, 0, k);
    }
}

/// Entity distinctness of the store is preserved by every scan prefix;
/// stated so inductions can thread it.
pub proof fn lemma_scan_wf_store(v: NodesView, d: Seq<DomainNodeView>, i: int)
    requires
        forall|a: int, b: int| 0 <= a < b < v.store.len() ==> v.store[a].entity != v.store[b].entity,
    ensures
        forall|a: int, b: int|
            0 <= a < b < scan_from(v, d, i).0.store.len() ==> scan_from(v, d, i).0.store[a].entity
                != scan_from(v, d, i).0.store[b].entity,
    decreases d.len() - i,
{
    if 0 <= i < d.len() {
        let node = d[i];
        let v1 = if node.eligible() {
            v.get_or_create_spec(node.entity, (i + 1) as usize).0
        } else {
            v
        };
        let linked = links_from(v1.store, v1.editor, node.connections, 0);
        let mid = scan_step(v, node, i).0;
        if node.eligible() {
            lemma_find_context_at_from(v.store, node.entity, 0);
            assert forall|a: int, b: int|
                0 <= a < b < v1.store.len() implies v1.store[a].entity != v1.store[b].entity by {
                if b == v.store.len() {
                    assert(v1.store[a] == v.store[a]);
                }
            }
        }
        lemma_assign_rows_identity(v1.store, linked.2, 0);
        assert forall|a: int, b: int|
            0 <= a < b < mid.store.len() implies mid.store[a].entity != mid.store[b].entity by {
            assert(same_identity(v1.store[a], mid.store[a]));
            assert(same_identity(v1.store[b], mid.store[b]));
        }
        lemma_scan_wf_store(mid, d, i + 1);
        assert(scan_from(v, d, i).0 == scan_from(mid, d, i + 1).0);
    }
}

/// An eligible node at position `k` at or after `i` has a context once
/// the scan from `i` is done.
pub proof fn lemma_scan_from_stores_eligible(v: NodesView, d: Seq<DomainNodeView>, i: int, k: int)
    requires
        i <= k < d.len(),
        0 <= i,
        d[k].eligible(),
        forall|a: int, b: int| 0 <= a < b < v.store.len() ==> v.store[a].entity != v.store[b].entity,
    ensures
        find_context(scan_from(v, d, i).0.store, d[k].entity) is Some,
    decreases d.len() - i,
{
    let node = d[i];
    let v1 = if node.eligible() {
        v.get_or_create_spec(node.entity, (i + 1) as usize).0
    } else {
        v
    };
    let linked = links_from(v1.store, v1.editor, node.connections, 0);
    let mid = scan_step(v, node, i).0;
    lemma_assign_rows_identity(v1.store, linked.2, 0);
    if node.eligible() {
        lemma_find_context_at_from(v.store, node.entity, 0);
    }
    lemma_scan_wf_store(v, d, i);
    if k == i {
        // The node's own turn stores it; membership then survives the
        // rest of the scan.
        lemma_get_or_create_stores(v, node.entity, (i + 1) as usize);
        lemma_set_rows_then_scan_keeps(v, d, i, v1, mid, node.entity);
    } else {
        lemma_scan_wf_store_step(v, d, i);
        lemma_scan_from_stores_eligible(mid, d, i + 1, k);
    }
}

/// Fetch-or-create leaves the entity stored.
pub proof fn lemma_get_or_create_stores(v: NodesView, e: Entity, col: usize)
    ensures
        find_context(v.get_or_create_spec(e, col).0.store, e) is Some,
{
    lemma_find_context_at_from(v.store, e, 0);
    match find_context(v.store, e) {
        Some(_) => {},
        None => {
            let w = v.get_or_create_spec(e, col).0;
            lemma_find_context_at_from(w.store, e, 0);
            if find_context(w.store, e) is None {
                assert(w.store[v.store.len() as int].entity == e);
                assert(false);
            }
        },
    }
}

/// Entity distinctness also holds after one scan step.
pub proof fn lemma_scan_wf_store_step(v: NodesView, d: Seq<DomainNodeView>, i: int)
    requires
        0 <= i < d.len(),
        forall|a: int, b: int| 0 <= a < b < v.store.len() ==> v.store[a].entity != v.store[b].entity,
    ensures
        forall|a: int, b: int|
            0 <= a < b < scan_step(v, d[i], i).0.store.len() ==> scan_step(
                v,
                d[i],
                i,
            ).0.store[a].entity != scan_step(v, d[i], i).0.store[b].entity,
{
    let node = d[i];
    let v1 = if node.eligible() {
        v.get_or_create_spec(node.entity, (i + 1) as usize).0
    } else {
        v
    };
    let linked = links_from(v1.store, v1.editor, node.connections, 0);
    let mid = scan_step(v, node, i).0;
    if node.eligible() {
        lemma_find_context_at_from(v.store, node.entity, 0);
        assert forall|a: int, b: int|
            0 <= a < b < v1.store.len() implies v1.store[a].entity != v1.store[b].entity by {
            if b == v.store.len() {
                assert(v1.store[a] == v.store[a]);
            }
        }
    }
    lemma_assign_rows_identity(v1.store, linked.2, 0);
    assert forall|a: int, b: int|
        0 <= a < b < mid.store.len() implies mid.store[a].entity != mid.store[b].entity by {
        assert(same_identity(v1.store[a], mid.store[a]));
        assert(same_identity(v1.store[b], mid.store[b]));
    }
}

/// An entity stored before a scan step, and before the scan's remainder,
/// is still stored at the end.
pub proof fn lemma_set_rows_then_scan_keeps(
    v: NodesView,
    d: Seq<DomainNodeView>,
    i: int,
    v1: NodesView,
    mid: NodesView,
    e: Entity,
)
    requires
        0 <= i < d.len(),
        v1 == if d[i].eligible() {
            v.get_or_create_spec(d[i].entity, (i + 1) as usize).0
        } else {
            v
        },
        mid == scan_step(v, d[i], i).0,
        find_context(v1.store, e) is Some,
        forall|a: int, b: int| 0 <= a < b < v.store.len() ==> v.store[a].entity != v.store[b].entity,
    ensures
        find_context(scan_from(v, d, i).0.store, e) is Some,
{
    let linked = links_from(v1.store, v1.editor, d[i].connections, 0);
    lemma_assign_rows_identity(v1.store, linked.2, 0);
    lemma_scan_wf_store_step(v, d, i);
    lemma_find_context_extends(v1.store, mid.store, e);
    lemma_scan_from_identity(mid, d, i + 1);
    lemma_scan_wf_store(mid, d, i + 1);
    lemma_find_context_extends(mid.store, scan_from(mid, d, i + 1).0.store, e);
}

/// The endpoint tuple a connection pair denotes in a store that holds
/// both endpoints.
pub open spec fn pair_link(store: Seq<NodeContext>, pair: (Entity, Entity)) -> Link {
    find_context(store, pair.0)->Some_0.spec_link(find_context(store, pair.1)->Some_0, false)
}

/// A link is settled in an editor when it is connected, or the policy
/// blocks it.  A settled link's request leaves a well-formed editor
/// unchanged.
pub open spec fn link_settled(ed: EditorView, l: Link) -> bool {
    ed.connected.contains(l) || ed.blocked(l)
}

/// What one link request does to settledness: the requested link is
/// settled afterwards, every settled link stays settled, and a request
/// for a settled link on a well-formed editor changes nothing.
pub proof fn lemma_add_link_settles(ed: EditorView, l: Link, l0: Link)
    ensures
        link_settled(ed.add_link_spec(l).0, l),
        link_settled(ed, l0) ==> link_settled(ed.add_link_spec(l).0, l0),
        ed.wf() && link_settled(ed, l) ==> ed.add_link_spec(l).0 == ed,
{
    let w = ed.add_link_spec(l).0;
    if ed.blocked(l) {
    } else {
        assert(w.connected.len() >= ed.connected.len() && (w.connected.len() == ed.connected.len()
            || w.connected.last() == l));
        assert(forall|j: int| 0 <= j < ed.connected.len() ==> w.connected[j] == ed.connected[j]);
        if ed.connected.contains(l) {
            let p = choose|p: int| 0 <= p < ed.connected.len() && ed.connected[p] == l;
            assert(w.connected[p] == l);
        } else {
            assert(w.connected.last() == l);
        }
    }
    if link_settled(ed, l0) {
        assert(forall|j: int| 0 <= j < ed.connected.len() ==> w.connected[j] == ed.connected[j]);
        if ed.connected.contains(l0) {
            let p = choose|p: int| 0 <= p < ed.connected.len() && ed.connected[p] == l0;
            assert(w.connected[p] == l0);
        } else {
            let p = choose|p: int|
                0 <= p < ed.connected.len() && ed.connected[p].start_node == l0.start_node
                    && ed.connected[p] != l0;
            assert(w.connected[p] == ed.connected[p]);
        }
    }
    if ed.wf() && link_settled(ed, l) {
        if ed.blocked(l) {
        } else {
            let p = choose|p: int| 0 <= p < ed.connected.len() && ed.connected[p] == l;
            assert(find_link_id(ed.link_index, l) is Some);
            assert(w =~= ed);
        }
    }
}

/// After the pairs from `r` on are processed, each of them is settled,
/// and links settled before stay settled.
pub proof fn lemma_links_from_settles(
    store: Seq<NodeContext>,
    ed: EditorView,
    pairs: Seq<(Entity, Entity)>,
    r: int,
)
    requires
        0 <= r,
        forall|t: int| #![trigger pairs[t]]
            0 <= t < pairs.len() ==> find_context(store, pairs[t].0) is Some && find_context(
                store,
                pairs[t].1,
            ) is Some,
    ensures
        forall|t: int| #![trigger pairs[t]]
            r <= t < pairs.len() ==> link_settled(
                links_from(store, ed, pairs, r).0,
                pair_link(store, pairs[t]),
            ),
        forall|l: Link| #![trigger link_settled(ed, l)]
            link_settled(ed, l) ==> link_settled(links_from(store, ed, pairs, r).0, l),
    decreases pairs.len() - r,
{
    if 0 <= r < pairs.len() {
        let first = link_step(store, ed, pairs[r], r as usize);
        let l = pair_link(store, pairs[r]);
        lemma_add_link_settles(ed, l, l);
        assert(link_settled(first.0, l));
        lemma_links_from_settles(store, first.0, pairs, r + 1);
        assert(links_from(store, ed, pairs, r).0 == links_from(store, first.0, pairs, r + 1).0);
        assert forall|l0: Link| #![trigger link_settled(ed, l0)]
            link_settled(ed, l0) implies link_settled(links_from(store, ed, pairs, r).0, l0) by {
            lemma_add_link_settles(ed, l, l0);
            assert(link_settled(first.0, l0));
            assert(link_settled(links_from(store, first.0, pairs, r + 1).0, l0));
        }
        assert forall|t: int| #![trigger pairs[t]]
            r <= t < pairs.len() implies link_settled(
            links_from(store, ed, pairs, r).0,
            pair_link(store, pairs[t]),
        ) by {
            if t == r {
                assert(link_settled(links_from(store, first.0, pairs, r + 1).0, l));
            } else {
                assert(link_settled(
                    links_from(store, first.0, pairs, r + 1).0,
                    pair_link(store, pairs[t]),
                ));
            }
        }
    }
}

/// A scan over a snapshot whose connection endpoints were all already
/// represented keeps them represented with their identities, settles
/// every pair at or after the scan position, and keeps settled links
/// settled.
pub proof fn lemma_scan_from_settles(v: NodesView, d: Seq<DomainNodeView>, i: int)
    requires
        0 <= i,
        forall|a: int, b: int| 0 <= a < b < v.store.len() ==> v.store[a].entity != v.store[b].entity,
        endpoints_stored(v, d),
    ensures
        endpoints_stored(scan_from(v, d, i).0, d),
        forall|k: int, r: int| #![trigger d[k].connections[r]]
            0 <= k < d.len() && 0 <= r < d[k].connections.len() ==> pair_link(
                scan_from(v, d, i).0.store,
                d[k].connections[r],
            ) == pair_link(v.store, d[k].connections[r]),
        forall|k: int, r: int| #![trigger d[k].connections[r]]
            i <= k < d.len() && 0 <= r < d[k].connections.len() ==> link_settled(
                scan_from(v, d, i).0.editor,
                pair_link(scan_from(v, d, i).0.store, d[k].connections[r]),
            ),
        forall|l: Link| #![trigger link_settled(v.editor, l)]
            link_settled(v.editor, l) ==> link_settled(scan_from(v, d, i).0.editor, l),
    decreases d.len() - i,
{
    if 0 <= i < d.len() {
        let node = d[i];
        let v1 = if node.eligible() {
            v.get_or_create_spec(node.entity, (i + 1) as usize).0
        } else {
            v
        };
        let linked = links_from(v1.store, v1.editor, node.connections, 0);
        let mid = scan_step(v, node, i).0;
        if node.eligible() {
            lemma_find_context_at_from(v.store, node.entity, 0);
            assert forall|a: int, b: int|
                0 <= a < b < v1.store.len() implies v1.store[a].entity != v1.store[b].entity by {
                if b == v.store.len() {
                    assert(v1.store[a] == v.store[a]);
                }
            }
        }
        assert(forall|j: int|
            0 <= j < v.store.len() ==> same_identity(v.store[j], #[trigger] v1.store[j]));
        lemma_assign_rows_identity(v1.store, linked.2, 0);
        lemma_scan_wf_store_step(v, d, i);
        assert forall|k: int, r: int| #![trigger d[k].connections[r]]
            0 <= k < d.len() && 0 <= r < d[k].connections.len() implies {
            &&& find_context(mid.store, d[k].connections[r].0) is Some
            &&& find_context(mid.store, d[k].connections[r].1) is Some
            &&& pair_link(mid.store, d[k].connections[r]) == pair_link(
                v.store,
                d[k].connections[r],
            )
            &&& find_context(v1.store, d[k].connections[r].0) is Some
            &&& find_context(v1.store, d[k].connections[r].1) is Some
            &&& pair_link(v1.store, d[k].connections[r]) == pair_link(v.store, d[k].connections[r])
        } by {
            let p = d[k].connections[r];
            lemma_find_context_extends(v.store, v1.store, p.0);
            lemma_find_context_extends(v.store, v1.store, p.1);
            lemma_find_context_extends(v1.store, mid.store, p.0);
            lemma_find_context_extends(v1.store, mid.store, p.1);
        }
        lemma_links_from_settles(v1.store, v1.editor, node.connections, 0);
        lemma_scan_from_settles(mid, d, i + 1);
        let w = scan_from(v, d, i).0;
        assert(w == scan_from(mid, d, i + 1).0);
        assert forall|k: int, r: int| #![trigger d[k].connections[r]]
            0 <= k < d.len() && 0 <= r < d[k].connections.len() implies pair_link(
            w.store,
            d[k].connections[r],
        ) == pair_link(v.store, d[k].connections[r]) by {
            assert(pair_link(w.store, d[k].connections[r]) == pair_link(
                mid.store,
                d[k].connections[r],
            ));
        }
        assert forall|k: int, r: int| #![trigger d[k].connections[r]]
            i <= k < d.len() && 0 <= r < d[k].connections.len() implies link_settled(
            w.editor,
            pair_link(w.store, d[k].connections[r]),
        ) by {
            if k == i {
                assert(node.connections[r] == d[i].connections[r]);
                assert(link_settled(mid.editor, pair_link(v1.store, node.connections[r])));
                assert(pair_link(v1.store, node.connections[r]) == pair_link(
                    mid.store,
                    node.connections[r],
                ));
                assert(link_settled(w.editor, pair_link(mid.store, d[k].connections[r])));
                assert(pair_link(w.store, d[k].connections[r]) == pair_link(
                    mid.store,
                    d[k].connections[r],
                ));
            } else {
                assert(link_settled(w.editor, pair_link(w.store, d[k].connections[r])));
            }
        }
        assert forall|l: Link| #![trigger link_settled(v.editor, l)]
            link_settled(v.editor, l) implies link_settled(w.editor, l) by {
            assert(v1.editor.connected == v.editor.connected);
            assert(link_settled(v1.editor, l));
            assert(link_settled(mid.editor, l));
            assert(link_settled(w.editor, l));
        }
    }
}

/// Processing pairs that are all settled on a well-formed editor leaves
/// the editor unchanged.
pub proof fn lemma_links_from_fixed(
    store: Seq<NodeContext>,
    ed: EditorView,
    pairs: Seq<(Entity, Entity)>,
    r: int,
)
    requires
        ed.wf(),
        forall|t: int| #![trigger pairs[t]]
            0 <= t < pairs.len() ==> find_context(store, pairs[t].0) is Some && find_context(
                store,
                pairs[t].1,
            ) is Some,
        forall|t: int| #![trigger pairs[t]]
            0 <= t < pairs.len() ==> link_settled(ed, pair_link(store, pairs[t])),
    ensures
        links_from(store, ed, pairs, r).0 == ed,
    decreases pairs.len() - r,
{
    if 0 <= r < pairs.len() {
        let l = pair_link(store, pairs[r]);
        lemma_add_link_settles(ed, l, l);
        let first = link_step(store, ed, pairs[r], r as usize);
        assert(first.0 == ed);
        lemma_links_from_fixed(store, ed, pairs, r + 1);
    }
}

/// Processing pairs preserves editor well-formedness, consumes at most
/// one link id per pair, and emits row ordinals below the pair count.
pub proof fn lemma_links_from_wf(
    store: Seq<NodeContext>,
    ed: EditorView,
    pairs: Seq<(Entity, Entity)>,
    r: int,
)
    requires
        0 <= r <= pairs.len(),
        ed.wf(),
        ed.gen.next_link + (pairs.len() - r) <= u64::MAX,
        pairs.len() <= COORD_BOUND,
    ensures
        links_from(store, ed, pairs, r).0.wf(),
        links_from(store, ed, pairs, r).0.gen.next_link <= ed.gen.next_link + (pairs.len() - r),
        forall|j: int|
            0 <= j < links_from(store, ed, pairs, r).2.len() ==> (#[trigger] links_from(
                store,
                ed,
                pairs,
                r,
            ).2[j]).1 < COORD_BOUND,
    decreases pairs.len() - r,
{
    if 0 <= r < pairs.len() {
        let first = link_step(store, ed, pairs[r], r as usize);
        match (find_context(store, pairs[r].0), find_context(store, pairs[r].1)) {
            (Some(f), Some(t)) => {
                crate::node_editor::lemma_add_link_wf(ed, f.spec_link(t, false));
            },
            _ => {},
        }
        lemma_links_from_wf(store, first.0, pairs, r + 1);
        assert(first.0.gen.next_link <= ed.gen.next_link + 1);
        assert(links_from(store, ed, pairs, r).0 == links_from(store, first.0, pairs, r + 1).0);
        assert(links_from(store, first.0, pairs, r + 1).0.gen.next_link <= first.0.gen.next_link
            + (pairs.len() - (r + 1)));
        assert forall|j: int|
            0 <= j < links_from(store, ed, pairs, r).2.len() implies (#[trigger] links_from(
            store,
            ed,
            pairs,
            r,
        ).2[j]).1 < COORD_BOUND by {
            if j < first.2.len() {
                assert(links_from(store, ed, pairs, r).2[j] == first.2[j]);
                assert(first.2[j].1 == r as usize);
            } else {
                assert(links_from(store, ed, pairs, r).2[j] == links_from(
                    store,
                    first.0,
                    pairs,
                    r + 1,
                ).2[j - first.2.len()]);
            }
        }
    }
}

/// Applying bounded row assignments preserves well-formedness.
pub proof fn lemma_assign_rows_wf(u: NodesView, rows: Seq<(Entity, usize)>, j: int)
    requires
        0 <= j,
        u.wf(),
        forall|t: int| 0 <= t < rows.len() ==> (#[trigger] rows[t]).1 < COORD_BOUND,
    ensures
        (NodesView { store: assign_rows_from(u.store, rows, j), editor: u.editor }).wf(),
    decreases rows.len() - j,
{
    if j < rows.len() {
        lemma_set_row_wf(u, rows[j].0, rows[j].1);
        lemma_assign_rows_wf(
            NodesView { store: set_row_spec(u.store, rows[j].0, rows[j].1), editor: u.editor },
            rows,
            j + 1,
        );
    }
}

/// A scan preserves full well-formedness, consuming at most one
/// identifier per space per node and one link id per pair.
pub proof fn lemma_scan_from_wf(v: NodesView, d: Seq<DomainNodeView>, i: int)
    requires
        0 <= i,
        v.wf(),
        v.editor.gen.can_create_nodes((d.len() - i) as nat),
        v.editor.gen.next_link + conns_from(d, i) <= u64::MAX,
        d.len() < COORD_BOUND,
        forall|k: int| #![trigger d[k]] 0 <= k < d.len() ==> d[k].connections.len() <= COORD_BOUND,
    ensures
        scan_from(v, d, i).0.wf(),
    decreases d.len() - i,
{
    if 0 <= i < d.len() {
        let node = d[i];
        let v1 = if node.eligible() {
            v.get_or_create_spec(node.entity, (i + 1) as usize).0
        } else {
            v
        };
        if node.eligible() {
            lemma_get_or_create_wf(v, node.entity, (i + 1) as usize);
        }
        let linked = links_from(v1.store, v1.editor, node.connections, 0);
        lemma_links_from_wf(v1.store, v1.editor, node.connections, 0);
        lemma_links_from_monotone(v1.store, v1.editor, node.connections, 0);
        let mid = scan_step(v, node, i).0;
        assert((NodesView { store: v1.store, editor: linked.0 }).wf());
        lemma_assign_rows_wf(NodesView { store: v1.store, editor: linked.0 }, linked.2, 0);
        assert(mid.wf());
        assert(conns_from(d, i) == node.connections.len() + conns_from(d, i + 1));
        assert(mid.editor.gen.next_link <= v.editor.gen.next_link + node.connections.len());
        assert(mid.editor.gen.can_create_nodes((d.len() - (i + 1)) as nat));
        lemma_scan_from_wf(mid, d, i + 1);
    }
}

/// Two stores that agree on identities agree on where an entity sits.
pub proof fn lemma_find_at_agrees(s1: Seq<NodeContext>, s2: Seq<NodeContext>, e: Entity, i: int)
    requires
        s1.len() == s2.len(),
        forall|j: int| 0 <= j < s1.len() ==> same_identity(s1[j], #[trigger] s2[j]),
        0 <= i,
    ensures
        find_context_at_from(s1, e, i) == find_context_at_from(s2, e, i),
    decreases s1.len() - i,
{
    if i < s1.len() {
        assert(same_identity(s1[i], s2[i]));
        if s1[i].entity != e {
            lemma_find_at_agrees(s1, s2, e, i + 1);
        }
    }
}

/// Two stores that agree on identities drive the pair processing to the
/// same outcome: same editor, same link contexts, same row assignments.
pub proof fn lemma_links_from_agrees(
    s1: Seq<NodeContext>,
    s2: Seq<NodeContext>,
    ed: EditorView,
    pairs: Seq<(Entity, Entity)>,
    r: int,
)
    requires
        s1.len() == s2.len(),
        forall|j: int| 0 <= j < s1.len() ==> same_identity(s1[j], #[trigger] s2[j]),
    ensures
        links_from(s1, ed, pairs, r) == links_from(s2, ed, pairs, r),
    decreases pairs.len() - r,
{
    if 0 <= r < pairs.len() {
        let p = pairs[r];
        lemma_find_at_agrees(s1, s2, p.0, 0);
        lemma_find_at_agrees(s1, s2, p.1, 0);
        lemma_find_context_at_from(s1, p.0, 0);
        lemma_find_context_at_from(s1, p.1, 0);
        lemma_find_context_at_from(s2, p.0, 0);
        lemma_find_context_at_from(s2, p.1, 0);
        match find_context_at(s1, p.0) {
            Some(a) => {
                assert(same_identity(s1[a], s2[a]));
            },
            None => {},
        }
        match find_context_at(s1, p.1) {
            Some(b) => {
                assert(same_identity(s1[b], s2[b]));
            },
            None => {},
        }
        let first1 = link_step(s1, ed, p, r as usize);
        let first2 = link_step(s2, ed, p, r as usize);
        assert(first1 == first2);
        lemma_links_from_agrees(s1, s2, first1.0, pairs, r + 1);
    }
}

/// Applying one list of row assignments to two identity-agreeing stores:
/// an assigned entity's context ends with the same row in both; an
/// unassigned position is left exactly as it was.
pub proof fn lemma_assign_rows_agrees(
    s1: Seq<NodeContext>,
    s2: Seq<NodeContext>,
    rows: Seq<(Entity, usize)>,
    j: int,
)
    requires
        0 <= j,
        s1.len() == s2.len(),
        forall|p: int| 0 <= p < s1.len() ==> same_identity(s1[p], #[trigger] s2[p]),
        forall|a: int, b: int| 0 <= a < b < s1.len() ==> s1[a].entity != s1[b].entity,
    ensures
        forall|p: int| #![trigger s1[p]]
            0 <= p < s1.len() ==> if exists|t: int|
                j <= t < rows.len() && (#[trigger] rows[t]).0 == s1[p].entity {
                assign_rows_from(s1, rows, j)[p].row == assign_rows_from(s2, rows, j)[p].row
            } else {
                assign_rows_from(s1, rows, j)[p] == s1[p] && assign_rows_from(s2, rows, j)[p]
                    == s2[p]
            },
    decreases rows.len() - j,
{
    if j < rows.len() {
        let e = rows[j].0;
        let row = rows[j].1;
        let n1 = set_row_spec(s1, e, row);
        let n2 = set_row_spec(s2, e, row);
        lemma_find_at_agrees(s1, s2, e, 0);
        lemma_find_context_at_from(s1, e, 0);
        lemma_find_context_at_from(s2, e, 0);
        lemma_set_row_identity(s1, e, row);
        lemma_set_row_identity(s2, e, row);
        assert forall|p: int| 0 <= p < n1.len() implies same_identity(n1[p], #[trigger] n2[p]) by {
            assert(same_identity(s1[p], n1[p]));
            assert(same_identity(s2[p], n2[p]));
            assert(same_identity(s1[p], s2[p]));
        }
        assert forall|a: int, b: int|
            0 <= a < b < n1.len() implies n1[a].entity != n1[b].entity by {
            assert(same_identity(s1[a], n1[a]));
            assert(same_identity(s1[b], n1[b]));
        }
        lemma_assign_rows_agrees(n1, n2, rows, j + 1);
        assert forall|p: int| #![trigger s1[p]]
            0 <= p < s1.len() implies if exists|t: int|
            j <= t < rows.len() && (#[trigger] rows[t]).0 == s1[p].entity {
            assign_rows_from(s1, rows, j)[p].row == assign_rows_from(s2, rows, j)[p].row
        } else {
            assign_rows_from(s1, rows, j)[p] == s1[p] && assign_rows_from(s2, rows, j)[p] == s2[p]
        } by {
            assert(same_identity(s1[p], n1[p]));
            if exists|t: int| j <= t < rows.len() && (#[trigger] rows[t]).0 == s1[p].entity {
                let t = choose|t: int|
                    j <= t < rows.len() && (#[trigger] rows[t]).0 == s1[p].entity;
                if t == j && !(exists|t2: int|
                    j + 1 <= t2 < rows.len() && (#[trigger] rows[t2]).0 == s1[p].entity) {
                    // Only the head assignment touches this entity: both
                    // stores set the same row at the same position.
                    match find_context_at(s1, e) {
                        Some(q) => {
                            assert(q == p);
                            assert(n1[p].row == row && n2[p].row == row);
                        },
                        None => {
                            assert(s1[p].entity == e);
                            assert(false);
                        },
                    }
                } else {
                    if t != j {
                        assert(exists|t2: int|
                            j + 1 <= t2 < rows.len() && (#[trigger] rows[t2]).0
                                == n1[p].entity);
                    }
                    assert(assign_rows_from(n1, rows, j + 1)[p].row == assign_rows_from(
                        n2,
                        rows,
                        j + 1,
                    )[p].row);
                }
            } else {
                // Untouched: the head assigns a different entity, and no
                // later one assigns this entity either.
                match find_context_at(s1, e) {
                    Some(q) => {
                        assert(s1[q].entity == e);
                        assert(q != p);
                        assert(n1[p] == s1[p] && n2[p] == s2[p]);
                    },
                    None => {
                        assert(n1 == s1 && n2 == s2);
                    },
                }
                assert(assign_rows_from(n1, rows, j + 1)[p] == n1[p]);
                assert(assign_rows_from(n2, rows, j + 1)[p] == n2[p]);
            }
        }
    }
}

/// Pair processing under an editor whose connected set will only grow
/// into `edf`'s accepts the same pairs, and so emits the same row
/// assignments, as processing under `edf` itself against any
/// identity-extension of the store.
pub proof fn lemma_links_from_outcomes(
    s1: Seq<NodeContext>,
    s2: Seq<NodeContext>,
    ed: EditorView,
    edf: EditorView,
    pairs: Seq<(Entity, Entity)>,
    r: int,
)
    requires
        0 <= r,
        edf.wf(),
        s1.len() <= s2.len(),
        forall|j: int| 0 <= j < s1.len() ==> same_identity(s1[j], #[trigger] s2[j]),
        forall|a: int, b: int| 0 <= a < b < s2.len() ==> s2[a].entity != s2[b].entity,
        forall|t: int| #![trigger pairs[t]]
            0 <= t < pairs.len() ==> find_context(s1, pairs[t].0) is Some && find_context(
                s1,
                pairs[t].1,
            ) is Some,
        edf.connected.len() >= links_from(s1, ed, pairs, r).0.connected.len(),
        forall|j: int|
            0 <= j < links_from(s1, ed, pairs, r).0.connected.len() ==> #[trigger] edf.connected[j]
                == links_from(s1, ed, pairs, r).0.connected[j],
    ensures
        links_from(s1, ed, pairs, r).2 == links_from(s2, edf, pairs, r).2,
    decreases pairs.len() - r,
{
    if r < pairs.len() {
        let p = pairs[r];
        lemma_find_context_extends(s1, s2, p.0);
        lemma_find_context_extends(s1, s2, p.1);
        let l = pair_link(s1, p);
        assert(pair_link(s2, p) == l);
        let first1 = link_step(s1, ed, p, r as usize);
        let first2 = link_step(s2, edf, p, r as usize);
        lemma_links_from_monotone(s1, first1.0, pairs, r + 1);
        assert(forall|j: int|
            0 <= j < first1.0.connected.len() ==> #[trigger] edf.connected[j]
                == first1.0.connected[j]);
        if ed.blocked(l) {
            let q = choose|q: int|
                0 <= q < ed.connected.len() && ed.connected[q].start_node == l.start_node
                    && ed.connected[q] != l;
            assert(edf.connected[q] == ed.connected[q]);
            assert(edf.blocked(l));
            assert(first1.2 == Seq::<(Entity, usize)>::empty());
            assert(first2.2 == Seq::<(Entity, usize)>::empty());
        } else {
            lemma_add_link_settles(ed, l, l);
            assert(first1.0.connected.contains(l));
            let q = choose|q: int|
                0 <= q < first1.0.connected.len() && first1.0.connected[q] == l;
            assert(edf.connected[q] == l);
            assert(!edf.blocked(l)) by {
                if edf.blocked(l) {
                    let q2 = choose|q2: int|
                        0 <= q2 < edf.connected.len() && edf.connected[q2].start_node
                            == l.start_node && edf.connected[q2] != l;
                    assert(edf.connected[q2] != edf.connected[q] && q2 != q);
                }
            }
            assert(first1.2 =~= seq![(p.0, r as usize)]);
            assert(first2.2 =~= seq![(p.0, r as usize)]);
        }
        lemma_links_from_outcomes(s1, s2, first1.0, edf, pairs, r + 1);
        assert(links_from(s1, ed, pairs, r).2 =~= links_from(s2, edf, pairs, r).2);
    }
}

/// Applying one list of row assignments, whose source entities all sit
/// in the shorter store, to a store and an identity-extension of it: an
/// assigned entity's context ends with the same row in both, an
/// unassigned position of the common prefix is left as it was, and the
/// extension's tail is never touched.
pub proof fn lemma_assign_rows_agrees_prefix(
    s1: Seq<NodeContext>,
    s2: Seq<NodeContext>,
    rows: Seq<(Entity, usize)>,
    j: int,
)
    requires
        0 <= j,
        s1.len() <= s2.len(),
        forall|p: int| 0 <= p < s1.len() ==> same_identity(s1[p], #[trigger] s2[p]),
        forall|a: int, b: int| 0 <= a < b < s2.len() ==> s2[a].entity != s2[b].entity,
        forall|t: int| j <= t < rows.len() ==> find_context(s1, (#[trigger] rows[t]).0) is Some,
    ensures
        forall|p: int| #![trigger s1[p]]
            0 <= p < s1.len() ==> if exists|t: int|
                j <= t < rows.len() && (#[trigger] rows[t]).0 == s1[p].entity {
                assign_rows_from(s1, rows, j)[p].row == assign_rows_from(s2, rows, j)[p].row
            } else {
                assign_rows_from(s1, rows, j)[p] == s1[p] && assign_rows_from(s2, rows, j)[p]
                    == s2[p]
            },
        forall|p: int| #![trigger s2[p]]
            s1.len() <= p < s2.len() ==> assign_rows_from(s2, rows, j)[p] == s2[p],
    decreases rows.len() - j,
{
    if j < rows.len() {
        let e = rows[j].0;
        let row = rows[j].1;
        let n1 = set_row_spec(s1, e, row);
        let n2 = set_row_spec(s2, e, row);
        lemma_find_context_at_from(s1, e, 0);
        lemma_find_context_at_from(s2, e, 0);
        lemma_set_row_identity(s1, e, row);
        lemma_set_row_identity(s2, e, row);
        let q = find_context_at(s1, e)->Some_0;
        lemma_find_context_extends(s1, s2, e);
        assert(find_context_at(s2, e) == Some(q)) by {
            assert(same_identity(s1[q], s2[q]));
            let q2 = find_context_at(s2, e)->Some_0;
            if q2 != q {
                assert(s2[q2].entity == s2[q].entity);
            }
        }
        assert forall|p: int| 0 <= p < n1.len() implies same_identity(n1[p], #[trigger] n2[p]) by {
            assert(same_identity(s1[p], n1[p]));
            assert(same_identity(s2[p], n2[p]));
            assert(same_identity(s1[p], s2[p]));
        }
        assert forall|a: int, b: int|
            0 <= a < b < n2.len() implies n2[a].entity != n2[b].entity by {
            assert(same_identity(s2[a], n2[a]));
            assert(same_identity(s2[b], n2[b]));
        }
        assert forall|a: int, b: int|
            0 <= a < b < n1.len() implies n1[a].entity != n1[b].entity by {
            assert(same_identity(s1[a], n1[a]));
            assert(same_identity(s1[b], n1[b]));
            assert(same_identity(s1[a], s2[a]));
            assert(same_identity(s1[b], s2[b]));
        }
        assert forall|t: int| j + 1 <= t < rows.len() implies find_context(
            n1,
            (#[trigger] rows[t]).0,
        ) is Some by {
            lemma_find_context_extends(s1, n1, rows[t].0);
        }
        lemma_assign_rows_agrees_prefix(n1, n2, rows, j + 1);
        assert forall|p: int| #![trigger s1[p]]
            0 <= p < s1.len() implies if exists|t: int|
            j <= t < rows.len() && (#[trigger] rows[t]).0 == s1[p].entity {
            assign_rows_from(s1, rows, j)[p].row == assign_rows_from(s2, rows, j)[p].row
        } else {
            assign_rows_from(s1, rows, j)[p] == s1[p] && assign_rows_from(s2, rows, j)[p] == s2[p]
        } by {
            assert(same_identity(s1[p], n1[p]));
            if exists|t: int| j <= t < rows.len() && (#[trigger] rows[t]).0 == s1[p].entity {
                let t = choose|t: int|
                    j <= t < rows.len() && (#[trigger] rows[t]).0 == s1[p].entity;
                if t == j && !(exists|t2: int|
                    j + 1 <= t2 < rows.len() && (#[trigger] rows[t2]).0 == s1[p].entity) {
                    assert(q == p);
                    assert(n1[p].row == row && n2[p].row == row);
                } else {
                    if t != j {
                        assert(exists|t2: int|
                            j + 1 <= t2 < rows.len() && (#[trigger] rows[t2]).0
                                == n1[p].entity);
                    }
                    assert(assign_rows_from(n1, rows, j + 1)[p].row == assign_rows_from(
                        n2,
                        rows,
                        j + 1,
                    )[p].row);
                }
            } else {
                assert(s1[q].entity == e);
                assert(q != p);
                assert(n1[p] == s1[p] && n2[p] == s2[p]);
                assert(assign_rows_from(n1, rows, j + 1)[p] == n1[p]);
                assert(assign_rows_from(n2, rows, j + 1)[p] == n2[p]);
            }
        }
        assert forall|p: int| #![trigger s2[p]]
            s1.len() <= p < s2.len() implies assign_rows_from(s2, rows, j)[p] == s2[p] by {
            assert(q < s1.len());
            assert(n2[p] == s2[p]);
            assert(assign_rows_from(n2, rows, j + 1)[p] == n2[p]);
        }
    }
}

/// Every row assignment that pair processing emits names a source
/// entity with a context in the store it ran against.
pub proof fn lemma_links_from_sources(
    store: Seq<NodeContext>,
    ed: EditorView,
    pairs: Seq<(Entity, Entity)>,
    r: int,
)
    ensures
        forall|t: int|
            0 <= t < links_from(store, ed, pairs, r).2.len() ==> find_context(
                store,
                (#[trigger] links_from(store, ed, pairs, r).2[t]).0,
            ) is Some,
    decreases pairs.len() - r,
{
    if 0 <= r < pairs.len() {
        let first = link_step(store, ed, pairs[r], r as usize);
        lemma_links_from_sources(store, first.0, pairs, r + 1);
        assert forall|t: int|
            0 <= t < links_from(store, ed, pairs, r).2.len() implies find_context(
            store,
            (#[trigger] links_from(store, ed, pairs, r).2[t]).0,
        ) is Some by {
            if t < first.2.len() {
                assert(links_from(store, ed, pairs, r).2[t] == first.2[t]);
            } else {
                assert(links_from(store, ed, pairs, r).2[t] == links_from(
                    store,
                    first.0,
                    pairs,
                    r + 1,
                ).2[t - first.2.len()]);
            }
        }
    }
}

/// The pair processing of node `k` assigns a row to entity `e`, judged
/// against the anchor state `u`.
pub open spec fn row_assigned_in(
    u: NodesView,
    d: Seq<DomainNodeView>,
    k: int,
    e: Entity,
) -> bool {
    exists|t: int|
        0 <= t < links_from(u.store, u.editor, d[k].connections, 0).2.len() && (#[trigger] links_from(
            u.store,
            u.editor,
            d[k].connections,
            0,
        ).2[t]).0 == e
}

/// Some node at position `i` or later assigns a row to entity `e`.
pub open spec fn rows_assigned_later(
    u: NodesView,
    d: Seq<DomainNodeView>,
    i: int,
    e: Entity,
) -> bool {
    exists|k: int| i <= k < d.len() && row_assigned_in(u, d, k, e)
}

/// Scanning two row-variants of one settled state, whose rows differ
/// only where a remaining node reassigns them, yields the same result.
pub proof fn lemma_scan_agrees(
    u: NodesView,
    v1: NodesView,
    v2: NodesView,
    d: Seq<DomainNodeView>,
    i: int,
)
    requires
        0 <= i,
        u.editor.wf(),
        v1.editor == u.editor,
        v2.editor == u.editor,
        v1.store.len() == u.store.len(),
        v2.store.len() == u.store.len(),
        forall|p: int| 0 <= p < u.store.len() ==> same_identity(u.store[p], #[trigger] v1.store[p]),
        forall|p: int| 0 <= p < u.store.len() ==> same_identity(u.store[p], #[trigger] v2.store[p]),
        forall|a: int, b: int| 0 <= a < b < u.store.len() ==> u.store[a].entity != u.store[b].entity,
        endpoints_stored(u, d),
        forall|k: int| #![trigger d[k]]
            i <= k < d.len() ==> (d[k].eligible() ==> find_context(u.store, d[k].entity) is Some),
        forall|k: int, r: int| #![trigger d[k].connections[r]]
            i <= k < d.len() && 0 <= r < d[k].connections.len() ==> link_settled(
                u.editor,
                pair_link(u.store, d[k].connections[r]),
            ),
        forall|p: int| #![trigger u.store[p]]
            0 <= p < u.store.len() ==> v1.store[p].row == v2.store[p].row || rows_assigned_later(
                u,
                d,
                i,
                u.store[p].entity,
            ),
    ensures
        scan_from(v1, d, i).0 == scan_from(v2, d, i).0,
    decreases d.len() - i,
{
    if i >= d.len() {
        assert forall|p: int| 0 <= p < u.store.len() implies v1.store[p] == v2.store[p] by {
            assert(same_identity(u.store[p], v1.store[p]));
            assert(same_identity(u.store[p], v2.store[p]));
            assert(v1.store[p].row == v2.store[p].row);
        }
        assert(v1.store =~= v2.store);
        assert(v1 =~= v2);
    } else if 0 <= i {
        let node = d[i];
        let pairs = node.connections;
        if node.eligible() {
            lemma_find_context_extends(u.store, v1.store, node.entity);
            lemma_find_context_extends(u.store, v2.store, node.entity);
            assert(v1.get_or_create_spec(node.entity, (i + 1) as usize).0 == v1);
            assert(v2.get_or_create_spec(node.entity, (i + 1) as usize).0 == v2);
        }
        lemma_links_from_agrees(u.store, v1.store, u.editor, pairs, 0);
        lemma_links_from_agrees(u.store, v2.store, u.editor, pairs, 0);
        assert forall|t: int| #![trigger pairs[t]]
            0 <= t < pairs.len() implies find_context(u.store, pairs[t].0) is Some
            && find_context(u.store, pairs[t].1) is Some && link_settled(
            u.editor,
            pair_link(u.store, pairs[t]),
        ) by {
            assert(d[i].connections[t] == pairs[t]);
        }
        lemma_links_from_fixed(u.store, u.editor, pairs, 0);
        let l = links_from(u.store, u.editor, pairs, 0).2;
        let mid1 = scan_step(v1, node, i).0;
        let mid2 = scan_step(v2, node, i).0;
        assert(mid1 == (NodesView { store: assign_rows_from(v1.store, l, 0), editor: u.editor }));
        assert(mid2 == (NodesView { store: assign_rows_from(v2.store, l, 0), editor: u.editor }));
        lemma_assign_rows_identity(v1.store, l, 0);
        lemma_assign_rows_identity(v2.store, l, 0);
        assert forall|a: int, b: int|
            0 <= a < b < v1.store.len() implies v1.store[a].entity != v1.store[b].entity by {
            assert(same_identity(u.store[a], v1.store[a]));
            assert(same_identity(u.store[b], v1.store[b]));
        }
        assert forall|p: int| 0 <= p < v1.store.len() implies same_identity(
            v1.store[p],
            #[trigger] v2.store[p],
        ) by {
            assert(same_identity(u.store[p], v1.store[p]));
            assert(same_identity(u.store[p], v2.store[p]));
        }
        lemma_assign_rows_agrees(v1.store, v2.store, l, 0);
        assert forall|p: int| 0 <= p < u.store.len() implies same_identity(
            u.store[p],
            #[trigger] mid1.store[p],
        ) && same_identity(u.store[p], mid2.store[p]) by {
            assert(same_identity(v1.store[p], mid1.store[p]));
            assert(same_identity(v2.store[p], mid2.store[p]));
        }
        assert forall|p: int| #![trigger u.store[p]]
            0 <= p < u.store.len() implies mid1.store[p].row == mid2.store[p].row
            || rows_assigned_later(u, d, i + 1, u.store[p].entity) by {
            if exists|t: int| 0 <= t < l.len() && (#[trigger] l[t]).0 == v1.store[p].entity {
                assert(mid1.store[p].row == mid2.store[p].row);
            } else {
                assert(mid1.store[p] == v1.store[p] && mid2.store[p] == v2.store[p]);
                if v1.store[p].row == v2.store[p].row {
                } else {
                    assert(rows_assigned_later(u, d, i, u.store[p].entity));
                    let k = choose|k: int|
                        i <= k < d.len() && row_assigned_in(u, d, k, u.store[p].entity);
                    if k == i {
                        assert(row_assigned_in(u, d, i, u.store[p].entity));
                        assert(exists|t: int|
                            0 <= t < l.len() && (#[trigger] l[t]).0 == u.store[p].entity);
                        assert(false);
                    }
                    assert(i + 1 <= k < d.len() && row_assigned_in(u, d, k, u.store[p].entity));
                }
            }
        }
        lemma_scan_agrees(u, mid1, mid2, d, i + 1);
        assert(scan_from(v1, d, i).0 == scan_from(mid1, d, i + 1).0);
        assert(scan_from(v2, d, i).0 == scan_from(mid2, d, i + 1).0);
    }
}

/// A scan's row assignments coincide with the assignments judged
/// against its own final state: rescanning the processed suffix
/// reproduces the final state exactly, and each pre-existing record's
/// row is either untouched or set by some processed node.
pub proof fn lemma_scan_rescan_fixed(v: NodesView, d: Seq<DomainNodeView>, i: int)
    requires
        0 <= i,
        v.wf(),
        v.editor.gen.can_create_nodes((d.len() - i) as nat),
        v.editor.gen.next_link + conns_from(d, i) <= u64::MAX,
        d.len() < COORD_BOUND,
        forall|k: int| #![trigger d[k]] 0 <= k < d.len() ==> d[k].connections.len() <= COORD_BOUND,
        endpoints_stored(v, d),
    ensures
        scan_from(scan_from(v, d, i).0, d, i).0 == scan_from(v, d, i).0,
        forall|p: int| #![trigger v.store[p]]
            0 <= p < v.store.len() ==> scan_from(v, d, i).0.store[p].row == v.store[p].row
                || rows_assigned_later(scan_from(v, d, i).0, d, i, v.store[p].entity),
    decreases d.len() - i,
{
    if 0 <= i < d.len() {
        let node = d[i];
        let pairs = node.connections;
        let v1 = if node.eligible() {
            v.get_or_create_spec(node.entity, (i + 1) as usize).0
        } else {
            v
        };
        if node.eligible() {
            lemma_get_or_create_wf(v, node.entity, (i + 1) as usize);
            lemma_get_or_create_stores(v, node.entity, (i + 1) as usize);
            lemma_find_context_at_from(v.store, node.entity, 0);
        }
        assert(v1.wf());
        assert(forall|j: int|
            0 <= j < v.store.len() ==> same_identity(v.store[j], #[trigger] v1.store[j]));
        assert forall|k: int, r: int| #![trigger d[k].connections[r]]
            0 <= k < d.len() && 0 <= r < d[k].connections.len() implies find_context(
            v1.store,
            d[k].connections[r].0,
        ) is Some && find_context(v1.store, d[k].connections[r].1) is Some by {
            lemma_find_context_extends(v.store, v1.store, d[k].connections[r].0);
            lemma_find_context_extends(v.store, v1.store, d[k].connections[r].1);
        }
        let linked = links_from(v1.store, v1.editor, pairs, 0);
        let l_run = linked.2;
        lemma_links_from_wf(v1.store, v1.editor, pairs, 0);
        lemma_links_from_monotone(v1.store, v1.editor, pairs, 0);
        lemma_links_from_sources(v1.store, v1.editor, pairs, 0);
        let mid = scan_step(v, node, i).0;
        assert(mid == (NodesView { store: assign_rows_from(v1.store, l_run, 0), editor: linked.0 }));
        lemma_assign_rows_wf(NodesView { store: v1.store, editor: linked.0 }, l_run, 0);
        assert(mid.wf());
        lemma_assign_rows_identity(v1.store, l_run, 0);
        assert forall|k: int, r: int| #![trigger d[k].connections[r]]
            0 <= k < d.len() && 0 <= r < d[k].connections.len() implies find_context(
            mid.store,
            d[k].connections[r].0,
        ) is Some && find_context(mid.store, d[k].connections[r].1) is Some by {
            lemma_find_context_extends(v1.store, mid.store, d[k].connections[r].0);
            lemma_find_context_extends(v1.store, mid.store, d[k].connections[r].1);
        }
        assert(conns_from(d, i) == pairs.len() + conns_from(d, i + 1));
        lemma_scan_rescan_fixed(mid, d, i + 1);
        let w = scan_from(mid, d, i + 1).0;
        assert(scan_from(v, d, i).0 == w);
        // Facts about the final state.
        lemma_scan_wf_store(v, d, i);
        lemma_scan_from_wf(v, d, i);
        lemma_scan_from_settles(v, d, i);
        lemma_scan_from_identity(mid, d, i + 1);
        assert forall|k: int| #![trigger d[k]]
            i <= k < d.len() && d[k].eligible() implies find_context(
            w.store,
            d[k].entity,
        ) is Some by {
            lemma_scan_from_stores_eligible(v, d, i, k);
        }
        assert forall|j: int| 0 <= j < v1.store.len() implies same_identity(
            v1.store[j],
            #[trigger] w.store[j],
        ) by {
            assert(same_identity(v1.store[j], mid.store[j]));
            assert(same_identity(mid.store[j], w.store[j]));
        }
        // The run's assignments equal the assignments judged against the
        // final state.
        lemma_scan_from_monotone(mid, d, i + 1);
        assert forall|j: int|
            0 <= j < linked.0.connected.len() implies #[trigger] w.editor.connected[j]
            == linked.0.connected[j] by {}
        lemma_links_from_outcomes(v1.store, w.store, v1.editor, w.editor, pairs, 0);
        let l_w = links_from(w.store, w.editor, pairs, 0).2;
        assert(l_w == l_run);
        // The rescan's first step: nothing is created, the editor stays,
        // and the same assignments are applied to the final store.
        if node.eligible() {
            lemma_find_context_extends(v1.store, w.store, node.entity);
            assert(w.get_or_create_spec(node.entity, (i + 1) as usize).0 == w);
        }
        assert forall|t: int| #![trigger pairs[t]]
            0 <= t < pairs.len() implies find_context(w.store, pairs[t].0) is Some
            && find_context(w.store, pairs[t].1) is Some && link_settled(
            w.editor,
            pair_link(w.store, pairs[t]),
        ) by {
            assert(d[i].connections[t] == pairs[t]);
        }
        lemma_links_from_fixed(w.store, w.editor, pairs, 0);
        let mid2 = scan_step(w, node, i).0;
        assert(mid2 == (NodesView { store: assign_rows_from(w.store, l_run, 0), editor: w.editor }));
        lemma_assign_rows_identity(w.store, l_run, 0);
        assert forall|t: int| 0 <= t < l_run.len() implies find_context(
            v1.store,
            (#[trigger] l_run[t]).0,
        ) is Some by {}
        lemma_assign_rows_agrees_prefix(v1.store, w.store, l_run, 0);
        lemma_assign_rows_agrees(v1.store, v1.store, l_run, 0);
        // Row invariant between the final state and the rescan's step.
        assert forall|p: int| #![trigger w.store[p]]
            0 <= p < w.store.len() implies w.store[p].row == mid2.store[p].row
            || rows_assigned_later(w, d, i + 1, w.store[p].entity) by {
            if p < v1.store.len() {
                if exists|t: int| 0 <= t < l_run.len() && (#[trigger] l_run[t]).0
                    == v1.store[p].entity {
                    assert(mid.store[p].row == mid2.store[p].row);
                    assert(same_identity(v1.store[p], mid.store[p]));
                    assert(w.store[p].row == mid.store[p].row || rows_assigned_later(
                        w,
                        d,
                        i + 1,
                        mid.store[p].entity,
                    ));
                } else {
                    assert(mid2.store[p] == w.store[p]);
                }
            } else {
                assert(mid2.store[p] == w.store[p]);
            }
        }
        lemma_scan_agrees(w, w, mid2, d, i + 1);
        assert(scan_from(w, d, i + 1).0 == scan_from(mid2, d, i + 1).0);
        assert(scan_from(w, d, i + 1).0 == w);
        assert(scan_from(w, d, i).0 == scan_from(mid2, d, i + 1).0);
        assert(scan_from(w, d, i).0 == w);
        // Row origin for the pre-existing records.
        assert forall|p: int| #![trigger v.store[p]]
            0 <= p < v.store.len() implies w.store[p].row == v.store[p].row
            || rows_assigned_later(w, d, i, v.store[p].entity) by {
            assert(v1.store[p] == v.store[p]);
            if exists|t: int| 0 <= t < l_run.len() && (#[trigger] l_run[t]).0
                == v1.store[p].entity {
                assert(row_assigned_in(w, d, i, v.store[p].entity));
                assert(rows_assigned_later(w, d, i, v.store[p].entity));
            } else {
                assert(mid.store[p] == v1.store[p]);
                assert(w.store[p].row == mid.store[p].row || rows_assigned_later(
                    w,
                    d,
                    i + 1,
                    mid.store[p].entity,
                ));
                if rows_assigned_later(w, d, i + 1, mid.store[p].entity) {
                    let k = choose|k: int|
                        i + 1 <= k < d.len() && row_assigned_in(w, d, k, mid.store[p].entity);
                    assert(i <= k < d.len() && row_assigned_in(w, d, k, v.store[p].entity));
                }
            }
        }
    }
}

/// Scanner state: the node-context store and the node editor.
pub struct Nodes {
    node_editor: NodeEditor,
    nodes: Vec<NodeContext>,
}

impl View for Nodes {
    type V = NodesView;

    closed spec fn view(&self) -> NodesView {
        NodesView { store: self.nodes@, editor: self.node_editor@ }
    }
}

impl Nodes {
    /// Creates a scanner with an empty store around `editor`.
    pub fn new(editor: NodeEditor) -> (r: Self)
        ensures
            r@ == (NodesView { store: Seq::empty(), editor: editor@ }),
    {
        Nodes { node_editor: editor, nodes: Vec::new() }
    }

    /// Returns the node editor.
    pub fn node_editor(&self) -> (r: &NodeEditor)
        ensures
            r@ == self@.editor,
    {
        &self.node_editor
    }

    /// Returns the stored node context of `entity`, if any.
    pub fn lookup_node(&self, entity: Entity) -> (r: Option<NodeContext>)
        ensures
            r == find_context(self@.store, entity),
    {
        let n = self.nodes.len();
        let mut i: usize = 0;
        let mut found: Option<NodeContext> = None;
        while i < n && found.is_none()
            invariant
                i <= n,
                n == self.nodes.len(),
                match found {
                    None => find_context(self@.store, entity) == find_context_from(
                        self@.store,
                        entity,
                        i as int,
                    ),
                    Some(c) => find_context(self@.store, entity) == Some(c),
                },
            decreases n - i,
        {
            let c = self.nodes[i];
            if c.entity == entity {
                found = Some(c);
            }
            i = i + 1;
        }
        found
    }

    /// Returns the node context of `entity`, creating it at column `col`
    /// if the entity is new.
    ///
    /// Repeated calls for the same entity return the same record and
    /// allocate nothing further; in particular the column is only set at
    /// first creation.
    pub fn get_or_create_node(&mut self, entity: Entity, col: usize) -> (r: NodeContext)
        requires
            old(self)@.wf(),
            old(self)@.editor.gen.can_create_nodes(1),
            col < COORD_BOUND,
        ensures
            final(self)@.wf(),
            final(self)@ == old(self)@.get_or_create_spec(entity, col).0,
            r == old(self)@.get_or_create_spec(entity, col).1,
    {
        proof {
            lemma_get_or_create_wf(old(self)@, entity, col);
        }
        match self.lookup_node(entity) {
            Some(ctx) => ctx,
            None => {
                let mut ctx = self.node_editor.add_node(entity);
                ctx.col = col;
                self.nodes.push(ctx);
                ctx
            },
        }
    }

    /// Sets the stored row of `entity`, if it has a context.
    fn set_row(&mut self, entity: Entity, row: usize)
        requires
            old(self)@.wf(),
            row < COORD_BOUND,
        ensures
            final(self)@.wf(),
            final(self)@ == old(self)@.set_row_view(entity, row),
    {
        proof {
            lemma_set_row_wf(old(self)@, entity, row);
            lemma_find_context_at_from(old(self)@.store, entity, 0);
        }
        let n = self.nodes.len();
        let mut i: usize = 0;
        let mut at: Option<usize> = None;
        while i < n && at.is_none()
            invariant
                i <= n,
                n == self.nodes.len(),
                match at {
                    None => find_context_at(self@.store, entity) == find_context_at_from(
                        self@.store,
                        entity,
                        i as int,
                    ),
                    Some(p) => find_context_at(self@.store, entity) == Some(p as int),
                },
            decreases n - i,
        {
            if self.nodes[i].entity == entity {
                at = Some(i);
            }
            i = i + 1;
        }
        match at {
            None => {},
            Some(p) => {
                proof {
                    lemma_find_context_at_from(self@.store, entity, 0);
                }
                let mut c = self.nodes[p];
                c.row = row;
                self.nodes.set(p, c);
            },
        }
    }

    /// Scans the domain snapshot and synchronizes the diagram with it.
    ///
    /// Creates node contexts for newly discovered eligible entities, with
    /// the column taken from the enumeration position; reuses existing
    /// contexts unchanged; materializes a link context for every
    /// connection pair whose endpoints both have contexts and whose
    /// request the connected-set policy admits; and afterwards assigns
    /// each accepted pair's ordinal as the row of its source entity.
    ///
    /// Returns the (context, enumeration position) pairs of the eligible
    /// nodes and the link contexts, in discovery order.
    #[verifier::loop_isolation(false)]
    #[verifier::rlimit(50)]
    pub fn scan_nodes(&mut self, domain: &Vec<DomainNode>) -> (r: (
        Vec<(NodeContext, usize)>,
        Vec<LinkContext>,
    ))
        requires
            old(self)@.wf(),
            domain@.len() < COORD_BOUND,
            forall|k: int| #![trigger domain@[k]]
                0 <= k < domain@.len() ==> domain@[k]@.connections.len() <= COORD_BOUND,
            old(self)@.editor.gen.can_create_nodes(domain@.len() as nat),
            old(self)@.editor.gen.can_create_links(conns_from(domain_views(domain@), 0)),
        ensures
            final(self)@.wf(),
            final(self)@ == scan_spec(old(self)@, domain_views(domain@)).0,
            r.0@ == scan_spec(old(self)@, domain_views(domain@)).1,
            r.1@ == scan_spec(old(self)@, domain_views(domain@)).2,
            forall|k: int| #![trigger r.0@[k]]
                0 <= k < r.0@.len() ==> r.0@[k].0.row < COORD_BOUND && r.0@[k].0.col < COORD_BOUND,
    {
        let ghost d = domain_views(domain@);
        let mut nodes: Vec<(NodeContext, usize)> = Vec::new();
        let mut links: Vec<LinkContext> = Vec::new();
        let n = domain.len();
        let mut i: usize = 0;
        while i < n
            invariant
                i <= n,
                self@.wf(),
                self@.editor.gen.can_create_nodes((n - i) as nat),
                self@.editor.gen.can_create_links(conns_from(d, i as int)),
                scan_from(old(self)@, d, 0).0 == scan_from(self@, d, i as int).0,
                scan_from(old(self)@, d, 0).1 == nodes@ + scan_from(self@, d, i as int).1,
                scan_from(old(self)@, d, 0).2 == links@ + scan_from(self@, d, i as int).2,
                forall|k: int| #![trigger nodes@[k]]
                    0 <= k < nodes@.len() ==> nodes@[k].0.row < COORD_BOUND && nodes@[k].0.col
                        < COORD_BOUND,
            decreases n - i,
        {
            let ghost v0 = self@;
            let ghost nodes0 = nodes@;
            let ghost links0 = links@;
            let ghost step = scan_step(v0, d[i as int], i as int);
            let node = &domain[i];
            proof {
                assert(d[i as int] == node@);
            }
            if node.eligible() {
                proof {
                    lemma_find_context_at_from(v0.store, node@.entity, 0);
                }
                let ctx = self.get_or_create_node(node.entity, i + 1);
                nodes.push((ctx, i));
            }
            let ghost v1 = self@;
            proof {
                if node@.eligible() {
                    assert(v1 == v0.get_or_create_spec(node@.entity, (i + 1) as usize).0);
                    assert(nodes@ =~= nodes0 + step.1);
                } else {
                    assert(nodes@ =~= nodes0 + step.1);
                }
            }
            let m = node.connections.len();
            let mut ls_local: Vec<LinkContext> = Vec::new();
            let mut rows: Vec<(Entity, usize)> = Vec::new();
            let mut rr: usize = 0;
            while rr < m
                invariant
                    rr <= m,
                    self@.wf(),
                    self@.store == v1.store,
                    self@.editor.gen.next_node == v1.editor.gen.next_node,
                    self@.editor.gen.next_input_pin == v1.editor.gen.next_input_pin,
                    self@.editor.gen.next_output_pin == v1.editor.gen.next_output_pin,
                    self@.editor.gen.next_attribute == v1.editor.gen.next_attribute,
                    self@.editor.gen.next_link + (m - rr) + conns_from(d, i as int + 1)
                        <= u64::MAX,
                    links_from(v1.store, v1.editor, node@.connections, 0).0 == links_from(
                        v1.store,
                        self@.editor,
                        node@.connections,
                        rr as int,
                    ).0,
                    links_from(v1.store, v1.editor, node@.connections, 0).1 == ls_local@
                        + links_from(v1.store, self@.editor, node@.connections, rr as int).1,
                    links_from(v1.store, v1.editor, node@.connections, 0).2 == rows@ + links_from(
                        v1.store,
                        self@.editor,
                        node@.connections,
                        rr as int,
                    ).2,
                    forall|k: int| #![trigger rows@[k]]
                        0 <= k < rows@.len() ==> rows@[k].1 < COORD_BOUND,
                decreases m - rr,
            {
                let ghost ed0 = self@.editor;
                let ghost ls0 = ls_local@;
                let ghost rows0 = rows@;
                let pair = node.connections[rr];
                proof {
                    assert(node@.connections[rr as int] == pair);
                }
                let from_ctx = self.lookup_node(pair.0);
                let to_ctx = self.lookup_node(pair.1);
                let ghost lstep = link_step(v1.store, ed0, pair, rr as usize);
                match (from_ctx, to_ctx) {
                    (Some(f), Some(t)) => {
                        let link = f.link(&t, false);
                        match self.node_editor.add_link(link) {
                            Some(link_id) => {
                                ls_local.push(LinkContext { link, link_id });
                                rows.push((pair.0, rr));
                            },
                            None => {},
                        }
                    },
                    _ => {},
                }
                proof {
                    assert(self@.editor == lstep.0);
                    assert(ls_local@ =~= ls0 + lstep.1);
                    assert(rows@ =~= rows0 + lstep.2);
                    assert(ls0 + (lstep.1 + links_from(
                        v1.store,
                        self@.editor,
                        node@.connections,
                        rr as int + 1,
                    ).1) =~= (ls0 + lstep.1) + links_from(
                        v1.store,
                        self@.editor,
                        node@.connections,
                        rr as int + 1,
                    ).1);
                    assert(rows0 + (lstep.2 + links_from(
                        v1.store,
                        self@.editor,
                        node@.connections,
                        rr as int + 1,
                    ).2) =~= (rows0 + lstep.2) + links_from(
                        v1.store,
                        self@.editor,
                        node@.connections,
                        rr as int + 1,
                    ).2);
                }
                rr = rr + 1;
            }
            let ghost linked = links_from(v1.store, v1.editor, node@.connections, 0);
            let ghost ls_i = ls_local@;
            proof {
                assert(linked.1 =~= ls_i + Seq::<LinkContext>::empty());
                assert(ls_i + Seq::<LinkContext>::empty() =~= ls_i);
                assert(linked.2 =~= rows@ + Seq::<(Entity, usize)>::empty());
                assert(rows@ + Seq::<(Entity, usize)>::empty() =~= rows@);
            }
            links.append(&mut ls_local);
            let ghost ed2 = self@.editor;
            let ghost rows_full = rows@;
            let rn = rows.len();
            let mut j: usize = 0;
            while j < rn
                invariant
                    j <= rn,
                    self@.wf(),
                    self@.editor == ed2,
                    rows@ == rows_full,
                    rn == rows@.len(),
                    assign_rows_from(v1.store, rows_full, 0) == assign_rows_from(
                        self@.store,
                        rows_full,
                        j as int,
                    ),
                decreases rn - j,
            {
                let (e, row) = rows[j];
                self.set_row(e, row);
                j = j + 1;
            }
            proof {
                assert(assign_rows_from(self@.store, rows_full, rn as int) == self@.store);
                assert(step.0 =~= self@);
                assert(step.2 == ls_i);
                assert(links@ =~= links0 + ls_i);
                assert(scan_from(v0, d, i as int).0 == scan_from(self@, d, i as int + 1).0);
                assert(nodes0 + (step.1 + scan_from(self@, d, i as int + 1).1) =~= (nodes0
                    + step.1) + scan_from(self@, d, i as int + 1).1);
                assert(links0 + (step.2 + scan_from(self@, d, i as int + 1).2) =~= (links0
                    + step.2) + scan_from(self@, d, i as int + 1).2);
            }
            i = i + 1;
        }
        proof {
            assert(scan_from(self@, d, n as int).0 == self@);
            assert(nodes@ + scan_from(self@, d, n as int).1 =~= nodes@);
            assert(links@ + scan_from(self@, d, n as int).2 =~= links@);
        }
        (nodes, links)
    }

    /// Rearranges the nodes by their layout coordinates.
    ///
    /// Runs a scan cycle, then computes the grid position of every
    /// scanned node: `x = col * COLUMN_SPACING - COLUMN_OFFSET` and
    /// `y = row * ROW_SPACING + ROW_OFFSET`.  The caller forwards each
    /// triple to the rendering surface's position-setting call.
    pub fn rearrange(&mut self, domain: &Vec<DomainNode>) -> (r: Vec<(NodeId, i64, i64)>)
        requires
            old(self)@.wf(),
            domain@.len() < COORD_BOUND,
            forall|k: int| #![trigger domain@[k]]
                0 <= k < domain@.len() ==> domain@[k]@.connections.len() <= COORD_BOUND,
            old(self)@.editor.gen.can_create_nodes(domain@.len() as nat),
            old(self)@.editor.gen.can_create_links(conns_from(domain_views(domain@), 0)),
        ensures
            final(self)@.wf(),
            final(self)@ == scan_spec(old(self)@, domain_views(domain@)).0,
            r@ == positions_of(scan_spec(old(self)@, domain_views(domain@)).1),
    {
        let scanned = self.scan_nodes(domain);
        let nodes = scanned.0;
        let ghost ns = scan_spec(old(self)@, domain_views(domain@)).1;
        let mut out: Vec<(NodeId, i64, i64)> = Vec::new();
        let count = nodes.len();
        let mut k: usize = 0;
        while k < count
            invariant
                k <= count,
                count == nodes@.len(),
                nodes@ == ns,
                forall|t: int| #![trigger nodes@[t]]
                    0 <= t < nodes@.len() ==> nodes@[t].0.row < COORD_BOUND && nodes@[t].0.col
                        < COORD_BOUND,
                out@.len() == k,
                forall|t: int| #![trigger out@[t]] 0 <= t < k ==> out@[t] == positions_of(ns)[t],
            decreases count - k,
        {
            let c = nodes[k].0;
            let x = (c.col as i64) * COLUMN_SPACING - COLUMN_OFFSET;
            let y = (c.row as i64) * ROW_SPACING + ROW_OFFSET;
            out.push((c.node_id, x, y));
            k = k + 1;
        }
        proof {
            assert(out@ =~= positions_of(ns));
        }
        out
    }
}

} // verus!
